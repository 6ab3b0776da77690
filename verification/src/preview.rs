//! Deciding how a file is previewed, and the preview of text files.
use vstd::prelude::*;
use crate::category::{FileCategory, category_of};
use crate::models::PreviewContent;
use crate::text::{
    spec_lowercase, to_lowercase, str_eq, concat2, append_str, spec_format_size_binary,
    format_size_binary, byte_len, byte_range, byte_range_text, at_char_boundary, lemma_range_valid,
};

verus! {

/// Text files larger than this (in bytes) are not previewed.
pub const MAX_TEXT_FILE_SIZE: u64 = 10485760;

/// A text preview keeps at most this many bytes of the text.
pub const MAX_PREVIEW_BYTES: usize = 100000;

/// How a file is to be previewed.
pub enum PreviewPlan {
    /// It is not an existing file: nothing to show.
    Empty,
    /// Load it as an image.
    Image,
    /// Read it as text; `extension` is its lower-cased extension.
    Text { extension: String },
    /// It cannot be previewed; `extension` is its lower-cased extension.
    Unsupported { extension: String },
}

/// Decides how to preview a path: nothing unless it is an existing file; by
/// the category of its lower-cased extension otherwise (images as images, code
/// and documents as text).
pub fn plan_preview(present: bool, is_file: bool, raw_extension: &str) -> (plan: PreviewPlan)
    ensures
        !present || !is_file ==> plan is Empty,
        present && is_file ==> {
            let ext = spec_lowercase(raw_extension@);
            let cat = category_of(spec_lowercase(ext));
            if cat == FileCategory::Image {
                plan is Image
            } else if cat == FileCategory::Code || cat == FileCategory::Document {
                plan matches PreviewPlan::Text { extension } && extension@ == ext
            } else {
                plan matches PreviewPlan::Unsupported { extension } && extension@ == ext
            }
        },
{
    if !present || !is_file {
        return PreviewPlan::Empty;
    }
    let extension = to_lowercase(raw_extension);
    let cat = FileCategory::from_extension(extension.as_str());
    if cat == FileCategory::Image {
        return PreviewPlan::Image;
    }
    if cat == FileCategory::Code || cat == FileCategory::Document {
        return PreviewPlan::Text { extension };
    }
    PreviewPlan::Unsupported { extension }
}

/// The message for a file that cannot be previewed.
pub fn unsupported_preview(extension: &str, size: u64) -> (p: PreviewContent)
    ensures
        p matches PreviewContent::Unsupported(m) && m@ == "不支持预览此文件类型 (."@ + extension@
            + ")\n文件大小: "@ + spec_format_size_binary(size),
{
    let mut m = String::from_str("不支持预览此文件类型 (.");
    append_str(&mut m, extension);
    append_str(&mut m, ")\n文件大小: ");
    let size_text = format_size_binary(size);
    append_str(&mut m, size_text.as_str());
    PreviewContent::Unsupported(m)
}

/// The message for a text file that is too large, if it is (`size` is
/// `None` where its length could not be read).
pub fn text_size_check(size: Option<u64>) -> (p: Option<PreviewContent>)
    ensures
        match size {
            Some(n) if n > MAX_TEXT_FILE_SIZE => p matches Some(PreviewContent::Unsupported(m))
                && m@ == "文件过大 ("@ + spec_format_size_binary(n) + "), 无法预览文本"@,
            _ => p is None,
        },
{
    match size {
        Some(n) => {
            if n > MAX_TEXT_FILE_SIZE {
                let mut m = String::from_str("文件过大 (");
                let size_text = format_size_binary(n);
                append_str(&mut m, size_text.as_str());
                append_str(&mut m, "), 无法预览文本");
                Some(PreviewContent::Unsupported(m))
            } else {
                None
            }
        },
        None => None,
    }
}

/// The message for a text file that could not be read.
pub fn read_failed_preview(err: &str) -> (p: PreviewContent)
    ensures
        p matches PreviewContent::Unsupported(m) && m@ == "文件读取失败: "@ + err@,
{
    PreviewContent::Unsupported(concat2("文件读取失败: ", err))
}

/// The message for an image that could not be loaded.
pub fn image_failed_preview(err: &str) -> (p: PreviewContent)
    ensures
        p matches PreviewContent::Unsupported(m) && m@ == "图片加载失败: "@ + err@,
{
    PreviewContent::Unsupported(concat2("图片加载失败: ", err))
}

/// The message for an image whose decoding broke down.
pub fn image_corrupt_preview() -> (p: PreviewContent)
    ensures
        p matches PreviewContent::Unsupported(m) && m@ == "此图片文件已损坏，无法预览"@,
{
    PreviewContent::Unsupported(String::from_str("此图片文件已损坏，无法预览"))
}

/// The largest byte offset of `s` that is at most `i` and falls between two
/// characters.
pub open spec fn boundary_floor(s: Seq<char>, i: int) -> int
    decreases i,
{
    if i <= 0 {
        0
    } else if at_char_boundary(s, i) {
        i
    } else {
        boundary_floor(s, i - 1)
    }
}

/// The text that a preview shows: a text of more than `MAX_PREVIEW_BYTES`
/// bytes is cut to its longest start of at most `MAX_PREVIEW_BYTES` bytes
/// that ends between two characters, and a note is appended.
pub open spec fn preview_text(content: Seq<char>) -> Seq<char> {
    if byte_len(content) > MAX_PREVIEW_BYTES {
        byte_range_text(content, 0, boundary_floor(content, MAX_PREVIEW_BYTES as int))
            + "\n\n... (文件过大，仅显示前 100KB)"@
    } else {
        content
    }
}

proof fn lemma_boundary_floor(s: Seq<char>, i: int)
    requires
        0 <= i <= byte_len(s),
    ensures
        0 <= boundary_floor(s, i) <= i,
        at_char_boundary(s, boundary_floor(s, i)),
    decreases i,
{
    if i <= 0 {
        vstd::utf8::encode_utf8_valid_utf8(s);
        vstd::utf8::is_char_boundary_start_end_of_seq(vstd::utf8::encode_utf8(s));
    } else if !at_char_boundary(s, i) {
        lemma_boundary_floor(s, i - 1);
    }
}

/// Law: the text that a preview keeps of a file (before the note) takes at
/// most `MAX_PREVIEW_BYTES` bytes.
pub proof fn law_preview_within_limit(content: Seq<char>)
    requires
        byte_len(content) > MAX_PREVIEW_BYTES,
    ensures
        byte_len(byte_range_text(content, 0, boundary_floor(content, MAX_PREVIEW_BYTES as int)))
            <= MAX_PREVIEW_BYTES,
{
    lemma_boundary_floor(content, MAX_PREVIEW_BYTES as int);
    vstd::utf8::encode_utf8_valid_utf8(content);
    vstd::utf8::is_char_boundary_start_end_of_seq(vstd::utf8::encode_utf8(content));
    lemma_range_valid(content, 0, boundary_floor(content, MAX_PREVIEW_BYTES as int));
}

/// The preview of a text file with this (lower-cased) extension: Markdown
/// for "md" and "markdown", highlighted code for code files, plain text
/// otherwise.
pub fn text_preview(content: String, extension: &str) -> (p: PreviewContent)
    ensures
        ({
            let text = preview_text(content@);
            if extension@ == "md"@ || extension@ == "markdown"@ {
                p matches PreviewContent::Markdown(t) && t@ == text
            } else if category_of(spec_lowercase(extension@)) == FileCategory::Code {
                p matches PreviewContent::Code { text: t, language } && t@ == text && language@ == extension@
            } else {
                p matches PreviewContent::Text(t) && t@ == text
            }
        }),
{
    let n = content.as_str().as_bytes().len();
    let text = if n > MAX_PREVIEW_BYTES {
        let mut cut: usize = MAX_PREVIEW_BYTES;
        while cut > 0 && !content.as_str().is_char_boundary(cut)
            invariant
                cut <= MAX_PREVIEW_BYTES < n,
                n == byte_len(content@),
                boundary_floor(content@, cut as int) == boundary_floor(content@, MAX_PREVIEW_BYTES as int),
            decreases cut,
        {
            cut = cut - 1;
        }
        proof {
            vstd::utf8::encode_utf8_valid_utf8(content@);
            vstd::utf8::is_char_boundary_start_end_of_seq(vstd::utf8::encode_utf8(content@));
            lemma_boundary_floor(content@, cut as int);
        }
        let head = byte_range(content.as_str(), 0, cut);
        let mut t = String::from_str(head);
        append_str(&mut t, "\n\n... (文件过大，仅显示前 100KB)");
        t
    } else {
        content
    };
    assert(text@ == preview_text(content@));
    if str_eq(extension, "md") || str_eq(extension, "markdown") {
        return PreviewContent::Markdown(text);
    }
    if FileCategory::from_extension(extension) == FileCategory::Code {
        return PreviewContent::Code { text, language: String::from_str(extension) };
    }
    PreviewContent::Text(text)
}

} // verus!
