//! The simple Markdown view of the preview panel: the text is cut into lines
//! and each line is classified by how it begins.
use vstd::prelude::*;
use crate::text::{
    chars_of, concat2, seq_starts_with, split_char, split_pieces, string_from_chars, strip_prefix,
    starts_with, contains_char, lemma_split_pieces_nonempty,
};
use crate::tree::string_views;

verus! {

/// How one line of Markdown is shown.
pub enum MarkdownLine {
    /// "### " and the rest: a small heading.
    Heading3(String),
    /// "## " and the rest: a middle heading.
    Heading2(String),
    /// "# " and the rest: a large heading.
    Heading1(String),
    /// A line beginning with "```", shown as it is in grey.
    Fence(String),
    /// "- " or "* " and the rest, shown as "  > " and the rest.
    ListItem(String),
    /// A line beginning with "> ", shown as it is.
    Quote(String),
    /// An empty line: some space.
    Blank,
    /// A line holding "`": its pieces between the backticks, the odd ones
    /// shown as code.
    Spans(Vec<String>),
    /// Any other line, shown as it is.
    Plain(String),
}

/// The value of a `MarkdownLine`.
pub enum MarkdownLineView {
    Heading3(Seq<char>),
    Heading2(Seq<char>),
    Heading1(Seq<char>),
    Fence(Seq<char>),
    ListItem(Seq<char>),
    Quote(Seq<char>),
    Blank,
    Spans(Seq<Seq<char>>),
    Plain(Seq<char>),
}

impl View for MarkdownLine {
    type V = MarkdownLineView;

    open spec fn view(&self) -> MarkdownLineView {
        match self {
            MarkdownLine::Heading3(t) => MarkdownLineView::Heading3(t@),
            MarkdownLine::Heading2(t) => MarkdownLineView::Heading2(t@),
            MarkdownLine::Heading1(t) => MarkdownLineView::Heading1(t@),
            MarkdownLine::Fence(t) => MarkdownLineView::Fence(t@),
            MarkdownLine::ListItem(t) => MarkdownLineView::ListItem(t@),
            MarkdownLine::Quote(t) => MarkdownLineView::Quote(t@),
            MarkdownLine::Blank => MarkdownLineView::Blank,
            MarkdownLine::Spans(v) => MarkdownLineView::Spans(string_views(v@)),
            MarkdownLine::Plain(t) => MarkdownLineView::Plain(t@),
        }
    }
}

/// `s` without its first `p.len()` characters.
pub open spec fn after_prefix(s: Seq<char>, p: Seq<char>) -> Seq<char> {
    s.subrange(p.len() as int, s.len() as int)
}

/// How a line is shown; the first rule that applies decides.
pub open spec fn classify_line(line: Seq<char>) -> MarkdownLineView {
    if seq_starts_with(line, "### "@) {
        MarkdownLineView::Heading3(after_prefix(line, "### "@))
    } else if seq_starts_with(line, "## "@) {
        MarkdownLineView::Heading2(after_prefix(line, "## "@))
    } else if seq_starts_with(line, "# "@) {
        MarkdownLineView::Heading1(after_prefix(line, "# "@))
    } else if seq_starts_with(line, "```"@) {
        MarkdownLineView::Fence(line)
    } else if seq_starts_with(line, "- "@) {
        MarkdownLineView::ListItem("  > "@ + after_prefix(line, "- "@))
    } else if seq_starts_with(line, "* "@) {
        MarkdownLineView::ListItem("  > "@ + after_prefix(line, "* "@))
    } else if seq_starts_with(line, "> "@) {
        MarkdownLineView::Quote(line)
    } else if line.len() == 0 {
        MarkdownLineView::Blank
    } else if line.contains('`') {
        MarkdownLineView::Spans(split_pieces(line, '`'))
    } else {
        MarkdownLineView::Plain(line)
    }
}

/// How one line is shown.
pub fn classify(line: &str) -> (m: MarkdownLine)
    ensures
        m@ == classify_line(line@),
{
    if let Some(rest) = strip_prefix(line, "### ") {
        MarkdownLine::Heading3(rest)
    } else if let Some(rest) = strip_prefix(line, "## ") {
        MarkdownLine::Heading2(rest)
    } else if let Some(rest) = strip_prefix(line, "# ") {
        MarkdownLine::Heading1(rest)
    } else if starts_with(line, "```") {
        MarkdownLine::Fence(line.to_owned())
    } else if let Some(rest) = strip_prefix(line, "- ") {
        MarkdownLine::ListItem(concat2("  > ", rest.as_str()))
    } else if let Some(rest) = strip_prefix(line, "* ") {
        MarkdownLine::ListItem(concat2("  > ", rest.as_str()))
    } else if starts_with(line, "> ") {
        MarkdownLine::Quote(line.to_owned())
    } else if line.is_empty() {
        MarkdownLine::Blank
    } else if contains_char(line, '`') {
        MarkdownLine::Spans(split_char(line, '`'))
    } else {
        MarkdownLine::Plain(line.to_owned())
    }
}

/// `line` without one carriage return at its end.
pub open spec fn strip_cr(line: Seq<char>) -> Seq<char> {
    if line.len() > 0 && line.last() == '\r' {
        line.drop_last()
    } else {
        line
    }
}

/// The lines of a text as `str::lines` gives them: split at each "\n",
/// a "\r" before the "\n" dropped, and no empty last line after a final
/// "\n" (nor any line at all for an empty text).
pub open spec fn text_lines(s: Seq<char>) -> Seq<Seq<char>> {
    let pieces = split_pieces(s, '\n');
    let ended = Seq::new((pieces.len() - 1) as nat, |i: int| strip_cr(pieces[i]));
    if pieces.last().len() == 0 {
        ended
    } else {
        ended.push(pieces.last())
    }
}

/// `line` without one carriage return at its end.
fn without_cr(line: &str) -> (r: String)
    ensures
        r@ == strip_cr(line@),
{
    let cs = chars_of(line);
    if cs.len() > 0 && cs[cs.len() - 1] == '\r' {
        string_from_chars(&cs, 0, cs.len() - 1)
    } else {
        string_from_chars(&cs, 0, cs.len())
    }
}

/// The lines of a text, as `str::lines` gives them.
pub fn lines(text: &str) -> (v: Vec<String>)
    ensures
        string_views(v@) == text_lines(text@),
{
    let pieces = split_char(text, '\n');
    proof {
        lemma_split_pieces_nonempty(text@, '\n');
    }
    let ghost sp = split_pieces(text@, '\n');
    let mut v: Vec<String> = Vec::new();
    let mut i: usize = 0;
    assert(pieces@.len() == sp.len());
    while i < pieces.len() - 1
        invariant
            string_views(pieces@) == sp,
            pieces@.len() == sp.len(),
            sp.len() >= 1,
            i < sp.len(),
            string_views(v@) == Seq::new(i as nat, |k: int| strip_cr(sp[k])),
        decreases sp.len() - i,
    {
        assert(pieces@[i as int]@ == sp[i as int]);
        let ghost before = v@;
        v.push(without_cr(pieces[i].as_str()));
        assert(string_views(v@) =~= string_views(before).push(strip_cr(sp[i as int])));
        i = i + 1;
        assert(string_views(v@) =~= Seq::new(i as nat, |k: int| strip_cr(sp[k])));
    }
    let last = &pieces[pieces.len() - 1];
    assert(last@ == sp.last());
    if !last.as_str().is_empty() {
        v.push(last.as_str().to_owned());
    }
    assert(string_views(v@) =~= text_lines(text@));
    v
}

/// The Markdown view of a text: each of its lines, classified.
pub fn render_markdown(text: &str) -> (v: Vec<MarkdownLine>)
    ensures
        v@.len() == text_lines(text@).len(),
        forall|i: int| 0 <= i < v@.len() ==> #[trigger] v@[i]@ == classify_line(text_lines(text@)[i]),
{
    let ls = lines(text);
    let mut v: Vec<MarkdownLine> = Vec::new();
    let mut i: usize = 0;
    while i < ls.len()
        invariant
            i <= ls@.len(),
            string_views(ls@) == text_lines(text@),
            v@.len() == i,
            forall|k: int| 0 <= k < i ==> #[trigger] v@[k]@ == classify_line(text_lines(text@)[k]),
        decreases ls@.len() - i,
    {
        assert(ls@[i as int]@ == text_lines(text@)[i as int]);
        v.push(classify(ls[i].as_str()));
        i = i + 1;
    }
    v
}

} // verus!
