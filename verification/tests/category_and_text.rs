use project_folder_manager::category::FileCategory;
use project_folder_manager::text::{
    trim,
    compare_chars, concat2, contains_str, decimal_string, ends_with, split_char, starts_with,
    strip_prefix,
};

#[test]
fn from_extension_classifies_each_category() {
    assert_eq!(FileCategory::from_extension("rs"), FileCategory::Code);
    assert_eq!(FileCategory::from_extension("png"), FileCategory::Image);
    assert_eq!(FileCategory::from_extension("mp4"), FileCategory::Video);
    assert_eq!(FileCategory::from_extension("md"), FileCategory::Document);
    assert_eq!(FileCategory::from_extension("zip"), FileCategory::Archive);
    assert_eq!(FileCategory::from_extension("xyz"), FileCategory::Other);
    assert_eq!(FileCategory::from_extension(""), FileCategory::Other);
}

#[test]
fn from_extension_ignores_case() {
    assert_eq!(FileCategory::from_extension("RS"), FileCategory::Code);
    assert_eq!(FileCategory::from_extension("JpEg"), FileCategory::Image);
    assert_eq!(FileCategory::from_extension("PDF"), FileCategory::Document);
}

#[test]
fn from_lowercase_extension_is_case_sensitive() {
    assert_eq!(FileCategory::from_lowercase_extension("RS"), FileCategory::Other);
    assert_eq!(FileCategory::from_lowercase_extension("ts"), FileCategory::Code);
}

#[test]
fn all_lists_six_categories_in_order() {
    let all = FileCategory::all();
    assert_eq!(
        all,
        vec![
            FileCategory::Code,
            FileCategory::Image,
            FileCategory::Video,
            FileCategory::Document,
            FileCategory::Archive,
            FileCategory::Other
        ]
    );
}

#[test]
fn names_icons_and_colours() {
    assert_eq!(FileCategory::Code.display_name(), "代码");
    assert_eq!(FileCategory::Archive.display_name(), "压缩包");
    assert_eq!(FileCategory::Other.display_name(), "其他");
    assert_eq!(FileCategory::Code.color(), (100, 180, 255));
    assert_eq!(FileCategory::Other.color(), (180, 180, 180));
    assert!(!FileCategory::Image.icon().is_empty());
}

#[test]
fn string_helpers() {
    assert!(starts_with("### title", "### "));
    assert!(!starts_with("## title", "### "));
    assert!(ends_with("App.csproj", ".csproj"));
    assert!(contains_str("my_src_dir", "src"));
    assert!(!contains_str("abc", "abcd"));
    assert_eq!(concat2("ab", "cd"), "abcd");
    assert_eq!(decimal_string(0), "0");
    assert_eq!(decimal_string(1207), "1207");
    assert_eq!(strip_prefix("# Title", "# "), Some("Title".to_string()));
    assert_eq!(strip_prefix("Title", "# "), None);
}

#[test]
fn split_keeps_empty_pieces() {
    assert_eq!(split_char("a,,b,", ','), vec!["a", "", "b", ""]);
    assert_eq!(split_char("", ','), vec![""]);
}

#[test]
fn compare_chars_is_lexicographic() {
    let a: Vec<char> = "apple".chars().collect();
    let b: Vec<char> = "apricot".chars().collect();
    let c: Vec<char> = "app".chars().collect();
    assert!(compare_chars(&a, &b) < 0);
    assert!(compare_chars(&b, &a) > 0);
    assert!(compare_chars(&c, &a) < 0);
    assert_eq!(compare_chars(&a, &a), 0);
}

#[test]
fn trim_removes_unicode_white_space_like_str_trim() {
    let samples = [
        "  plain  ",
        "\u{3000}全角\u{a0}",
        "\t\n\r x \u{2029}",
        "\u{200b}not space\u{200b}",
        "",
        "   ",
        "\u{85}a b\u{205f}",
    ];
    for s in samples {
        assert_eq!(trim(s), s.trim());
    }
}
