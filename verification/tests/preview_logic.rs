use project_folder_manager::highlight::{append_line_spans, highlight_code, split_lines_with_endings, Highlighting};
use project_folder_manager::models::PreviewContent;
use project_folder_manager::preview::{
    image_corrupt_preview, image_failed_preview, plan_preview, read_failed_preview,
    text_preview, text_size_check, unsupported_preview, PreviewPlan, MAX_TEXT_FILE_SIZE,
};

#[test]
fn plans_by_category() {
    assert!(matches!(plan_preview(false, false, "png"), PreviewPlan::Empty));
    assert!(matches!(plan_preview(true, false, "png"), PreviewPlan::Empty));
    assert!(matches!(plan_preview(true, true, "PNG"), PreviewPlan::Image));
    assert!(matches!(plan_preview(true, true, "RS"), PreviewPlan::Text { extension } if extension == "rs"));
    assert!(matches!(plan_preview(true, true, "md"), PreviewPlan::Text { extension } if extension == "md"));
    assert!(matches!(plan_preview(true, true, "zip"), PreviewPlan::Unsupported { extension } if extension == "zip"));
}

fn message(p: PreviewContent) -> String {
    match p {
        PreviewContent::Unsupported(m) => m,
        _ => panic!("expected a message"),
    }
}

#[test]
fn messages() {
    assert_eq!(message(unsupported_preview("zip", 2048)), "不支持预览此文件类型 (.zip)\n文件大小: 2 KiB");
    assert_eq!(message(read_failed_preview("denied")), "文件读取失败: denied");
    assert_eq!(message(image_failed_preview("bad")), "图片加载失败: bad");
    assert_eq!(message(image_corrupt_preview()), "此图片文件已损坏，无法预览");
}

#[test]
fn large_text_files_are_refused() {
    assert!(text_size_check(None).is_none());
    assert!(text_size_check(Some(MAX_TEXT_FILE_SIZE)).is_none());
    let m = message(text_size_check(Some(MAX_TEXT_FILE_SIZE + 1)).unwrap());
    assert_eq!(m, "文件过大 (10.00 MiB), 无法预览文本");
}

#[test]
fn text_previews_by_extension() {
    assert!(matches!(text_preview("# T".to_string(), "md"), PreviewContent::Markdown(t) if t == "# T"));
    assert!(matches!(text_preview("x".to_string(), "markdown"), PreviewContent::Markdown(_)));
    match text_preview("fn main() {}".to_string(), "rs") {
        PreviewContent::Code { text, language } => {
            assert_eq!(text, "fn main() {}");
            assert_eq!(language, "rs");
        }
        _ => panic!("expected code"),
    }
    assert!(matches!(text_preview("a,b".to_string(), "csv"), PreviewContent::Text(t) if t == "a,b"));
}

#[test]
fn long_texts_are_cut() {
    let note = "\n\n... (文件过大，仅显示前 100KB)";
    let long = "é".repeat(60_000);
    match text_preview(long, "txt") {
        PreviewContent::Text(t) => assert_eq!(t, format!("{}{}", "é".repeat(50_000), note)),
        _ => panic!("expected text"),
    }
    // three-byte characters: the cut falls back to the last boundary
    let euros = "€".repeat(40_000);
    match text_preview(euros, "txt") {
        PreviewContent::Text(t) => {
            assert_eq!(t, format!("{}{}", "€".repeat(33_333), note));
            assert!(t.len() - note.len() <= 100_000);
        }
        _ => panic!("expected text"),
    }
    let longer = "a".repeat(100_005);
    match text_preview(longer, "txt") {
        PreviewContent::Text(t) => assert_eq!(t, format!("{}{}", "a".repeat(100_000), note)),
        _ => panic!("expected text"),
    }
    let exact = "b".repeat(100_000);
    assert!(matches!(text_preview(exact.clone(), "txt"), PreviewContent::Text(t) if t == exact));
}

#[test]
fn lines_keep_their_endings() {
    assert_eq!(split_lines_with_endings("a\nb"), vec!["a\n", "b"]);
    assert_eq!(split_lines_with_endings("a\n"), vec!["a\n"]);
    assert_eq!(split_lines_with_endings("\n\n"), vec!["\n", "\n"]);
    assert!(split_lines_with_endings("").is_empty());
    let text = "x\r\ny\nz";
    let expected: Vec<String> = syntect::util::LinesWithEndings::from(text).map(|l| l.to_string()).collect();
    assert_eq!(split_lines_with_endings(text), expected);
}

#[test]
fn highlighting_keeps_the_code() {
    let h = Highlighting::load_defaults();
    let code = "fn main() {\n    let x = 1;\n}\n";
    let spans = highlight_code(code, "rs", &h);
    let text: String = spans.iter().map(|(_, t)| t.as_str()).collect();
    assert_eq!(text, code);
    assert!(spans.len() > 3);
    // an unknown extension is highlighted as plain text
    let plain = highlight_code("a b\nc", "nope", &h);
    let text: String = plain.iter().map(|(_, t)| t.as_str()).collect();
    assert_eq!(text, "a b\nc");
    assert!(highlight_code("", "rs", &h).is_empty());
}

#[test]
fn highlighting_matches_syntect_line_by_line() {
    let h = Highlighting::load_defaults();
    let ss = syntect::parsing::SyntaxSet::load_defaults_newlines();
    let ts = syntect::highlighting::ThemeSet::load_defaults();
    let syntax = ss.find_syntax_by_extension("rs").unwrap();
    let theme = &ts.themes["base16-ocean.dark"];
    let code = "// note\nfn f(x: u8) -> u8 { x + 1 }\nlet s = \"str\";";
    let mut lines = syntect::easy::HighlightLines::new(syntax, theme);
    let mut expected: Vec<((u8, u8, u8), String)> = Vec::new();
    for line in syntect::util::LinesWithEndings::from(code) {
        for (style, text) in lines.highlight_line(line, &ss).unwrap() {
            let c = style.foreground;
            expected.push(((c.r, c.g, c.b), text.to_string()));
        }
    }
    assert_eq!(highlight_code(code, "rs", &h), expected);
    // the comment is not drawn in the colour of the keyword
    let spans = highlight_code(code, "rs", &h);
    let comment = spans.iter().find(|(_, t)| t.contains("note")).unwrap().0;
    let keyword = spans.iter().find(|(_, t)| t.as_str() == "fn").unwrap().0;
    assert_ne!(comment, keyword);
}

#[test]
fn default_syntax_names_are_distinct() {
    let ss = syntect::parsing::SyntaxSet::load_defaults_newlines();
    let mut names: Vec<&str> = ss.syntaxes().iter().map(|s| s.name.as_str()).collect();
    let n = names.len();
    names.sort();
    names.dedup();
    assert_eq!(names.len(), n);
    assert!(names.contains(&"Plain Text"));
    let themes: Vec<String> = syntect::highlighting::ThemeSet::load_defaults().themes.keys().cloned().collect();
    assert_eq!(
        themes,
        vec![
            "InspiredGitHub",
            "Solarized (dark)",
            "Solarized (light)",
            "base16-eighties.dark",
            "base16-mocha.dark",
            "base16-ocean.dark",
            "base16-ocean.light",
        ]
    );
}

#[test]
fn line_spans_are_appended_in_order() {
    let mut spans = vec![((1, 2, 3), "a".to_string())];
    append_line_spans(&mut spans, Some(vec![((4, 5, 6), "b".to_string()), ((7, 8, 9), "c\n".to_string())]));
    assert_eq!(
        spans,
        vec![((1, 2, 3), "a".to_string()), ((4, 5, 6), "b".to_string()), ((7, 8, 9), "c\n".to_string())]
    );
    append_line_spans(&mut spans, None);
    assert_eq!(spans.len(), 3);
}
