use text_tool::inline::{tokenize_inline, RunStyle, StyledRun};

fn joined(runs: &[StyledRun]) -> String {
    let mut out = String::new();
    for r in runs {
        out.push_str(&r.text);
    }
    out
}

#[test]
fn test_build_inline_job_plain() {
    let runs = tokenize_inline("plain text");
    assert_eq!(runs.len(), 1);
    assert_eq!(joined(&runs), "plain text");
    assert_eq!(runs[0].style, RunStyle::Plain);
}

#[test]
fn test_build_inline_job_bold() {
    let runs = tokenize_inline("**bold**");
    assert_eq!(joined(&runs), "bold");
    assert_eq!(runs.len(), 1);
    assert_eq!(runs[0].style, RunStyle::Bold);
}

#[test]
fn test_build_inline_job_italic() {
    let runs = tokenize_inline("*italic*");
    assert_eq!(joined(&runs), "italic");
    assert_eq!(runs[0].style, RunStyle::Italic);
}

#[test]
fn test_build_inline_job_code() {
    let runs = tokenize_inline("`code`");
    assert_eq!(joined(&runs), "code");
    assert_eq!(runs[0].style, RunStyle::Code);
}

#[test]
fn test_build_inline_job_mixed() {
    let runs = tokenize_inline("Hello **world** and *there*");
    assert_eq!(joined(&runs), "Hello world and there");
}

#[test]
fn test_build_inline_job_chinese() {
    let runs = tokenize_inline("你好 **世界**");
    assert_eq!(joined(&runs), "你好 世界");
}

#[test]
fn test_build_inline_job_chinese_italic() {
    let runs = tokenize_inline("*中文斜体*");
    assert_eq!(joined(&runs), "中文斜体");
    assert_eq!(runs[0].style, RunStyle::Italic);
}

#[test]
fn test_build_inline_job_chinese_code() {
    let runs = tokenize_inline("`中文代码`");
    assert_eq!(joined(&runs), "中文代码");
}

#[test]
fn test_build_inline_job_unclosed_bold() {
    let runs = tokenize_inline("**unclosed");
    assert_eq!(joined(&runs), "**unclosed");
}

#[test]
fn test_inline_unclosed_code_runs_to_line_end() {
    let runs = tokenize_inline("a `rest of line");
    assert_eq!(runs.len(), 2);
    assert_eq!(runs[0].style, RunStyle::Plain);
    assert_eq!(runs[0].text, "a ");
    assert_eq!(runs[1].style, RunStyle::Code);
    assert_eq!(runs[1].text, "rest of line");
}

#[test]
fn test_inline_unclosed_italic_runs_to_line_end() {
    let runs = tokenize_inline("a *rest of line");
    assert_eq!(runs.len(), 2);
    assert_eq!(runs[1].style, RunStyle::Italic);
    assert_eq!(runs[1].text, "rest of line");
}

#[test]
fn test_inline_empty_spans_emit_nothing() {
    assert!(tokenize_inline("").is_empty());
    // empty bold and code spans produce no run
    let bold = tokenize_inline("****");
    assert!(bold.is_empty());
    let code = tokenize_inline("``");
    assert!(code.is_empty());
}

#[test]
fn test_inline_unclosed_bold_keeps_scanning() {
    // the two literal characters stay, and the rest is still scanned
    let runs = tokenize_inline("**a *b*");
    assert_eq!(runs.len(), 3);
    assert_eq!(runs[0].style, RunStyle::Plain);
    assert_eq!(runs[0].text, "**");
    assert_eq!(runs[1].style, RunStyle::Plain);
    assert_eq!(runs[1].text, "a ");
    assert_eq!(runs[2].style, RunStyle::Italic);
    assert_eq!(runs[2].text, "b");
}

#[test]
fn test_inline_runs_never_empty() {
    for text in ["", "**", "*", "`", "a**b**c", "``x", "* *"] {
        for r in tokenize_inline(text) {
            assert!(!r.text.is_empty());
        }
    }
}
