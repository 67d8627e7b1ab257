use text_tool::markdown::{
    is_horizontal_rule, parse_ordered_item, render_blocks, strip_heading, Block,
};
use text_tool::inline::{RunStyle, StyledRun};

fn runs_text(runs: &[StyledRun]) -> String {
    let mut out = String::new();
    for r in runs {
        out.push_str(&r.text);
    }
    out
}

#[test]
fn test_strip_heading() {
    assert_eq!(strip_heading("# Hello", 1), Some("Hello"));
    assert_eq!(strip_heading("## World", 2), Some("World"));
    assert_eq!(strip_heading("### Test", 3), Some("Test"));
    assert_eq!(strip_heading("#NoSpace", 1), None);
    assert_eq!(strip_heading("# ", 1), Some(""));
}

#[test]
fn test_is_horizontal_rule() {
    assert!(is_horizontal_rule("---"));
    assert!(is_horizontal_rule("***"));
    assert!(is_horizontal_rule("___"));
    assert!(is_horizontal_rule("----"));
    assert!(is_horizontal_rule("- - -"));
    assert!(!is_horizontal_rule("--"));
    assert!(!is_horizontal_rule("abc"));
}

#[test]
fn test_parse_ordered_item() {
    let (num, rest) = parse_ordered_item("1. First item").unwrap();
    assert_eq!(num, "1");
    assert_eq!(rest, "First item");

    let (num2, rest2) = parse_ordered_item("10. Tenth item").unwrap();
    assert_eq!(num2, "10");
    assert_eq!(rest2, "Tenth item");

    assert!(parse_ordered_item("Not a list").is_none());
    assert!(parse_ordered_item("a. Not ordered").is_none());
}

#[test]
fn test_render_blocks_heading_levels() {
    let blocks = render_blocks("# One\n###### Six");
    assert_eq!(blocks.len(), 2);
    match &blocks[0] {
        Block::Heading { level, text } => {
            assert_eq!(*level, 1);
            assert_eq!(text, "One");
        }
        _ => panic!("expected a heading"),
    }
    match &blocks[1] {
        Block::Heading { level, text } => {
            assert_eq!(*level, 6);
            assert_eq!(text, "Six");
        }
        _ => panic!("expected a heading"),
    }
}

#[test]
fn test_render_blocks_fenced_code() {
    let blocks = render_blocks("```rust\nlet x = 1;\nlet y = 2;\n```\nafter");
    assert_eq!(blocks.len(), 2);
    match &blocks[0] {
        Block::CodeBlock { text } => assert_eq!(text, "let x = 1;\nlet y = 2;"),
        _ => panic!("expected a code block"),
    }
    match &blocks[1] {
        Block::Paragraph { runs } => assert_eq!(runs_text(runs), "after"),
        _ => panic!("expected a paragraph"),
    }
}

#[test]
fn test_render_blocks_unterminated_fence_discards() {
    let blocks = render_blocks("before\n```\nlost line");
    assert_eq!(blocks.len(), 1);
    match &blocks[0] {
        Block::Paragraph { runs } => assert_eq!(runs_text(runs), "before"),
        _ => panic!("expected a paragraph"),
    }
}

#[test]
fn test_render_blocks_quote_lists_rule_spacer() {
    let blocks = render_blocks("> quoted\n- bullet\n3. third\n---\n\nplain");
    assert_eq!(blocks.len(), 6);
    match &blocks[0] {
        Block::BlockQuote { runs } => assert_eq!(runs_text(runs), "quoted"),
        _ => panic!("expected a quote"),
    }
    match &blocks[1] {
        Block::ListItem { ordered, marker, runs } => {
            assert!(!ordered);
            assert_eq!(marker, "-");
            assert_eq!(runs_text(runs), "bullet");
        }
        _ => panic!("expected a list item"),
    }
    match &blocks[2] {
        Block::ListItem { ordered, marker, runs } => {
            assert!(ordered);
            assert_eq!(marker, "3");
            assert_eq!(runs_text(runs), "third");
        }
        _ => panic!("expected a list item"),
    }
    assert!(matches!(blocks[3], Block::HorizontalRule));
    assert!(matches!(blocks[4], Block::Spacer));
    match &blocks[5] {
        Block::Paragraph { runs } => assert_eq!(runs_text(runs), "plain"),
        _ => panic!("expected a paragraph"),
    }
}

#[test]
fn test_render_blocks_empty_input() {
    assert!(render_blocks("").is_empty());
}

#[test]
fn test_render_blocks_hash_noise() {
    // a run of '#' with no space is no heading for the renderer
    let blocks = render_blocks("#####x\n########");
    assert_eq!(blocks.len(), 2);
    assert!(matches!(&blocks[0], Block::Paragraph { .. }));
    assert!(matches!(&blocks[1], Block::Paragraph { .. }));
}

#[test]
fn test_render_blocks_quote_without_space() {
    let blocks = render_blocks(">tight");
    assert_eq!(blocks.len(), 1);
    match &blocks[0] {
        Block::BlockQuote { runs } => assert_eq!(runs_text(runs), "tight"),
        _ => panic!("expected a quote"),
    }
}

#[test]
fn test_render_blocks_paragraph_with_markup() {
    let blocks = render_blocks("say **it** loud");
    assert_eq!(blocks.len(), 1);
    match &blocks[0] {
        Block::Paragraph { runs } => {
            assert_eq!(runs.len(), 3);
            assert_eq!(runs[0].style, RunStyle::Plain);
            assert_eq!(runs[1].style, RunStyle::Bold);
            assert_eq!(runs[1].text, "it");
            assert_eq!(runs_text(runs), "say it loud");
        }
        _ => panic!("expected a paragraph"),
    }
}
