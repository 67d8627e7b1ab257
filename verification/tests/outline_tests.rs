use text_tool::outline::{parse_outline, nest_entries};

#[test]
fn app_test_parse_outline_empty() {
    let result = parse_outline("");
    assert!(result.is_empty());
}

#[test]
fn app_test_parse_outline_headings() {
    let md = "# Chapter 1\n## Scene 1\n## Scene 2\n# Chapter 2\n";
    let result = parse_outline(md);
    assert_eq!(result.len(), 2);
    assert_eq!(result[0].title, "Chapter 1");
    assert_eq!(result[0].children.len(), 2);
    assert_eq!(result[0].children[0].title, "Scene 1");
    assert_eq!(result[1].title, "Chapter 2");
    assert!(result[1].children.is_empty());
}

#[test]
fn app_test_parse_outline_no_headings() {
    let md = "Just some text\nNo headings here.";
    let result = parse_outline(md);
    assert!(result.is_empty());
}

#[test]
fn mod_test_parse_outline_empty() {
    let result = parse_outline("");
    assert!(result.is_empty());
}

#[test]
fn mod_test_parse_outline_headings() {
    let md = "# Chapter 1\n## Scene 1\n## Scene 2\n# Chapter 2\n";
    let result = parse_outline(md);
    assert_eq!(result.len(), 2);
    assert_eq!(result[0].title, "Chapter 1");
    assert_eq!(result[0].children.len(), 2);
    assert_eq!(result[0].children[0].title, "Scene 1");
    assert_eq!(result[1].title, "Chapter 2");
    assert!(result[1].children.is_empty());
}

#[test]
fn mod_test_parse_outline_no_headings() {
    let md = "Just some text\nNo headings here.";
    let result = parse_outline(md);
    assert!(result.is_empty());
}

#[test]
fn test_parse_outline_single_hash_needs_space() {
    // a single '#' opens a heading only before a space or the line end
    let result = parse_outline("#NoSpace");
    assert!(result.is_empty());
    let result2 = parse_outline("#");
    assert_eq!(result2.len(), 1);
    assert_eq!(result2[0].title, "");
}

#[test]
fn test_parse_outline_deeper_levels() {
    let md = "# A\n## B\n### C\n## D\n# E";
    let result = parse_outline(md);
    assert_eq!(result.len(), 2);
    assert_eq!(result[0].title, "A");
    assert_eq!(result[0].children.len(), 2);
    assert_eq!(result[0].children[0].title, "B");
    assert_eq!(result[0].children[0].children.len(), 1);
    assert_eq!(result[0].children[0].children[0].title, "C");
    assert_eq!(result[0].children[1].title, "D");
    assert_eq!(result[1].title, "E");
}

#[test]
fn test_parse_outline_orphan_deep_heading_dropped() {
    // a deep heading before any shallower one produces no node
    let md = "### Deep first\n# Root";
    let result = parse_outline(md);
    assert_eq!(result.len(), 1);
    assert_eq!(result[0].title, "Root");
    assert!(result[0].children.is_empty());
}

#[test]
fn test_parse_outline_seven_hashes_read_as_level_six() {
    let md = "####### extra";
    let result = parse_outline(md);
    assert_eq!(result.len(), 0);
    // nested under a chain of openers the level-six entry appears
    let md2 = "# a\n## b\n### c\n#### d\n##### e\n###### f\n####### g";
    let r2 = parse_outline(md2);
    let f = &r2[0].children[0].children[0].children[0].children[0].children[0];
    assert_eq!(f.title, "f");
    assert_eq!(f.level, 6);
    assert_eq!(f.children.len(), 0);
    // the seven-hash line was read as level six too, so it stands
    // beside "f", not below it
    assert_eq!(r2[0].children[0].children[0].children[0].children[0].children.len(), 2);
    assert_eq!(
        r2[0].children[0].children[0].children[0].children[0].children[1].title,
        "# g"
    );
}

#[test]
fn test_parse_outline_level_two_without_space() {
    // only level one asks for the space; deeper runs open outright
    let result = parse_outline("##NoSpace");
    assert_eq!(result.len(), 0);
    let nested = parse_outline("# root\n##NoSpace");
    assert_eq!(nested[0].children.len(), 1);
    assert_eq!(nested[0].children[0].title, "NoSpace");
}

#[test]
fn test_nest_entries_skips_shallower() {
    let flat = vec![
        (2u8, "first".to_string()),
        (1u8, "root".to_string()),
        (2u8, "child".to_string()),
    ];
    let result = nest_entries(&flat, 1);
    assert_eq!(result.len(), 1);
    assert_eq!(result[0].title, "root");
    assert_eq!(result[0].children.len(), 1);
    assert_eq!(result[0].children[0].title, "child");
}

#[test]
fn test_parse_outline_titles_trimmed() {
    let result = parse_outline("#   spaced out   ");
    assert_eq!(result.len(), 1);
    assert_eq!(result[0].title, "spaced out");
}
