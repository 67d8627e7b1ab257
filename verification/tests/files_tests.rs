use text_tool::files::OpenFile;

#[test]
fn app_test_open_file_is_markdown() {
    let f = OpenFile::new("test.md".to_string(), String::new());
    assert!(f.is_markdown());
    let f2 = OpenFile::new("test.json".to_string(), String::new());
    assert!(!f2.is_markdown());
}

#[test]
fn app_test_open_file_title_modified() {
    let mut f = OpenFile::new("test.md".to_string(), String::new());
    assert_eq!(f.title(), "test.md");
    f.modified = true;
    assert_eq!(f.title(), "● test.md");
}

#[test]
fn mod_test_open_file_is_markdown() {
    let f = OpenFile::new("test.md".to_string(), String::new());
    assert!(f.is_markdown());
    let f2 = OpenFile::new("test.json".to_string(), String::new());
    assert!(!f2.is_markdown());
}

#[test]
fn mod_test_open_file_title_modified() {
    let mut f = OpenFile::new("test.md".to_string(), String::new());
    assert_eq!(f.title(), "test.md");
    f.modified = true;
    assert_eq!(f.title(), "● test.md");
}

#[test]
fn test_open_file_nested_path_title() {
    let f = OpenFile::new("Content/drafts/章节.markdown".to_string(), String::new());
    assert_eq!(f.title(), "章节.markdown");
    assert!(f.is_markdown());
    assert!(!f.is_json());
}

#[test]
fn test_open_file_is_json() {
    let f = OpenFile::new("Design/人物配置.json".to_string(), String::new());
    assert!(f.is_json());
    assert!(!f.is_markdown());
}

#[test]
fn test_open_file_untitled_and_dotfile() {
    let f = OpenFile::new(String::new(), String::new());
    assert_eq!(f.title(), "untitled");
    // a name that starts with its only dot has no extension
    let g = OpenFile::new(".md".to_string(), String::new());
    assert!(!g.is_markdown());
}
