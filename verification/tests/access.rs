use notes_engine::access::{Access, AccessError};

fn lines(v: &[&str]) -> Vec<String> {
    v.iter().map(|s| s.to_string()).collect()
}

#[test]
fn rules_match_by_glob() {
    let a = Access::from_lines(lines(&["*.md", "public/**/*"])).expect("valid");
    assert!(a.matches("index.md"));
    assert!(a.matches("notes/deep/x.md"));
    assert!(a.matches("public/a/b.png"));
    assert!(!a.matches("private/a.png"));
    assert!(!a.matches("notes.txt"));
    let none = Access::from_lines(vec![]).unwrap();
    assert!(!none.matches("index.md"));
}

#[test]
fn an_invalid_line_is_refused() {
    assert_eq!(Access::from_lines(lines(&["*.md", "[", "a"])).err(), Some(AccessError::InvalidPattern(1)));
    assert_eq!(Access::from_lines(lines(&["***"])).err(), Some(AccessError::InvalidPattern(0)));
}

#[test]
fn request_segments_are_joined_before_matching() {
    let a = Access::from_lines(lines(&["notes/*.md"])).unwrap();
    assert!(a.allows(&lines(&["notes", "a.md"])));
    assert!(!a.allows(&lines(&["other", "a.md"])));
}

#[test]
fn config_file_name() {
    assert_eq!(Access::config_name(Some("bob")), "bob");
    assert_eq!(Access::config_name(None), "default");
}

#[test]
fn search_patterns_escape_the_base() {
    let a = Access::from_lines(lines(&["*.md", "x/?"])).unwrap();
    assert_eq!(
        a.search_patterns("/srv/n[1]*?"),
        vec!["/srv/n[[]1[]][*][?]/*.md".to_string(), "/srv/n[[]1[]][*][?]/x/?".to_string()]
    );
}
