use std::path::PathBuf;
use notes_engine::paths::{compare_path, compare_text, join_segments, sorted_unique, Order};

fn p(s: &str) -> Vec<String> {
    s.split('/').map(|c| c.to_string()).collect()
}

#[test]
fn text_order() {
    assert_eq!(compare_text("a", "b"), Order::Less);
    assert_eq!(compare_text("b", "a"), Order::Greater);
    assert_eq!(compare_text("ab", "ab"), Order::Equal);
    assert_eq!(compare_text("ab", "abc"), Order::Less);
    assert_eq!(compare_text("", "a"), Order::Less);
    assert_eq!(compare_text("Z", "a"), Order::Less);
    assert_eq!(compare_text("é", "z"), Order::Greater);
}

#[test]
fn path_order_is_by_component() {
    // as a string "a-b" < "a/b", but as paths a/b comes first
    assert_eq!(compare_path(&p("a/b"), &p("a-b")), Order::Less);
    assert_eq!(compare_path(&p("a"), &p("a/b")), Order::Less);
    assert_eq!(compare_path(&p("a/b"), &p("a/b")), Order::Equal);
}

#[test]
fn join_with_slash() {
    assert_eq!(join_segments(&p("notes/sub/a.md")), "notes/sub/a.md");
    assert_eq!(join_segments(&vec![]), "");
    assert_eq!(join_segments(&vec!["".to_string()]), "");
    assert_eq!(join_segments(&vec!["a".to_string(), "".to_string()]), "a/");
}

#[test]
fn sorted_without_repeats() {
    let found = vec![p("b.md"), p("a-b"), p("a/b"), p("b.md"), p("a"), p("a/b")];
    let expected = vec![p("a"), p("a/b"), p("a-b"), p("b.md")];
    assert_eq!(sorted_unique(found), expected);
    assert!(sorted_unique(vec![]).is_empty());
}

#[test]
fn sorted_like_path_buffers() {
    let texts = ["z/y", "z", "a.b/c", "a/c", "a", "ab", "a/c", "q/r/s"];
    let mut bufs: Vec<PathBuf> = texts.iter().map(PathBuf::from).collect();
    bufs.sort();
    bufs.dedup();
    let want: Vec<Vec<String>> = bufs.iter().map(|b| p(b.to_str().unwrap())).collect();
    assert_eq!(sorted_unique(texts.iter().map(|t| p(t)).collect()), want);
}

#[test]
fn listing_ignores_order_and_repeats() {
    let one = vec![p("b.md"), p("a/x.md"), p("a/x.md")];
    let two = vec![p("a/x.md"), p("b.md")];
    assert_eq!(sorted_unique(one), sorted_unique(two));
}
