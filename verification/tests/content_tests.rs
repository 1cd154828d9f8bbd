use arre_mind_reader::content::Content;
use arre_mind_reader::text::{words_from_text, Word};

fn content_of(text: &str) -> Content {
    Content::new(String::from("cache-a"), words_from_text(text))
}

#[test]
fn navigation_clamps_to_bounds() {
    let mut c = content_of("a b c d e");
    assert_eq!(c.progress(), (1, 5));

    c.skip_forward(2);
    assert_eq!(c.current_index, 2);
    c.skip_forward(100);
    assert_eq!(c.current_index, 4);
    c.skip_backward(1);
    assert_eq!(c.current_index, 3);
    c.skip_backward(100);
    assert_eq!(c.current_index, 0);
    c.seek(4);
    assert_eq!(c.current_index, 4);
    c.seek(99);
    assert_eq!(c.current_index, 4);
    c.restart();
    assert_eq!(c.current_index, 0);
}

#[test]
fn advance_returns_false_only_at_the_end() {
    let mut c = content_of("a b c");
    assert!(!c.is_at_end());
    assert!(c.advance());
    assert!(c.advance());
    assert!(c.is_at_end());
    assert!(!c.advance());
    // the failed advance changed nothing
    assert_eq!(c.current_index, 2);
    assert!(c.is_at_end());
}

#[test]
fn empty_content_operations_are_no_ops() {
    let mut c = Content::new(String::from("cache-b"), Vec::new());
    assert!(!c.has_words());
    assert!(c.current_word().is_none());
    assert!(c.is_at_end());
    assert!(!c.advance());
    c.skip_forward(3);
    assert_eq!(c.current_index, 0);
    c.skip_backward(3);
    assert_eq!(c.current_index, 0);
    c.seek(7);
    assert_eq!(c.current_index, 0);
    assert_eq!(c.progress(), (1, 0));
}

#[test]
fn current_word_follows_the_cursor() {
    let mut c = content_of("alpha beta");
    assert_eq!(c.current_word().unwrap().text, "alpha");
    assert!(c.advance());
    assert_eq!(c.current_word().unwrap().text, "beta");
}

#[test]
fn loaded_content_clamps_a_stale_cursor() {
    let words = vec![Word::new("a"), Word::new("b")];
    let c = Content::new_from_loaded(String::from("cache-c"), words, 9);
    assert_eq!(c.current_index, 1);

    let empty = Content::new_from_loaded(String::from("cache-d"), Vec::new(), 5);
    assert_eq!(empty.current_index, 0);
}
