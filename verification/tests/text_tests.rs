use arre_mind_reader::text::{calculate_orp_index, orp_split, words_from_text, Word};

#[test]
fn display_duration_uses_max_wins_precedence() {
    let wpm = 600;

    assert_eq!(Word::new("abcdefghijk").display_duration_ms(wpm), 130);
    assert_eq!(Word::new("abcdefghijk,").display_duration_ms(wpm), 200);
    assert_eq!(Word::new("abcdefghijk.").display_duration_ms(wpm), 300);

    let mut paragraph_end_word = Word::new("abcdefghijk.");
    paragraph_end_word.is_paragraph_end = true;
    assert_eq!(paragraph_end_word.display_duration_ms(wpm), 400);
}

#[test]
fn words_from_text_marks_last_word_before_blank_line() {
    let words = words_from_text("alpha beta\n\n gamma\n\n\n delta");

    let texts: Vec<&str> = words.iter().map(|word| word.text.as_str()).collect();
    let paragraph_end_flags: Vec<bool> = words.iter().map(|word| word.is_paragraph_end).collect();

    assert_eq!(texts, vec!["alpha", "beta", "gamma", "delta"]);
    assert_eq!(paragraph_end_flags, vec![false, true, true, false]);
}

#[test]
fn words_from_text_handles_leading_and_trailing_blank_lines() {
    let words = words_from_text("\n\nalpha\n\n");

    assert_eq!(words.len(), 1);
    assert_eq!(words[0].text, "alpha");
    assert!(words[0].is_paragraph_end);
}

#[test]
fn words_from_text_splits_on_whitespace_runs() {
    let words = words_from_text("one\ttwo   three\r\nfour");
    let texts: Vec<&str> = words.iter().map(|word| word.text.as_str()).collect();
    assert_eq!(texts, vec!["one", "two", "three", "four"]);
    assert!(words.iter().all(|word| !word.is_paragraph_end));
}

#[test]
fn words_from_text_on_blank_input_yields_nothing() {
    assert!(words_from_text("").is_empty());
    assert!(words_from_text("   \n\t\n  ").is_empty());
}

#[test]
fn orp_index_matches_bucket_boundaries() {
    let cases: &[(&str, usize)] = &[
        ("", 0),
        ("a", 0),
        ("ab", 1),
        ("abcde", 1),
        ("abcdef", 2),
        ("abcdefghi", 2),
        ("abcdefghij", 3),
        ("abcdefghijklm", 3),
        ("abcdefghijklmn", 4),
        ("abcdefghijklmnopqrstuvwxyz", 4),
    ];
    for (text, expected) in cases {
        assert_eq!(Word::new(text).orp_index(), *expected, "word {:?}", text);
        assert_eq!(calculate_orp_index(text), *expected, "word {:?}", text);
    }
}

#[test]
fn orp_index_stays_inside_the_word() {
    for len in 1..30usize {
        let text: String = "x".repeat(len);
        assert!(Word::new(&text).orp_index() < len);
    }
    assert_eq!(Word::new("").orp_index(), 0);
}

#[test]
fn display_duration_at_other_rates() {
    // base at 100 wpm is 600 ms per word
    assert_eq!(Word::new("plain").display_duration_ms(100), 600);
    assert_eq!(Word::new("pause,").display_duration_ms(100), 1200);
    assert_eq!(Word::new("stop!").display_duration_ms(100), 1800);
    assert_eq!(Word::new("what?").display_duration_ms(100), 1800);
    assert_eq!(Word::new("clause;").display_duration_ms(100), 1200);
    let mut par = Word::new("end");
    par.is_paragraph_end = true;
    assert_eq!(par.display_duration_ms(100), 2400);
    // floor division: 60000 / 7 at wpm 700
    assert_eq!(Word::new("word").display_duration_ms(700), 85);
}

#[test]
fn orp_split_cuts_around_the_fixation_character() {
    assert_eq!(
        orp_split("reading"),
        (String::from("re"), String::from("a"), String::from("ding"))
    );
    assert_eq!(
        orp_split("ab"),
        (String::from("a"), String::from("b"), String::from(""))
    );
    assert_eq!(
        orp_split("x"),
        (String::from(""), String::from("x"), String::from(""))
    );
    assert_eq!(
        orp_split(""),
        (String::from(""), String::from(""), String::from(""))
    );
}

#[test]
fn word_new_has_no_paragraph_flag() {
    let w = Word::new("hello");
    assert_eq!(w.text, "hello");
    assert!(!w.is_paragraph_end);
}
