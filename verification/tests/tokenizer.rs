use gitshot::command::diff::tokenizer::{is_identifier_char, is_plain_whitespace, tokens};

fn parts(s: &str) -> Vec<(usize, usize, String, bool)> {
    tokens(s).into_iter().map(|t| (t.start, t.end, t.text, t.is_whitespace)).collect()
}

#[test]
fn tokens_split_identifiers_whitespace_and_punctuation() {
    assert_eq!(
        parts("foo(a_b,  c)\t1"),
        vec![
            (0, 3, "foo".to_string(), false),
            (3, 4, "(".to_string(), false),
            (4, 7, "a_b".to_string(), false),
            (7, 8, ",".to_string(), false),
            (8, 10, "  ".to_string(), true),
            (10, 11, "c".to_string(), false),
            (11, 12, ")".to_string(), false),
            (12, 13, "\t".to_string(), true),
            (13, 14, "1".to_string(), false),
        ]
    );
}

#[test]
fn tokens_of_empty_line() {
    assert!(tokens("").is_empty());
}

#[test]
fn tokens_use_character_offsets() {
    // Non-ASCII letters are not identifier characters: each is a token of its own.
    assert_eq!(
        parts("é1"),
        vec![(0, 1, "é".to_string(), false), (1, 2, "1".to_string(), false)]
    );
}

#[test]
fn tokens_rejoin_to_the_line() {
    let line = "let x = vec![1, 2];  // done";
    let joined: String = tokens(line).into_iter().map(|t| t.text).collect();
    assert_eq!(joined, line);
}

#[test]
fn character_classes() {
    assert!(is_identifier_char('a'));
    assert!(is_identifier_char('Z'));
    assert!(is_identifier_char('7'));
    assert!(is_identifier_char('_'));
    assert!(!is_identifier_char('-'));
    assert!(!is_identifier_char('é'));
    assert!(is_plain_whitespace(' '));
    assert!(is_plain_whitespace('\t'));
    assert!(!is_plain_whitespace('\n'));
}

#[test]
fn tokens_of_a_joined_line() {
    let (s, t) = ("foo(", "bar, 1)");
    let joined = format!("{s}{t}");
    let whole: Vec<(usize, usize, String, bool)> =
        tokens(&joined).into_iter().map(|x| (x.start, x.end, x.text, x.is_whitespace)).collect();
    let n = s.chars().count();
    let mut parts: Vec<(usize, usize, String, bool)> =
        tokens(s).into_iter().map(|x| (x.start, x.end, x.text, x.is_whitespace)).collect();
    parts.extend(tokens(t).into_iter().map(|x| (x.start + n, x.end + n, x.text, x.is_whitespace)));
    assert_eq!(whole, parts);
}
