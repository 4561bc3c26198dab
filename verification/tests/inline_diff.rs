use gitshot::inline_diff::{annotate_inline_diffs, inline_diff, AnnotatedLine};

#[test]
fn test_inline_diff_simple() {
    let (del, add) = inline_diff("hello_world", "hello_rust");
    assert!(!del.is_empty());
    assert!(!add.is_empty());
    // Common prefix "hello_" (6 chars) must not be in any range
    for r in &del {
        assert!(r.start >= 6);
    }
    for r in &add {
        assert!(r.start >= 6);
    }
}

#[test]
fn test_inline_diff_identical() {
    let (del, add) = inline_diff("same", "same");
    assert!(del.is_empty());
    assert!(add.is_empty());
}

#[test]
fn test_inline_diff_completely_different() {
    let (del, add) = inline_diff("abc", "xyz");
    assert_eq!(del.len(), 1);
    assert_eq!(del[0].start, 0);
    assert_eq!(del[0].end, 3);
    assert_eq!(add.len(), 1);
    assert_eq!(add[0].start, 0);
    assert_eq!(add[0].end, 3);
}

fn pairs(ranges: &[gitshot::inline_diff::InlineRange]) -> Vec<(usize, usize)> {
    ranges.iter().map(|r| (r.start, r.end)).collect()
}

#[test]
fn inline_diff_exact_runs() {
    // The walk keeps "hello_" and the "r" shared by "world" and "rust".
    let (del, add) = inline_diff("hello_world", "hello_rust");
    assert_eq!(pairs(&del), vec![(6, 8), (9, 11)]);
    assert_eq!(pairs(&add), vec![(7, 10)]);
}

#[test]
fn inline_diff_empty_lines() {
    let (del, add) = inline_diff("", "abc");
    assert!(del.is_empty());
    assert_eq!(pairs(&add), vec![(0, 3)]);
    let (del, add) = inline_diff("", "");
    assert!(del.is_empty());
    assert!(add.is_empty());
}

#[test]
fn inline_diff_counts_characters_not_bytes() {
    let (del, add) = inline_diff("é=1", "é=2");
    assert_eq!(pairs(&del), vec![(2, 3)]);
    assert_eq!(pairs(&add), vec![(2, 3)]);
}

fn line(origin: char, text: &str) -> AnnotatedLine {
    (origin, text.to_string(), Vec::new())
}

#[test]
fn annotate_pairs_runs_by_index() {
    let mut lines = vec![
        line(' ', "ctx"),
        line('-', "abc"),
        line('-', "same"),
        line('+', "xyz"),
        line(' ', "end"),
    ];
    annotate_inline_diffs(&mut lines);
    assert!(lines[0].2.is_empty());
    // "abc" is paired with "xyz"; "same" has no partner.
    assert_eq!(pairs(&lines[1].2), vec![(0, 3)]);
    assert!(lines[2].2.is_empty());
    assert_eq!(pairs(&lines[3].2), vec![(0, 3)]);
    assert!(lines[4].2.is_empty());
    assert_eq!(lines[1].1, "abc");
    assert_eq!(lines[3].0, '+');
}

#[test]
fn annotate_leaves_unpaired_added_lines() {
    let mut lines = vec![line('+', "new"), line('-', "old"), line(' ', "x"), line('+', "other")];
    annotate_inline_diffs(&mut lines);
    for l in &lines {
        assert!(l.2.is_empty());
    }
}

#[test]
fn unhighlighted_characters_form_a_longest_common_subsequence() {
    // A longest common subsequence of "hello_world" and "hello_rust" is "hello_r" (7).
    let (old, new) = ("hello_world", "hello_rust");
    let (del, add) = inline_diff(old, new);
    let kept = |s: &str, r: &[gitshot::inline_diff::InlineRange]| -> String {
        s.chars()
            .enumerate()
            .filter(|(p, _)| !r.iter().any(|x| x.start <= *p && *p < x.end))
            .map(|(_, c)| c)
            .collect()
    };
    assert_eq!(kept(old, &del), "hello_r");
    assert_eq!(kept(new, &add), "hello_r");
}

#[test]
fn highlight_totals_are_symmetric() {
    let total = |r: &[gitshot::inline_diff::InlineRange]| -> usize { r.iter().map(|x| x.end - x.start).sum() };
    let (a, b) = ("kitten sitting", "sitting kitten");
    let (d_ab, a_ab) = inline_diff(a, b);
    let (d_ba, a_ba) = inline_diff(b, a);
    assert_eq!(total(&d_ab), total(&a_ba));
    assert_eq!(total(&a_ab), total(&d_ba));
    // "hello_world" / "hello_rust": the longest common subsequence has 7 characters.
    let (d, ad) = inline_diff("hello_world", "hello_rust");
    assert_eq!(total(&d), 11 - 7);
    assert_eq!(total(&ad), 10 - 7);
}
