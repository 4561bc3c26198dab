use gitshot::command::diff::emphasizer::emphasis;

fn pairs(r: &[std::ops::Range<usize>]) -> Vec<(usize, usize)> {
    r.iter().map(|x| (x.start, x.end)).collect()
}

fn check(old: &str, new: &str, del: &[(usize, usize)], add: &[(usize, usize)]) {
    let (d, a) = emphasis(old, new);
    assert_eq!(pairs(&d), del.to_vec());
    assert_eq!(pairs(&a), add.to_vec());
}

#[test]
fn emphasis_marks_changed_token() {
    check("let x = 1;", "let x = 2;", &[(8, 9)], &[(8, 9)]);
    check("foo(a, b)", "foo(a, c)", &[(7, 8)], &[(7, 8)]);
}

#[test]
fn emphasis_of_identical_lines_is_empty() {
    check("same line", "same line", &[], &[]);
}

#[test]
fn emphasis_skips_dissimilar_lines() {
    // 2 matched of 20 non-whitespace tokens: below the threshold.
    check("a b c d e f g h i j", "a x y z w v u t s r", &[], &[]);
    check("x", "y", &[], &[]);
    // 4 matched of 20.
    check("a b c d e f g h i j", "a b x y z w v u t s", &[], &[]);
}

#[test]
fn emphasis_at_the_threshold_highlights() {
    // 6 matched of 20 non-whitespace tokens: exactly the threshold.
    check(
        "a b c d e f g h i j",
        "a b c x y z w v u t",
        &[(6, 7), (8, 9), (10, 11), (12, 13), (14, 15), (16, 17), (18, 19)],
        &[(6, 7), (8, 9), (10, 11), (12, 13), (14, 15), (16, 17), (18, 19)],
    );
}

#[test]
fn emphasis_whitespace_only_lines() {
    check("  ", "  ", &[], &[]);
}

#[test]
fn emphasis_ignores_trailing_newlines() {
    check("fn main() {}\n", "fn main() { run(); }\n", &[], &[(12, 18)]);
}

#[test]
fn emphasis_uses_character_offsets() {
    check("héllo = 1", "héllo = 22", &[(8, 9)], &[(8, 10)]);
}

#[test]
fn emphasis_skips_long_lines() {
    let long = "a".repeat(2001);
    check(&long, "b", &[], &[]);
    let ok = "a ".repeat(1000);
    let (d, a) = emphasis(&ok, &ok);
    assert!(d.is_empty() && a.is_empty());
}

#[test]
fn emphasis_ranges_are_in_order_inside_the_line() {
    let old = "fn f(a: u32, b: u32) -> u32 { a + b }";
    let new = "fn f(a: u64, c: u64) -> u64 { a * c }";
    let (d, a) = emphasis(old, new);
    for (ranges, line) in [(&d, old), (&a, new)] {
        assert!(!ranges.is_empty());
        let n = line.chars().count();
        for r in ranges.iter() {
            assert!(r.start < r.end && r.end <= n);
        }
        for w in ranges.windows(2) {
            assert!(w[0].end <= w[1].start);
        }
    }
}
