use gitshot::config::style::DiffStyle;
use gitshot::model::diff::{inline_diff_ranges, tokenize, DiffLine, LineKind, PatchLine};

fn patch(origin: char, content: &[u8]) -> PatchLine {
    PatchLine { origin, content: content.to_vec() }
}

fn ranges(line: &DiffLine) -> Vec<(usize, usize)> {
    line.inline_ranges.iter().map(|r| (r.start, r.end)).collect()
}

#[test]
fn from_patch_classifies_trims_and_separates_files() {
    let lines = DiffLine::from_patch(&[
        patch('F', b"diff --git a/x b/x\n"),
        patch('F', b"index 1..2\n"),
        patch('H', b"@@ -1 +1 @@\n"),
        patch('-', b"let x = 1;\n"),
        patch('+', b"let x = 2;\n"),
        patch(' ', b"ctx\n"),
        patch('F', b"diff --git a/y b/y\n"),
        patch('+', b"h\xffi\n"),
    ]);
    let kinds: Vec<LineKind> = lines.iter().map(|l| l.kind).collect();
    assert_eq!(
        kinds,
        vec![
            LineKind::FileHeader,
            LineKind::Other,
            LineKind::Hunk,
            LineKind::Deleted,
            LineKind::Added,
            LineKind::Context,
            LineKind::Separator,
            LineKind::FileHeader,
            LineKind::Added,
        ]
    );
    assert_eq!(lines[0].content, "diff --git a/x b/x");
    assert_eq!(lines[3].content, "let x = 1;");
    assert_eq!(lines[6].content, "");
    // Invalid UTF-8 is replaced, not kept as it came.
    assert_eq!(lines[8].content, "h\u{FFFD}i");
    assert_eq!(ranges(&lines[3]), vec![(8, 9)]);
    assert_eq!(ranges(&lines[4]), vec![(8, 9)]);
    for p in [0, 1, 2, 5, 6, 7, 8] {
        assert!(lines[p].inline_ranges.is_empty());
    }
}

#[test]
fn from_patch_first_file_has_no_separator() {
    let lines = DiffLine::from_patch(&[patch('F', b"diff --git a/x b/x\n")]);
    assert_eq!(lines.len(), 1);
    assert_eq!(lines[0].kind, LineKind::FileHeader);
}

#[test]
fn from_patch_empty() {
    assert!(DiffLine::from_patch(&[]).is_empty());
}

#[test]
fn from_patch_ranges_are_byte_offsets() {
    let lines = DiffLine::from_patch(&[
        patch('-', "héllo = 1".as_bytes()),
        patch('+', "héllo = 22".as_bytes()),
    ]);
    assert_eq!(ranges(&lines[0]), vec![(9, 10)]);
    assert_eq!(ranges(&lines[1]), vec![(9, 11)]);
    assert_eq!(&lines[1].content[9..11], "22");
}

#[test]
fn from_patch_pairs_runs_index_by_index() {
    let lines = DiffLine::from_patch(&[
        patch('-', b"a = 1\n"),
        patch('-', b"b = 1\n"),
        patch('+', b"a = 2\n"),
        patch(' ', b"c\n"),
        patch('+', b"b = 2\n"),
    ]);
    assert_eq!(ranges(&lines[0]), vec![(4, 5)]);
    assert!(lines[1].inline_ranges.is_empty());
    assert_eq!(ranges(&lines[2]), vec![(4, 5)]);
    assert!(lines[4].inline_ranges.is_empty());
}

#[test]
fn from_patch_identical_pair_is_unhighlighted() {
    let lines = DiffLine::from_patch(&[patch('-', b"same\n"), patch('+', b"same\n")]);
    assert!(lines[0].inline_ranges.is_empty());
    assert!(lines[1].inline_ranges.is_empty());
}

#[test]
fn other_file_lines_are_not_headers() {
    let lines = DiffLine::from_patch(&[patch('F', b"diff --gi"), patch('X', b"diff --git")]);
    assert_eq!(lines[0].kind, LineKind::Other);
    assert_eq!(lines[1].kind, LineKind::Other);
}

#[test]
fn prefixes_and_colors() {
    assert_eq!(LineKind::Added.prefix(), "+");
    assert_eq!(LineKind::Deleted.prefix(), "-");
    assert_eq!(LineKind::Context.prefix(), " ");
    assert_eq!(LineKind::Hunk.prefix(), "");
    assert_eq!(LineKind::Separator.prefix(), "");
    let s = DiffStyle::dark();
    assert_eq!(LineKind::Added.color(&s), (63, 185, 80));
    assert_eq!(LineKind::Deleted.color(&s), (248, 81, 73));
    assert_eq!(LineKind::Hunk.color(&s), (187, 128, 230));
    assert_eq!(LineKind::FileHeader.color(&s), (88, 166, 255));
    assert_eq!(LineKind::Other.color(&s), (201, 209, 217));
    let l = DiffStyle::light();
    assert_eq!(LineKind::Added.color(&l), (26, 127, 55));
}

#[test]
fn from_patch_ranges_cut_cleanly() {
    let lines = DiffLine::from_patch(&[
        patch('-', "naïve(x, «y»)\n".as_bytes()),
        patch('-', "ünïcode = 1\n".as_bytes()),
        patch('+', "naïve(z, «y», w)\n".as_bytes()),
        patch('+', "ünïcode = 2\n".as_bytes()),
    ]);
    let mut seen = 0;
    for l in &lines {
        let mut last = 0;
        for r in &l.inline_ranges {
            assert!(last <= r.start && r.start < r.end && r.end <= l.content.len());
            assert!(l.content.is_char_boundary(r.start) && l.content.is_char_boundary(r.end));
            last = r.end;
            seen += 1;
        }
    }
    assert!(seen > 0);
}

#[test]
fn tokenize_uses_byte_offsets() {
    let toks = tokenize("é = 1");
    let parts: Vec<(usize, usize, String, bool)> = toks
        .into_iter()
        .map(|t| (t.start, t.end, t.text.into_iter().collect::<String>(), t.is_whitespace))
        .collect();
    assert_eq!(
        parts,
        vec![
            (0, 2, "é".to_string(), false),
            (2, 3, " ".to_string(), true),
            (3, 4, "=".to_string(), false),
            (4, 5, " ".to_string(), true),
            (5, 6, "1".to_string(), false),
        ]
    );
}

#[test]
fn inline_diff_ranges_in_bytes() {
    let (d, a) = inline_diff_ranges("é = 1", "é = 2");
    assert_eq!(d, vec![5..6]);
    assert_eq!(a, vec![5..6]);
    // ASCII lines: byte offsets are character offsets.
    let (d, a) = inline_diff_ranges("let x = 1;\n", "let x = 2;\n");
    assert_eq!(d, vec![8..9]);
    assert_eq!(a, vec![8..9]);
}
