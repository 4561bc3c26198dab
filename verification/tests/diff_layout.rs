use gitshot::command::diff::{
    count_rows, inline_range_parts, line_paint, line_text, rows, DiffRow, InlineTone, LinePaint,
};
use gitshot::config::style::{DiffStyle, Rgba8};
use gitshot::model::diff::{DiffLine, DiffSection, LineKind};

fn line(kind: LineKind, content: &str) -> DiffLine {
    DiffLine { kind, content: content.to_string(), inline_ranges: Vec::new() }
}

fn section(title: &str, lines: Vec<DiffLine>) -> DiffSection {
    DiffSection { title: title.to_string(), lines }
}

#[test]
fn rows_of_two_sections() {
    let sections = vec![
        section("a.rs", vec![line(LineKind::Hunk, "@@"), line(LineKind::Added, "x")]),
        section("b.rs", vec![line(LineKind::Deleted, "y")]),
    ];
    // (2 + 2) + 1 + (2 + 1)
    assert_eq!(count_rows(&sections), 8);
    assert_eq!(
        rows(&sections),
        vec![
            DiffRow::Title(0),
            DiffRow::Blank,
            DiffRow::Line(0, 0),
            DiffRow::Line(0, 1),
            DiffRow::Gap,
            DiffRow::Title(1),
            DiffRow::Blank,
            DiffRow::Line(1, 0),
        ]
    );
    assert_eq!(rows(&sections).len(), count_rows(&sections));
}

#[test]
fn rows_of_nothing() {
    assert_eq!(count_rows(&[]), 0);
    assert!(rows(&[]).is_empty());
    let one = vec![section("empty", vec![])];
    assert_eq!(count_rows(&one), 2);
    assert_eq!(rows(&one), vec![DiffRow::Title(0), DiffRow::Blank]);
}

#[test]
fn paints_by_kind() {
    let s = DiffStyle::dark();
    assert_eq!(
        line_paint(LineKind::Separator, &s),
        LinePaint { background: Some(Rgba8 { r: 48, g: 54, b: 61, a: 255 }), inline_tone: None, draws_text: false }
    );
    assert_eq!(
        line_paint(LineKind::Added, &s),
        LinePaint { background: Some(s.added_bg), inline_tone: Some(InlineTone::Added), draws_text: true }
    );
    assert_eq!(
        line_paint(LineKind::Deleted, &s),
        LinePaint { background: Some(s.deleted_bg), inline_tone: Some(InlineTone::Deleted), draws_text: true }
    );
    for k in [LineKind::Context, LineKind::Hunk, LineKind::FileHeader, LineKind::Other] {
        assert_eq!(line_paint(k, &s), LinePaint { background: None, inline_tone: None, draws_text: true });
    }
}

#[test]
fn text_is_prefix_and_content() {
    assert_eq!(line_text(&line(LineKind::Added, "foo")), "+foo");
    assert_eq!(line_text(&line(LineKind::Deleted, "bar")), "-bar");
    assert_eq!(line_text(&line(LineKind::Context, "baz")), " baz");
    assert_eq!(line_text(&line(LineKind::Hunk, "@@ -1 +1 @@")), "@@ -1 +1 @@");
    assert_eq!(line_text(&line(LineKind::Separator, "")), "");
}

#[test]
fn inline_range_parts_split_at_bytes() {
    let (before, span) = inline_range_parts("héllo = 22", 9, 11);
    assert_eq!(before, "héllo = ");
    assert_eq!(span, "22");
    let (before, span) = inline_range_parts("héllo", 1, 3);
    assert_eq!(before, "h");
    assert_eq!(span, "é");
    let (before, span) = inline_range_parts("abc", 0, 0);
    assert_eq!(before, "");
    assert_eq!(span, "");
    let (before, span) = inline_range_parts("abc", 3, 3);
    assert_eq!(before, "abc");
    assert_eq!(span, "");
}
