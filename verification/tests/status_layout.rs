use gitshot::command::status::{build_sections, row_count, rows};
use gitshot::model::status::{StatusEntry, StatusKind};
use gitshot::renderer::status::StatusRow;

fn entry(path: &str, staged: StatusKind, unstaged: StatusKind) -> StatusEntry {
    StatusEntry { path: path.to_string(), staged, unstaged }
}

#[test]
fn sections_split_staged_and_unstaged() {
    let entries = vec![
        entry("a", StatusKind::Added, StatusKind::Modified),
        entry("b", StatusKind::Unchanged, StatusKind::Added),
        entry("c", StatusKind::Deleted, StatusKind::Unchanged),
    ];
    let sections = build_sections(&entries);
    assert_eq!(sections[0].title, "Staged changes");
    assert_eq!(sections[1].title, "Unstaged changes");
    let staged: Vec<(StatusKind, &str)> = sections[0].entries.iter().map(|e| (e.kind, e.path)).collect();
    let unstaged: Vec<(StatusKind, &str)> = sections[1].entries.iter().map(|e| (e.kind, e.path)).collect();
    assert_eq!(staged, vec![(StatusKind::Added, "a"), (StatusKind::Deleted, "c")]);
    assert_eq!(unstaged, vec![(StatusKind::Modified, "a"), (StatusKind::Added, "b")]);
    // Two sections of two entries: 2 + 2, 2 + 2, and one blank row between them.
    assert_eq!(row_count(&sections), 9);
    assert_eq!(
        rows(&sections),
        vec![
            StatusRow::Title(0),
            StatusRow::Blank,
            StatusRow::Entry(0, 0),
            StatusRow::Entry(0, 1),
            StatusRow::Gap,
            StatusRow::Title(1),
            StatusRow::Blank,
            StatusRow::Entry(1, 0),
            StatusRow::Entry(1, 1),
        ]
    );
    assert_eq!(rows(&sections).len(), row_count(&sections));
}

#[test]
fn empty_section_is_left_out() {
    let entries = vec![entry("b", StatusKind::Unchanged, StatusKind::Added)];
    let sections = build_sections(&entries);
    assert!(sections[0].entries.is_empty());
    assert_eq!(row_count(&sections), 3);
    assert_eq!(rows(&sections), vec![StatusRow::Title(1), StatusRow::Blank, StatusRow::Entry(1, 0)]);
}

#[test]
fn no_entries_no_rows() {
    let sections = build_sections(&[]);
    assert_eq!(row_count(&sections), 0);
    assert!(rows(&sections).is_empty());
}
