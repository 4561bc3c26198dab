use git2::Status;
use gitshot::config::style::{Rgba8, StatusStyle};
use gitshot::model::status::{
    StatusEntry, StatusKind, CONFLICTED, INDEX_DELETED, INDEX_MODIFIED, INDEX_NEW, INDEX_RENAMED,
    INDEX_TYPECHANGE, WT_DELETED, WT_MODIFIED, WT_NEW, WT_RENAMED, WT_TYPECHANGE,
};

#[test]
fn status_bits_are_those_of_git2() {
    assert_eq!(INDEX_NEW, Status::INDEX_NEW.bits());
    assert_eq!(INDEX_MODIFIED, Status::INDEX_MODIFIED.bits());
    assert_eq!(INDEX_DELETED, Status::INDEX_DELETED.bits());
    assert_eq!(INDEX_RENAMED, Status::INDEX_RENAMED.bits());
    assert_eq!(INDEX_TYPECHANGE, Status::INDEX_TYPECHANGE.bits());
    assert_eq!(WT_NEW, Status::WT_NEW.bits());
    assert_eq!(WT_MODIFIED, Status::WT_MODIFIED.bits());
    assert_eq!(WT_DELETED, Status::WT_DELETED.bits());
    assert_eq!(WT_TYPECHANGE, Status::WT_TYPECHANGE.bits());
    assert_eq!(WT_RENAMED, Status::WT_RENAMED.bits());
    assert_eq!(CONFLICTED, Status::CONFLICTED.bits());
}

#[test]
fn from_status_classifies_both_sides() {
    let e = StatusEntry::from_status(Some("src/a.rs"), INDEX_NEW | WT_MODIFIED);
    assert_eq!(e.path, "src/a.rs");
    assert_eq!(e.staged, StatusKind::Added);
    assert_eq!(e.unstaged, StatusKind::Modified);
}

#[test]
fn from_status_first_flag_wins() {
    let e = StatusEntry::from_status(Some("b"), INDEX_MODIFIED | INDEX_DELETED | WT_DELETED | CONFLICTED);
    assert_eq!(e.staged, StatusKind::Modified);
    assert_eq!(e.unstaged, StatusKind::Deleted);
    let e = StatusEntry::from_status(Some("c"), CONFLICTED);
    assert_eq!(e.staged, StatusKind::Unchanged);
    assert_eq!(e.unstaged, StatusKind::Conflict);
    let e = StatusEntry::from_status(Some("d"), INDEX_RENAMED | WT_TYPECHANGE);
    assert_eq!(e.staged, StatusKind::Renamed);
    assert_eq!(e.unstaged, StatusKind::TypeChange);
}

#[test]
fn from_status_without_flags_or_path() {
    let e = StatusEntry::from_status(None, 0);
    assert_eq!(e.path, "???");
    assert_eq!(e.staged, StatusKind::Unchanged);
    assert_eq!(e.unstaged, StatusKind::Unchanged);
    // The ignored flag (bit 14) is in neither table.
    let e = StatusEntry::from_status(Some("x"), 1 << 14);
    assert_eq!(e.staged, StatusKind::Unchanged);
    assert_eq!(e.unstaged, StatusKind::Unchanged);
}

#[test]
fn labels_and_colors() {
    assert_eq!(StatusKind::Unchanged.label(), "  ");
    assert_eq!(StatusKind::Added.label(), "A ");
    assert_eq!(StatusKind::Modified.label(), "M ");
    assert_eq!(StatusKind::Deleted.label(), "D ");
    assert_eq!(StatusKind::Renamed.label(), "R ");
    assert_eq!(StatusKind::TypeChange.label(), "T ");
    assert_eq!(StatusKind::Conflict.label(), "U ");
    let s = StatusStyle::dark();
    assert_eq!(StatusKind::Unchanged.fg_color(&s), s.path_fg);
    assert_eq!(StatusKind::Modified.fg_color(&s), (210, 153, 34));
    assert_eq!(StatusKind::Renamed.fg_color(&s), (88, 166, 255));
    assert_eq!(
        StatusKind::Added.bg_color(&s),
        Some(Rgba8 { r: 46, g: 160, b: 67, a: 25 })
    );
    assert_eq!(StatusKind::Conflict.bg_color(&s), Some(s.conflict_bg));
    assert_eq!(StatusKind::Renamed.bg_color(&s), None);
    assert_eq!(StatusKind::Unchanged.bg_color(&s), None);
}
