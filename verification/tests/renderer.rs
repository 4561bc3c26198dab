use gitshot::config::style::Rgba8;
use gitshot::renderer::diff::{format_line, line_background, line_color, DiffLine};
use gitshot::renderer::status::{build_sections, plan_rows, row_count, rows, StatusEntry, StatusKind, StatusRow};
use gitshot::renderer::temp_png_path;

fn line(origin: char, content: &str) -> DiffLine {
    DiffLine { origin, content: content.to_string() }
}

#[test]
fn format_line_prefixes_changes_and_trims() {
    assert_eq!(format_line(&line('+', "abc\n\n")), "+abc");
    assert_eq!(format_line(&line('-', "x\n")), "-x");
    assert_eq!(format_line(&line(' ', "ctx")), " ctx");
    assert_eq!(format_line(&line('F', "diff --git a b\n")), "diff --git a b");
    assert_eq!(format_line(&line('H', "@@ -1 +1 @@\n")), "@@ -1 +1 @@");
}

#[test]
fn line_colors() {
    let l = line('F', "diff --git a b\n");
    assert_eq!(line_color(&l, &format_line(&l)), (88, 166, 255));
    let l = line('F', "index 12..34\n");
    assert_eq!(line_color(&l, &format_line(&l)), (201, 209, 217));
    assert_eq!(line_color(&line('+', "a"), "+a"), (63, 185, 80));
    assert_eq!(line_color(&line('-', "a"), "-a"), (248, 81, 73));
    assert_eq!(line_color(&line('H', "@@"), "@@"), (187, 128, 230));
    assert_eq!(line_color(&line(' ', "a"), " a"), (201, 209, 217));
    assert_eq!(line_color(&line('F', "diff"), "diff"), (201, 209, 217));
}

#[test]
fn line_backgrounds() {
    assert_eq!(line_background(&line('+', "a")), Some(Rgba8 { r: 46, g: 160, b: 67, a: 30 }));
    assert_eq!(line_background(&line('-', "a")), Some(Rgba8 { r: 248, g: 81, b: 73, a: 30 }));
    assert_eq!(line_background(&line(' ', "a")), None);
    assert_eq!(line_background(&line('H', "a")), None);
}

#[test]
fn status_kind_presentation() {
    assert_eq!(StatusKind::Unchanged.label(), "  ");
    assert_eq!(StatusKind::Conflict.label(), "U ");
    assert_eq!(StatusKind::Modified.color(), (210, 153, 34));
    assert_eq!(StatusKind::TypeChange.color(), (187, 128, 230));
    assert_eq!(StatusKind::Deleted.bg_color(), Some(Rgba8 { r: 248, g: 81, b: 73, a: 25 }));
    assert_eq!(StatusKind::Conflict.bg_color(), Some(Rgba8 { r: 248, g: 81, b: 73, a: 25 }));
    assert_eq!(StatusKind::Renamed.bg_color(), None);
}

#[test]
fn status_sections_and_rows() {
    let entries = vec![
        StatusEntry { path: "a".to_string(), staged: StatusKind::Added, unstaged: StatusKind::Unchanged },
        StatusEntry { path: "b".to_string(), staged: StatusKind::Unchanged, unstaged: StatusKind::Deleted },
    ];
    let sections = build_sections(&entries);
    assert_eq!(sections[0].title, "Staged changes");
    assert_eq!(sections[0].entries.len(), 1);
    assert_eq!(sections[0].entries[0].0, StatusKind::Added);
    assert_eq!(sections[0].entries[0].1, "a");
    assert_eq!(sections[1].entries[0].1, "b");
    assert_eq!(row_count(&sections), 7);
    assert_eq!(rows(&sections).len(), 7);
    assert_eq!(rows(&sections)[3], StatusRow::Gap);
}

#[test]
fn plan_rows_counts() {
    assert_eq!(plan_rows(0, 0), vec![]);
    assert_eq!(plan_rows(1, 0), vec![StatusRow::Title(0), StatusRow::Blank, StatusRow::Entry(0, 0)]);
    assert_eq!(plan_rows(2, 3).len(), 2 + 2 + 2 + 3 + 1);
}

#[test]
fn temp_paths() {
    assert_eq!(temp_png_path("/tmp", 1234), "/tmp/gitshot_1234.png");
    assert_eq!(temp_png_path("/tmp/", 0), "/tmp/gitshot_0.png");
    assert_eq!(temp_png_path("/var/folders/xy/T/", 1700000000000), "/var/folders/xy/T/gitshot_1700000000000.png");
    assert_eq!(temp_png_path("", 7), "gitshot_7.png");
    assert_eq!(
        temp_png_path("/tmp", u128::MAX),
        "/tmp/gitshot_340282366920938463463374607431768211455.png"
    );
}

#[test]
fn temp_path_joins_like_a_path() {
    let dir = std::path::Path::new("/some/tmp");
    let p = std::path::PathBuf::from(temp_png_path(&dir.to_string_lossy(), 42));
    assert_eq!(p, dir.join("gitshot_42.png"));
}
