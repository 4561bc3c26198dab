use gitshot::command::{run, Cli, Commands, Task};
use gitshot::config::style::{DiffStyle, Palette, Rgba8, StatusStyle};
use gitshot::config::ColorScheme;

#[test]
fn default_scheme_is_dark() {
    assert_eq!(ColorScheme::default(), ColorScheme::Dark);
}

#[test]
fn palettes() {
    let dark = Palette::for_scheme(ColorScheme::Dark);
    assert_eq!(dark.canvas_bg, Rgba8 { r: 24, g: 24, b: 27, a: 255 });
    assert_eq!(dark.diff_style.added_fg, (63, 185, 80));
    assert_eq!(dark.status_style.title_fg, (88, 166, 255));
    let light = Palette::for_scheme(ColorScheme::Light);
    assert_eq!(light.canvas_bg, Rgba8 { r: 255, g: 255, b: 255, a: 255 });
    assert_eq!(light.diff_style.added_fg, (26, 127, 55));
    assert_eq!(light.diff_style.separator_bg, Rgba8 { r: 216, g: 222, b: 228, a: 255 });
    assert_eq!(light.status_style.deleted_bg, Rgba8 { r: 248, g: 81, b: 73, a: 18 });
}

#[test]
fn default_styles_are_dark() {
    let d = DiffStyle::default();
    assert_eq!(d.default_fg, DiffStyle::dark().default_fg);
    assert_eq!(d.added_bg, Rgba8 { r: 46, g: 160, b: 67, a: 30 });
    let s = StatusStyle::default();
    assert_eq!(s.path_fg, (201, 209, 217));
}

#[test]
fn run_dispatches_subcommands() {
    let task = run(Cli { command: Commands::Diff { paths: vec!["src".to_string()], whitespace: true } });
    match task {
        Task::Diff { paths, whitespace } => {
            assert_eq!(paths, vec!["src".to_string()]);
            assert!(whitespace);
        }
        Task::Status { .. } => panic!("diff expected"),
    }
    let task = run(Cli { command: Commands::Status { paths: vec![".".to_string()] } });
    match task {
        Task::Status { paths } => assert_eq!(paths, vec![".".to_string()]),
        Task::Diff { .. } => panic!("status expected"),
    }
}
