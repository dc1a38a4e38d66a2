use navigator::globals::{
    file_color, level_color, Color, ACCENT, DIM, MARK, SEARCH, SEARCH_TEXT,
};
use navigator::logging::store::LogLevel;

#[test]
fn ordinary_files_keep_the_terminal_foreground() {
    assert_eq!(file_color("notes.txt", false), Color::Reset);
    assert_eq!(file_color("Makefile", false), Color::Reset);
}

#[test]
fn no_color_is_a_fixed_rgb_value() {
    // An Rgb color would ignore the emulator's theme.
    let samples = [
        "dir", ".hidden", "a.zip", "a.png", "a.mp3", "a.pdf", "a.rs", "a.json",
    ];
    for name in samples {
        for is_dir in [true, false] {
            assert!(
                !matches!(file_color(name, is_dir), Color::Rgb(..) | Color::Indexed(_)),
                "{name} does not follow the terminal theme"
            );
        }
    }
    for level in [
        LogLevel::Error,
        LogLevel::Warn,
        LogLevel::Info,
        LogLevel::Debug,
        LogLevel::Trace,
    ] {
        assert!(!matches!(
            level_color(level),
            Color::Rgb(..) | Color::Indexed(_)
        ));
    }
}

#[test]
fn the_chrome_follows_the_terminal_theme_too() {
    // Borders, the cursor bar, the mark dot and the search highlight are ANSI
    // slots, not fixed values, so they re-colour with the emulator's theme like
    // everything else.
    for color in [DIM, ACCENT, MARK, SEARCH, SEARCH_TEXT] {
        assert!(!matches!(color, Color::Rgb(..) | Color::Indexed(_)));
    }
}

#[test]
fn directories_are_colored_as_directories_whatever_they_are_named() {
    assert_eq!(file_color("photos.png", true), Color::Blue);
}

#[test]
fn hidden_files_are_dimmed() {
    assert_eq!(file_color(".gitignore", false), Color::DarkGray);
}

#[test]
fn globals_extensions_are_matched_case_insensitively() {
    assert_eq!(file_color("MAIN.RS", false), Color::Green);
    assert_eq!(file_color("Photo.PNG", false), Color::Magenta);
}

#[test]
fn a_file_with_no_extension_is_not_miscolored() {
    assert_eq!(file_color("README", false), Color::Reset);
}

#[test]
fn a_name_that_is_only_an_extension_is_not_that_kind_of_file() {
    // A name with no dot in it has no extension.
    for name in ["rs", "c", "go", "zip", "pdf"] {
        assert_eq!(file_color(name, false), Color::Reset, "{name}");
    }
}

#[test]
fn only_the_last_extension_colors_the_file() {
    assert_eq!(file_color("archive.tar.gz", false), Color::Red);
    assert_eq!(file_color("component.spec.ts", false), Color::Green);
}
