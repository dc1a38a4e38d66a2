use navigator::error::{Cause, Errx, Fault, Kindx};
use navigator::globals::{color_of_extension, extension_of, level_color, Color};
use navigator::logging::store::LogLevel;
use navigator::navigator::rows::{name_spans, shorten_home, truncate};
use navigator::navigator::search::{self, find_match, indices_from, match_ranges};
use navigator::navigator::Outcome;
use navigator::io::dir::DirEntry;
use navigator::path::FilePath;
use navigator::screen::{row, Rect, Style};
use navigator::session::{recorded, Args, SessionStep};
use navigator::text::{
    cat3, decimal, double, has_char, chars_of, is_white, join_first, lines, pad, same_text, signed,
    text_of, trim, trim_end, words,
};

fn fault(text: &str) -> Fault {
    Fault { text: text.to_string(), causes: vec!["root".to_string()], code: Some(5) }
}

#[test]
fn white_space_is_that_of_the_language() {
    for c in '\0'..=char::MAX {
        assert_eq!(is_white(c), c.is_whitespace(), "{c:?}");
    }
}

#[test]
fn text_is_cut_up_as_the_language_does() {
    for text in [
        "", "\n", "a", "a\n", "a\n\n", "a\r\nb", "a\rb", "\r\n", "\r\r\n", " a b ", "\u{3000}x\t",
        "a\u{b}b", "one  two\nthree", "é🦀",
    ] {
        assert_eq!(lines(text), text.lines().collect::<Vec<_>>(), "{text:?}");
        assert_eq!(words(text), text.split_whitespace().collect::<Vec<_>>(), "{text:?}");
        assert_eq!(trim(text), text.trim(), "{text:?}");
        assert_eq!(trim_end(text), text.trim_end(), "{text:?}");
        let chars = chars_of(text);
        assert_eq!(text_of(&chars, 0, chars.len()), text);
        assert_eq!(has_char(&chars, 'a'), text.contains('a'));
    }
}

#[test]
fn numbers_are_written_as_the_language_does() {
    for number in [0, 1, 9, 10, 99, 1_000, u64::MAX] {
        assert_eq!(decimal(number), number.to_string());
    }
    for number in [0, -1, 7, i32::MIN, i32::MAX] {
        assert_eq!(signed(number), number.to_string());
    }
}

#[test]
fn text_is_put_together() {
    let all: Vec<String> = ["a", "b", "c"].iter().map(|text| text.to_string()).collect();

    assert_eq!(join_first(&all, 2, ", "), "a, b");
    assert_eq!(join_first(&all, 9, ", "), "a, b, c");
    assert_eq!(cat3("a", "b", "c"), "abc");
    assert_eq!(pad("ab", 4), "ab  ");
    assert_eq!(pad("abcde", 4), "abcde");
    assert_eq!(double("it's", '\''), "it''s");
    assert!(same_text("a", "a") && !same_text("a", "A"));
}

#[test]
fn an_error_tells_all_that_led_to_it() {
    let errx = Errx::e_io(fault("denied"), "reading x".to_string()).ctx(Kindx::any("opening".to_string()));

    assert_eq!(errx.to_text(), "Any: opening");
    assert_eq!(errx.chain(), ["Any: opening", "IO: reading x", "denied", "root"]);
}

#[test]
fn only_the_outermost_error_has_a_trace() {
    let inner = Errx::any("inner".to_string());
    assert!(inner.bkt.is_some());

    let outer = inner.ctx(Kindx::any("outer".to_string()));
    assert!(outer.bkt.is_some());
    match outer.src.as_deref() {
        Some(Cause::Own(inner)) => assert!(inner.bkt.is_none()),
        other => panic!("{other:?}"),
    }
}

#[test]
fn every_way_to_make_an_error_keeps_its_words() {
    assert_eq!(Errx::of(Kindx::Io("x".to_string())).chain(), ["IO: x"]);
    assert_eq!(Errx::any("x".to_string()).chain(), ["Any: x"]);
    assert_eq!(Errx::e_of(fault("f"), Kindx::Io("x".to_string())).chain(), ["IO: x", "f", "root"]);
    assert_eq!(Errx::e_any(fault("f"), "x".to_string()).chain(), ["Any: x", "f", "root"]);
    let caused = Errx::new(Some(Cause::Own(Errx::any("y".to_string()))), Kindx::any("x".to_string()));
    assert_eq!(caused.chain(), ["Any: x", "Any: y"]);
    assert_eq!(Errx::from(fault("f")).chain()[1..], ["f", "root"]);
}

#[test]
fn the_home_directory_is_shortened() {
    assert_eq!(shorten_home("/home/me/dev", Some("/home/me")), "~/dev");
    assert_eq!(shorten_home("/home/me", Some("/home/me")), "~");
    assert_eq!(shorten_home("/home/you", Some("/home/me")), "/home/you");
    assert_eq!(shorten_home("/home/me", None), "/home/me");
}

#[test]
fn every_width_is_kept_to() {
    for width in 0..20 {
        assert!(truncate("/home/me/dev/notes", width).chars().count() <= width);
    }
}

#[test]
fn matches_are_found_where_they_are_seen() {
    assert_eq!(match_ranges("banana.txt", "an"), [(1, 3), (3, 5)]);
    assert_eq!(match_ranges("Ärger.txt", "är"), [(0, 3)]);
    assert_eq!(match_ranges("İstanbul.txt", "i"), [(0, 2)]);
    assert_eq!(match_ranges("İi", "i"), [(0, 2), (2, 3)]);
    assert_eq!(match_ranges("Readme.md", "read"), [(0, 4)]);
    assert!(match_ranges("Readme.md", "READ").is_empty());
    assert!(match_ranges("other.txt", "m").is_empty());
    assert!(match_ranges("banana", "").is_empty());
    assert!(search::matches("README", "read"));
    assert!(!search::matches("readme", "READ"));
}

#[test]
fn a_name_is_spelled_out_by_its_spans() {
    for (name, query) in [("banana", "an"), ("İİİ", "\u{307}i"), ("x", "y"), ("", "a")] {
        let spans = name_spans(name, query, Style::new());
        let spelled: String = spans.iter().map(|span| span.text.as_str()).collect();
        assert_eq!(spelled, name);
    }
}

#[test]
fn every_row_is_looked_at_once() {
    assert_eq!(indices_from(4, 2), [2, 3, 0, 1]);
    assert_eq!(indices_from(3, 3), [0, 1, 2]);
    assert!(indices_from(0, 0).is_empty());

    let entries: Vec<DirEntry> = ["a", "b", "ab"]
        .iter()
        .map(|name| DirEntry { name: name.to_string(), is_dir: false })
        .collect();
    assert_eq!(find_match(&entries, "b", &indices_from(3, 2)), Some(2));
    assert_eq!(find_match(&entries, "b", &indices_from(3, 0)), Some(1));
    assert_eq!(find_match(&entries, "z", &indices_from(3, 0)), None);
}

#[test]
fn extensions_are_lowered_and_colored() {
    assert_eq!(extension_of(&FilePath::new("/a/Photo.PNG")), "png");
    assert_eq!(extension_of(&FilePath::new("/a/\u{c9}t.\u{c9}")), "\u{e9}");
    assert_eq!(extension_of(&FilePath::new("/a/b")), "");
    assert_eq!(color_of_extension("rs"), Color::Green);
    assert_eq!(color_of_extension("nothing"), Color::Reset);
}

#[test]
fn worse_levels_stand_out() {
    assert_eq!(level_color(LogLevel::Error), Color::Red);
    assert_eq!(level_color(LogLevel::Warn), Color::Yellow);
}

#[test]
fn rows_are_counted_from_the_top() {
    let area = Rect { x: 3, y: 5, width: 10, height: 7 };

    assert_eq!(row(area, 0), area);
    assert_eq!(row(area, 2), Rect { y: 7, ..area });
    assert_eq!(row(area, usize::MAX), Rect { y: u16::MAX - 7, ..area });
}

fn args(cwd_file: Option<&str>) -> Args {
    Args { path: "/start".to_string(), select: None, cwd_file: cwd_file.map(FilePath::new) }
}

#[test]
fn only_quitting_here_records_the_directory() {
    let dir = FilePath::new("/end");

    assert!(matches!(args(Some("/f")).after(Outcome::Stay, &dir), SessionStep::GoOn));
    assert!(matches!(args(Some("/f")).after(Outcome::Quit, &dir), SessionStep::End));
    assert!(matches!(args(None).after(Outcome::QuitHere, &dir), SessionStep::End));
    match args(Some("/f")).after(Outcome::QuitHere, &dir) {
        SessionStep::Record { file, dir } => {
            assert_eq!(file, FilePath::new("/f"));
            assert_eq!(dir, FilePath::new("/end"));
        }
        other => panic!("{other:?}"),
    }
}

#[test]
fn a_session_says_where_it_starts() {
    assert_eq!(args(None).started().text, "Navigator started in: /start");
}

#[test]
fn a_directory_that_cannot_be_recorded_is_an_error() {
    let file = FilePath::new("/f");

    assert!(recorded(&file, Ok(())).is_ok());
    assert_eq!(recorded(&file, Err(fault("full"))).unwrap_err().chain(), ["IO: writing /f", "full", "root"]);
}
