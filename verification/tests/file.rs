use navigator::error::Fault;
use navigator::io::file::{
    is_text_byte, looks_like_text, read_head, read_text_preview, text_preview, HeadFault,
    PREVIEW_BYTES,
};
use navigator::logging::store::LogLevel;
use navigator::notice::Notice;
use navigator::path::FilePath;

fn preview(bytes: &[u8]) -> Option<String> {
    text_preview(bytes, usize::MAX)
}

#[test]
fn reads_plain_text() {
    assert_eq!(preview(b"hello\nworld").unwrap(), "hello\nworld");
}

#[test]
fn keeps_at_most_max_lines() {
    let text = preview_lines(b"one\ntwo\nthree\nfour", 2);

    assert_eq!(text, "one\ntwo");
}

fn preview_lines(bytes: &[u8], max_lines: usize) -> String {
    text_preview(bytes, max_lines).unwrap()
}

#[test]
fn zero_lines_previews_nothing() {
    assert_eq!(preview_lines(b"one\ntwo", 0), "");
}

#[test]
fn an_empty_file_is_text_not_binary() {
    assert_eq!(preview(b"").unwrap(), "");
}

#[test]
fn a_trailing_newline_does_not_add_a_line() {
    assert_eq!(preview(b"one\ntwo\n").unwrap(), "one\ntwo");
}

#[test]
fn carriage_returns_are_stripped() {
    assert_eq!(preview(b"one\r\ntwo\r\n").unwrap(), "one\ntwo");
}

#[test]
fn tabs_survive() {
    assert_eq!(preview(b"a\tb").unwrap(), "a\tb");
}

#[test]
fn a_null_byte_means_binary() {
    assert_eq!(preview(b"text\0more"), None);
}

#[test]
fn a_control_byte_means_binary() {
    assert_eq!(preview(b"text\x07bell"), None);
    assert_eq!(preview(b"text\x1bescape"), None);
}

#[test]
fn multibyte_characters_survive() {
    assert_eq!(preview("héllo → 🦀".as_bytes()).unwrap(), "héllo → 🦀");
}

#[test]
fn a_character_cut_in_half_at_the_end_is_dropped_not_treated_as_binary() {
    // "ab🦀" with the crab's last byte missing, as an 8KB read of a longer file would give.
    let full = "ab🦀".as_bytes();
    let truncated = &full[..full.len() - 1];

    assert_eq!(preview(truncated).unwrap(), "ab");
}

#[test]
fn genuinely_invalid_utf8_means_binary() {
    // 0xc3 starts a two-byte character, but `(` cannot continue it.
    assert_eq!(preview(b"text\xc3("), None);
}

/// What is shown for a file that holds `contents`, and what is said of it.
fn shown(contents: &[u8], max_lines: usize) -> (String, usize) {
    let mut notices: Vec<Notice> = Vec::new();
    let path = FilePath::new("/tmp/file");
    let text = read_text_preview(&path, Ok(contents.to_vec()), max_lines, &mut notices);
    (text, notices.len())
}

fn fault(text: &str) -> Fault {
    Fault { text: text.to_string(), causes: vec![], code: None }
}

#[test]
fn reads_a_file_from_disk() {
    assert_eq!(shown(b"first\nsecond\nthird", 2), ("first\nsecond".to_string(), 0));
}

#[test]
fn a_missing_file_says_so() {
    let mut notices: Vec<Notice> = Vec::new();
    let path = FilePath::new("/tmp/nope.txt");
    let answer = Err(HeadFault::Opening(fault("No such file or directory (os error 2)")));

    assert_eq!(read_text_preview(&path, answer, 10, &mut notices), "(cannot read file)");
    assert_eq!(notices.len(), 1);
    assert_eq!(notices[0].level, LogLevel::Warn);
    assert_eq!(
        notices[0].text,
        "IO: opening /tmp/nope.txt"
    );
}

#[test]
fn a_directory_says_it_cannot_be_read() {
    let mut notices: Vec<Notice> = Vec::new();
    let path = FilePath::new("/tmp");
    let answer = Err(HeadFault::Reading(fault("Is a directory (os error 21)")));

    assert_eq!(read_text_preview(&path, answer, 10, &mut notices), "(cannot read file)");
    assert_eq!(notices[0].text, "IO: reading /tmp");
}

#[test]
fn a_binary_file_says_so() {
    assert_eq!(
        shown(&[0x7f, 0x45, 0x4c, 0x46, 0x00, 0x01], 10),
        ("(binary file)".to_string(), 0)
    );
}

#[test]
fn only_the_head_of_a_large_file_is_read() {
    // Far more than PREVIEW_BYTES, with the marker well past the cutoff.
    let mut content = "filler\n".repeat(4000);
    content.push_str("MARKER\n");

    let (text, _) = shown(content.as_bytes(), usize::MAX);

    assert!(!text.contains("MARKER"), "read past the preview window");
    assert_eq!(text.len(), PREVIEW_BYTES);
}

#[test]
fn a_large_file_cut_mid_character_still_previews() {
    // 3 bytes per `→`, so the 8192-byte cutoff lands inside a character.
    let (text, _) = shown("→".repeat(4000).as_bytes(), usize::MAX);

    assert!(text.starts_with('→'), "expected text, got {text}");
}

#[test]
fn the_head_is_cut_where_it_was_asked_to_be() {
    let path = FilePath::new("/tmp/file");

    assert_eq!(read_head(&path, 3, Ok(b"abcdef".to_vec())).unwrap(), b"abc");
    assert_eq!(read_head(&path, 9, Ok(b"abcdef".to_vec())).unwrap(), b"abcdef");
}

#[test]
fn text_is_what_could_be_previewed() {
    assert!(looks_like_text(b"plain"));
    assert!(!looks_like_text(b"\0"));
    assert!(looks_like_text("cut \u{1f980}".as_bytes().split_last().unwrap().1));
}

#[test]
fn only_three_control_bytes_are_text() {
    for byte in 0..0x20u8 {
        assert_eq!(is_text_byte(byte), byte == 9 || byte == 10 || byte == 13, "{byte}");
    }
    for byte in 0x20..=0xffu8 {
        assert_eq!(is_text_byte(byte), byte != 0x7f, "{byte}");
    }
}

#[test]
fn a_delete_byte_means_binary() {
    assert_eq!(preview(b"text\x7fmore"), None);
    assert!(!looks_like_text(b"text\x7f"));
}
