use navigator::error::Fault;
use navigator::io::zoxide::{arguments, best_match, query};
use navigator::io::Output;
use navigator::notice::Notice;
use navigator::path::FilePath;

#[test]
fn takes_the_path_off_the_line_zoxide_printed() {
    assert_eq!(
        best_match("/home/me/dev/navigator\n"),
        Some(FilePath::new("/home/me/dev/navigator"))
    );
}

#[test]
fn no_match_is_no_path() {
    for stdout in ["", "\n", "   \n"] {
        assert_eq!(best_match(stdout), None, "{stdout:?}");
    }
}

#[test]
fn only_the_top_ranked_line_is_taken() {
    assert_eq!(
        best_match("/first\n/second\n"),
        Some(FilePath::new("/first"))
    );
}

#[test]
fn a_path_with_spaces_in_it_survives_intact() {
    assert_eq!(
        best_match("/home/me/my notes\n"),
        Some(FilePath::new("/home/me/my notes"))
    );
}

#[test]
fn the_words_typed_are_handed_over_one_by_one() {
    assert_eq!(arguments("  my   notes "), ["query", "--", "my", "notes"]);
}

fn ran(success: bool, code: Option<i32>, stdout: &[u8], stderr: &str) -> Output {
    Output { stdout: stdout.to_vec(), stderr: stderr.as_bytes().to_vec(), success, code }
}

#[test]
fn the_best_match_is_where_to_go() {
    let mut notices: Vec<Notice> = Vec::new();

    let found = query("dev", Ok(ran(true, Some(0), b"/home/me/dev\n", "")), &mut notices);

    assert_eq!(found.unwrap(), FilePath::new("/home/me/dev"));
}

#[test]
fn a_query_that_finds_nothing_is_an_error() {
    let mut notices: Vec<Notice> = Vec::new();

    assert!(query("dev", Ok(ran(false, Some(1), b"", "no match found")), &mut notices).is_err());
    assert!(query("dev", Ok(ran(true, Some(0), b"\n", "")), &mut notices).is_err());
}

#[test]
fn a_zoxide_that_cannot_be_run_is_an_error() {
    let mut notices: Vec<Notice> = Vec::new();
    let fault = Fault { text: "not found".to_string(), causes: vec![], code: Some(2) };

    assert!(query("dev", Err(fault), &mut notices).is_err());
}

#[test]
fn output_that_is_not_utf8_is_read_as_far_as_it_can_be() {
    let mut notices: Vec<Notice> = Vec::new();

    let found = query("x", Ok(ran(true, Some(0), b"/a\xff\n", "")), &mut notices);

    assert_eq!(found.unwrap(), FilePath::new("/a\u{fffd}"));
}
