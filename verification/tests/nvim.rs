use navigator::error::Fault;
use navigator::io::nvim::{edit_expr, open, opened};
use navigator::io::Output;
use navigator::logging::store::LogLevel;
use navigator::notice::Notice;
use navigator::path::FilePath;

fn expr_for(path: &str) -> String {
    edit_expr(&FilePath::new(path))
}

#[test]
fn edits_the_path_in_the_current_window() {
    let expr = expr_for("/home/me/main.rs");

    assert_eq!(expr, "execute('edit ' . fnameescape('/home/me/main.rs'))");
}

#[test]
fn passes_the_path_through_fnameescape() {
    // Spaces, `|`, `%` and `#` are all syntax to `:edit`; vim must escape them.
    for path in ["/a b/c.rs", "/a|b.rs", "/a%b.rs", "/a#b.rs"] {
        let expr = expr_for(path);
        assert!(
            expr.contains(&format!("fnameescape('{path}')")),
            "{path} was not handed to fnameescape: {expr}"
        );
    }
}

#[test]
fn doubles_single_quotes_so_they_do_not_end_the_string() {
    let expr = expr_for("/tmp/it's here.rs");

    assert_eq!(expr, "execute('edit ' . fnameescape('/tmp/it''s here.rs'))");
}

#[test]
fn a_quote_only_path_stays_balanced() {
    let expr = expr_for("'");

    // Every quote in the result must pair up, or vim sees an unterminated string.
    assert_eq!(expr.matches('\'').count() % 2, 0, "{expr}");
}

fn output(success: bool, code: Option<i32>, stderr: &str) -> Output {
    Output { stdout: vec![], stderr: stderr.as_bytes().to_vec(), success, code }
}

#[test]
fn a_file_is_handed_to_the_neovim_that_is_there() {
    let mut notices: Vec<Notice> = Vec::new();

    let arguments = open(&FilePath::new("/a/b.rs"), Some("/run/nvim.sock"), &mut notices).unwrap();

    assert_eq!(
        arguments,
        [
            "--server",
            "/run/nvim.sock",
            "--remote-expr",
            "execute('edit ' . fnameescape('/a/b.rs'))"
        ]
    );
}

#[test]
fn without_a_neovim_nothing_is_run() {
    let mut notices: Vec<Notice> = Vec::new();

    assert!(open(&FilePath::new("/a/b.rs"), None, &mut notices).is_none());
    assert!(notices.iter().any(|notice| notice.level == LogLevel::Warn));
}

#[test]
fn neovim_took_the_file_when_it_says_so() {
    let mut notices: Vec<Notice> = Vec::new();

    assert!(opened(Ok(output(true, Some(0), "")), &mut notices).unwrap());
    assert!(!opened(Ok(output(false, Some(-1), "E247: no server\n")), &mut notices).unwrap());

    let said: Vec<&str> = notices.iter().map(|notice| notice.text.as_str()).collect();
    assert_eq!(
        said,
        ["File opened in neovim", "nvim: E247: no server", "nvim exited with Some(-1)"]
    );
}

#[test]
fn a_neovim_that_cannot_be_run_is_an_error() {
    let mut notices: Vec<Notice> = Vec::new();
    let fault = Fault { text: "not found".to_string(), causes: vec![], code: Some(2) };

    let errx = opened(Err(fault), &mut notices).unwrap_err();

    assert_eq!(errx.chain().len(), 2);
    assert_eq!(errx.chain()[1], "not found");
}
