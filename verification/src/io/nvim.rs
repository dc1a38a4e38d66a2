//! Opening a file in the neovim instance whose terminal the navigator runs in.
use crate::error::{self, Errx, ErrxView, Fault, FaultView, Resultx};
use crate::io::{Output, OutputView};
use crate::logging::store::LogLevel;
use crate::notice::{self, say, Notice, NoticeView};
use crate::path::FilePath;
use crate::text::{self, cat, cat3, double, lossy, signed, trim};
use crate::text_laws;
use vstd::prelude::*;
use vstd::string::StringExecFns;

verus! {

broadcast use {vstd::seq::group_seq_axioms, vstd::seq_lib::group_seq_properties};

/// Vimscript that opens `path`, with the quotes in it doubled.
pub open spec fn edit_script(path: Seq<u8>) -> Seq<char> {
    "execute('edit ' . fnameescape('"@ + text::doubled(text::lossy_text(path), '\'') + "'))"@
}

/// What neovim is run with to open `path` in the instance at `socket`.
pub open spec fn edit_arguments(path: Seq<u8>, socket: Seq<char>) -> Seq<Seq<char>> {
    seq!["--server"@, socket, "--remote-expr"@, edit_script(path)]
}

/// What is said before neovim is run, or instead of running it.
pub open spec fn open_told(path: Seq<u8>, socket: Option<Seq<char>>) -> Seq<NoticeView> {
    match socket {
        None => seq![notice::warn("NVIM is not set - not running inside a neovim terminal"@)],
        Some(socket) => seq![
            notice::info("Opening "@ + text::lossy_text(path) + " via "@ + socket),
        ],
    }
}

/// An exit code as it is written in the log.
pub open spec fn code_text(code: Option<i32>) -> Seq<char> {
    match code {
        Some(number) => "Some("@ + text::signed_text(number as int) + ")"@,
        None => "None"@,
    }
}

/// What is said once neovim has been run.
pub open spec fn opened_told(ran: Result<OutputView, FaultView>) -> Seq<NoticeView> {
    match ran {
        Err(_) => Seq::empty(),
        Ok(output) => {
            let complaint = if output.stderr.len() > 0 {
                seq![notice::error("nvim: "@ + text::trimmed(text::lossy_text(output.stderr)))]
            } else {
                Seq::empty()
            };
            complaint.push(
                if output.success {
                    notice::info("File opened in neovim"@)
                } else {
                    notice::error("nvim exited with "@ + code_text(output.code))
                },
            )
        },
    }
}

/// Whether neovim took the file.
pub open spec fn took_the_file(ran: Result<OutputView, FaultView>) -> Result<bool, ErrxView> {
    match ran {
        Ok(output) => Ok(output.success),
        Err(fault) => Err(error::io_error(fault, "running nvim --server"@)),
    }
}

/// What neovim left behind, over its bytes.
pub open spec fn ran_view(ran: Result<Output, Fault>) -> Result<OutputView, FaultView> {
    match ran {
        Ok(output) => Ok(output@),
        Err(fault) => Err(fault@),
    }
}

/// Vimscript that opens `path` in the window the navigator's terminal occupies, so
/// the file takes that window over the way a file explorer buffer would.
pub fn edit_expr(path: &FilePath) -> (script: String)
    ensures
        script@ == edit_script(path@),
{
    // Doubling is how a single quote is escaped inside a Vimscript literal string,
    // and `fnameescape` handles the spaces and the `|`, `%`, `#` that `:edit` would
    // otherwise read as syntax.
    let quoted = double(path.display().as_str(), '\'');
    cat3("execute('edit ' . fnameescape('", quoted.as_str(), "'))")
}

/// What neovim is to be run with to open `path`, or nothing when there is no
/// instance to open it in.
pub fn open(path: &FilePath, socket: Option<&str>, notices: &mut Vec<Notice>) -> (arguments: Option<
    Vec<String>,
>)
    ensures
        match (socket, arguments) {
            (Some(socket), Some(arguments)) => text::texts(arguments@) == edit_arguments(
                path@,
                socket@,
            ),
            (None, None) => true,
            _ => false,
        },
        notice::notice_views(final(notices)@) == notice::notice_views(old(notices)@) + open_told(
            path@,
            match socket {
                Some(socket) => Some(socket@),
                None => None,
            },
        ),
{
    let ghost told = notice::notice_views(notices@);
    match socket {
        None => {
            say(
                notices,
                LogLevel::Warn,
                "NVIM is not set - not running inside a neovim terminal".to_owned(),
            );
            proof {
                assert(notice::notice_views(notices@) =~= told + open_told(path@, None));
            }
            None
        },
        Some(socket) => {
            let mut said = cat3("Opening ", path.display().as_str(), " via ");
            said.append(socket);
            say(notices, LogLevel::Info, said);
            let mut arguments: Vec<String> = Vec::new();
            arguments.push("--server".to_owned());
            arguments.push(socket.to_owned());
            arguments.push("--remote-expr".to_owned());
            arguments.push(edit_expr(path));
            proof {
                assert(notice::notice_views(notices@) =~= told + open_told(path@, Some(socket@)));
                assert(text::texts(arguments@) =~= edit_arguments(path@, socket@));
            }
            Some(arguments)
        },
    }
}

/// Whether neovim took the file. It may refuse the edit, and then the navigator
/// stays open.
pub fn opened(ran: Result<Output, Fault>, notices: &mut Vec<Notice>) -> (took: Resultx<bool>)
    ensures
        match (took, took_the_file(ran_view(ran))) {
            (Ok(took), Ok(expected)) => took == expected,
            (Err(errx), Err(expected)) => errx@ == expected && errx.traced(),
            _ => false,
        },
        notice::notice_views(final(notices)@) == notice::notice_views(old(notices)@) + opened_told(
            ran_view(ran),
        ),
{
    let ghost told = notice::notice_views(notices@);
    match ran {
        Err(fault) => {
            proof {
                assert(told + opened_told(Err(fault@)) =~= told);
            }
            Err(Errx::e_io(fault, "running nvim --server".to_owned()))
        },
        Ok(output) => {
            if output.stderr.len() > 0 {
                let complaint = trim(lossy(output.stderr.as_slice()).as_str());
                say(notices, LogLevel::Error, cat("nvim: ", complaint.as_str()));
            }
            if !output.success {
                let code = match output.code {
                    Some(number) => cat3("Some(", signed(number).as_str(), ")"),
                    None => "None".to_owned(),
                };
                say(notices, LogLevel::Error, cat("nvim exited with ", code.as_str()));
                proof {
                    assert(notice::notice_views(notices@) =~= told + opened_told(Ok(output@)));
                }
                return Ok(false);
            }
            say(notices, LogLevel::Info, "File opened in neovim".to_owned());
            proof {
                assert(notice::notice_views(notices@) =~= told + opened_told(Ok(output@)));
            }
            Ok(true)
        },
    }
}

/// Every quote in the script pairs up, whatever the path: vim never sees a string
/// that does not end.
pub proof fn law_edit_script_is_balanced(path: Seq<u8>)
    ensures
        text::occurrences(edit_script(path), '\'') % 2 == 0,
{
    let shown = text::lossy_text(path);
    reveal_strlit("execute('edit ' . fnameescape('");
    reveal_strlit("'))");
    let head = "execute('edit ' . fnameescape('"@;
    let tail = "'))"@;
    text::lemma_occurrences_add(head + text::doubled(shown, '\''), tail, '\'');
    text::lemma_occurrences_add(head, text::doubled(shown, '\''), '\'');
    text::lemma_doubled_occurrences(shown, '\'');
    assert(text::occurrences(head, '\'') == 3) by {
        text::lemma_occurrences_stretch(head, 0, 8, '\'');
        text::lemma_occurrences_push(head.take(8), head[8], '\'');
        assert(head.take(9) =~= head.take(8).push(head[8]));
        text::lemma_occurrences_stretch(head, 9, 14, '\'');
        text::lemma_occurrences_push(head.take(14), head[14], '\'');
        assert(head.take(15) =~= head.take(14).push(head[14]));
        text::lemma_occurrences_stretch(head, 15, 30, '\'');
        text::lemma_occurrences_push(head.take(30), head[30], '\'');
        assert(head =~= head.take(30).push(head[30]));
    }
    assert(text::occurrences(tail, '\'') == 1) by {
        assert(tail.take(1) =~= tail.take(0).push(tail[0]));
        text::lemma_occurrences_push(tail.take(0), tail[0], '\'');
        text::lemma_occurrences_stretch(tail, 1, 3, '\'');
        assert(tail.take(3) =~= tail);
    }
}

/// The script has neovim edit the path as it is shown: what stands between the quotes is
/// that path, once its doubled quotes are taken for one.
pub proof fn law_edit_script_names_the_path(path: Seq<u8>)
    ensures
        ({
            let script = edit_script(path);
            let head = "execute('edit ' . fnameescape('"@;
            let tail = "'))"@;
            &&& script.len() >= head.len() + tail.len()
            &&& script.take(head.len() as int) == head
            &&& script.skip(script.len() - tail.len()) == tail
            &&& text_laws::undoubled(
                script.subrange(head.len() as int, script.len() - tail.len()),
                '\'',
            ) == text::lossy_text(path)
        }),
{
    let script = edit_script(path);
    let head = "execute('edit ' . fnameescape('"@;
    let tail = "'))"@;
    let shown = text::lossy_text(path);
    text_laws::law_doubling_can_be_undone(shown, '\'');
    assert(script.take(head.len() as int) =~= head);
    assert(script.skip(script.len() - tail.len()) =~= tail);
    assert(script.subrange(head.len() as int, script.len() - tail.len()) =~= text::doubled(
        shown,
        '\'',
    ));
}

/// Neovim is run to have the instance at the socket evaluate the script, and nothing else.
/// The file was taken exactly when it ran and succeeded.
pub proof fn law_what_neovim_is_run_with(
    path: Seq<u8>,
    socket: Seq<char>,
    ran: Result<OutputView, FaultView>,
)
    ensures
        edit_arguments(path, socket) == seq![
            "--server"@,
            socket,
            "--remote-expr"@,
            edit_script(path),
        ],
        ran matches Ok(output) ==> took_the_file(ran) == Ok::<bool, ErrxView>(output.success),
        ran is Err ==> took_the_file(ran) is Err,
{
}

} // verus!
