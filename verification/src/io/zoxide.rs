//! Jumping to a directory by name, through the database `zoxide` keeps.
//!
//! Read-only: the navigator asks zoxide where a name points and never records
//! anything. The database is the shell's, built up by `z` as you work, so a jump
//! here lands where the same query would land in the terminal.
use crate::error::{self, Errx, ErrxView, Fault, FaultView, Resultx};
use crate::io::nvim;
use crate::io::{Output, OutputView};
use crate::logging::store::LogLevel;
use crate::notice::{self, say, Notice, NoticeView};
use crate::path::FilePath;
use crate::text::{self, cat, lines, lossy, quoted, trim, trim_end, words};
use vstd::prelude::*;
use vstd::string::StringExecFns;

verus! {

broadcast use {vstd::seq::group_seq_axioms, vstd::seq_lib::group_seq_properties};

/// What zoxide is run with to look for `terms`.
pub open spec fn query_arguments(terms: Seq<char>) -> Seq<Seq<char>> {
    seq!["query"@, "--"@] + text::words_of(terms)
}

/// The path on the first line of what zoxide printed.
pub open spec fn first_path(stdout: Seq<char>) -> Option<Seq<u8>> {
    let printed = text::lines_of(stdout);
    if printed.len() == 0 {
        None
    } else {
        let line = text::trimmed_end(printed[0]);
        if line.len() == 0 {
            None
        } else {
            Some(vstd::utf8::encode_utf8(line))
        }
    }
}

/// The directory zoxide ranks highest for `terms`.
pub open spec fn ranked_highest(terms: Seq<char>, ran: Result<OutputView, FaultView>) -> Result<
    Seq<u8>,
    ErrxView,
> {
    match ran {
        Err(fault) => Err(error::io_error(fault, "running zoxide (is it installed?)"@)),
        Ok(output) => match first_path(text::lossy_text(output.stdout)) {
            Some(path) => Ok(path),
            None => Err(
                error::plain_error("zoxide knows nowhere matching "@ + text::quoted_text(terms)),
            ),
        },
    }
}

/// What is said once zoxide has been run.
pub open spec fn query_told(ran: Result<OutputView, FaultView>) -> Seq<NoticeView> {
    match ran {
        Ok(output) => if output.stderr.len() > 0 {
            seq![notice::debug("zoxide: "@ + text::trimmed(text::lossy_text(output.stderr)))]
        } else {
            Seq::empty()
        },
        Err(_) => Seq::empty(),
    }
}

/// What zoxide is to be run with to look for `terms`.
pub fn arguments(terms: &str) -> (given: Vec<String>)
    ensures
        text::texts(given@) == query_arguments(terms@),
{
    let mut given: Vec<String> = Vec::new();
    given.push("query".to_owned());
    // Past `--` every word is a search term, never a flag, whatever was typed.
    given.push("--".to_owned());
    let mut found = words(terms);
    let ghost all = text::texts(found@);
    given.append(&mut found);
    proof {
        assert(text::texts(given@) =~= query_arguments(terms@));
    }
    given
}

/// The directory zoxide ranks highest for `terms`, out of what running it gave.
pub fn query(terms: &str, ran: Result<Output, Fault>, notices: &mut Vec<Notice>) -> (found: Resultx<
    FilePath,
>)
    ensures
        match (found, ranked_highest(terms@, nvim::ran_view(ran))) {
            (Ok(path), Ok(expected)) => path@ == expected,
            (Err(errx), Err(expected)) => errx@ == expected && errx.traced(),
            _ => false,
        },
        notice::notice_views(final(notices)@) == notice::notice_views(old(notices)@) + query_told(
            nvim::ran_view(ran),
        ),
{
    let ghost told = notice::notice_views(notices@);
    match ran {
        Err(fault) => {
            proof {
                assert(told + query_told(Err(fault@)) =~= told);
            }
            Err(Errx::e_io(fault, "running zoxide (is it installed?)".to_owned()))
        },
        Ok(output) => {
            if output.stderr.len() > 0 {
                let complaint = trim(lossy(output.stderr.as_slice()).as_str());
                say(notices, LogLevel::Debug, cat("zoxide: ", complaint.as_str()));
            }
            proof {
                assert(notice::notice_views(notices@) =~= told + query_told(Ok(output@)));
            }
            match best_match(lossy(output.stdout.as_slice()).as_str()) {
                Some(path) => Ok(path),
                None => Err(
                    Errx::any(cat("zoxide knows nowhere matching ", quoted(terms).as_str())),
                ),
            }
        },
    }
}

/// zoxide prints the winning path on a line of its own, and nothing at all when
/// it has no match.
pub fn best_match(stdout: &str) -> (found: Option<FilePath>)
    ensures
        match found {
            Some(path) => first_path(stdout@) == Some(path@),
            None => first_path(stdout@) is None,
        },
{
    let printed = lines(stdout);
    if printed.len() == 0 {
        return None;
    }
    proof {
        assert(text::texts(printed@)[0] == printed@[0]@);
    }
    let line = trim_end(printed[0].as_str());
    if line.as_str().is_empty() {
        None
    } else {
        Some(FilePath::new(line.as_str()))
    }
}

} // verus!
