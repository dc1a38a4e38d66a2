//! A session from its arguments to its end.
use crate::error::{self, Errx, Fault, Resultx};
use crate::logging::store::LogLevel;
use crate::navigator::Outcome;
use crate::notice::{self, Notice};
use crate::path::FilePath;
use crate::text::{self, cat};
use vstd::prelude::*;

verus! {

/// What the navigator is started with.
#[derive(Debug)]
pub struct Args {
    /// Directory to open
    pub path: String,
    /// File to select
    pub select: Option<String>,
    /// Where to record the directory you ended in, for a shell wrapper to cd to
    pub cwd_file: Option<FilePath>,
}

/// Where a session goes after a key.
#[derive(Debug)]
pub enum SessionStep {
    /// The next frame is drawn and the next key read.
    GoOn,
    End,
    /// The directory the session ended in is recorded, and then it ends.
    Record { file: FilePath, dir: FilePath },
}

/// Where a session goes after a key, over the paths.
pub enum SessionStepView {
    GoOn,
    End,
    Record { file: Seq<u8>, dir: Seq<u8> },
}

impl View for SessionStep {
    type V = SessionStepView;

    open spec fn view(&self) -> SessionStepView {
        match self {
            SessionStep::GoOn => SessionStepView::GoOn,
            SessionStep::End => SessionStepView::End,
            SessionStep::Record { file, dir } => SessionStepView::Record {
                file: file@,
                dir: dir@,
            },
        }
    }
}

/// Where a session goes after a key: `Q` is the only quit that moves the shell.
pub open spec fn step_after(
    outcome: Outcome,
    cwd_file: Option<Seq<u8>>,
    dir: Seq<u8>,
) -> SessionStepView {
    match outcome {
        Outcome::Stay => SessionStepView::GoOn,
        Outcome::Quit => SessionStepView::End,
        Outcome::QuitHere => match cwd_file {
            Some(file) => SessionStepView::Record { file, dir },
            None => SessionStepView::End,
        },
    }
}

impl Args {
    /// What is said when the session starts.
    pub fn started(&self) -> (said: Notice)
        ensures
            said@ == notice::info("Navigator started in: "@ + self.path@),
    {
        Notice {
            level: LogLevel::Info,
            text: cat("Navigator started in: ", self.path.as_str()),
        }
    }

    /// Where the session goes after a key that left it with `outcome` in `dir`.
    ///
    /// `Q` is the only quit that moves the shell: it records where the session ended
    /// in the file named for it, for the wrapper that changes there.
    pub fn after(&self, outcome: Outcome, dir: &FilePath) -> (step: SessionStep)
        ensures
            step@ == step_after(
                outcome,
                match self.cwd_file {
                    Some(file) => Some(file@),
                    None => None,
                },
                dir@,
            ),
    {
        match outcome {
            Outcome::Stay => SessionStep::GoOn,
            Outcome::Quit => SessionStep::End,
            Outcome::QuitHere => match &self.cwd_file {
                Some(file) => SessionStep::Record { file: file.clone(), dir: dir.clone() },
                None => SessionStep::End,
            },
        }
    }
}

/// Whether the directory a session ended in could be recorded.
pub fn recorded(file: &FilePath, written: Result<(), Fault>) -> (result: Resultx<()>)
    ensures
        match (written, result) {
            (Ok(()), Ok(())) => true,
            (Err(fault), Err(errx)) => {
                &&& errx@ == error::io_error(fault@, "writing "@ + text::lossy_text(file@))
                &&& errx.traced()
            },
            _ => false,
        },
{
    match written {
        Ok(()) => Ok(()),
        Err(fault) => Err(Errx::e_io(fault, cat("writing ", file.display().as_str()))),
    }
}

/// The shell moves only when the session ended with `Q`, and then to where it ended.
pub proof fn law_only_quitting_here_moves_the_shell(
    outcome: Outcome,
    cwd_file: Option<Seq<u8>>,
    dir: Seq<u8>,
)
    ensures
        step_after(outcome, cwd_file, dir) matches SessionStepView::Record { file, dir: recorded }
            ==> outcome == Outcome::QuitHere && cwd_file == Some(file) && recorded == dir,
        outcome == Outcome::Stay <==> step_after(outcome, cwd_file, dir) is GoOn,
{
}

/// A session goes on until it is quit. Quit by `Q` with a file to record it in, the
/// directory it ended in is recorded there; otherwise it just ends.
pub proof fn law_how_a_session_ends(
    outcome: Outcome,
    cwd_file: Option<Seq<u8>>,
    dir: Seq<u8>,
)
    ensures
        outcome == Outcome::Stay ==> step_after(outcome, cwd_file, dir) is GoOn,
        outcome == Outcome::Quit ==> step_after(outcome, cwd_file, dir) is End,
        outcome == Outcome::QuitHere && cwd_file is None ==> step_after(
            outcome,
            cwd_file,
            dir,
        ) is End,
        outcome == Outcome::QuitHere && cwd_file is Some ==> step_after(outcome, cwd_file, dir)
            == (SessionStepView::Record { file: cwd_file->0, dir }),
{
}

} // verus!
