//! What every key does.
use crate::globals::SCROLL_JUMP;
use crate::io::zoxide;
use crate::logging::store::LogLevel;
use crate::marks;
use crate::navigator::model::{self, NavView};
use crate::navigator::search::{self, indices_from};
use crate::navigator::{
    backwards, held, nothing, silent, staying, telling, KeyCode, KeyEvent, Mode, Navigator, Next,
    Outcome, Pending, Prompt, PromptAction, Request, Step,
};
use crate::path;
use crate::plan::{self, validate_name, Op};
use crate::text::{cat, cat3, quoted, trim};
use vstd::prelude::*;

verus! {

broadcast use {vstd::seq::group_seq_axioms, vstd::seq_lib::group_seq_properties};

/// The length of the log, as a number.
pub open spec fn log_len_view(log_len: Option<usize>) -> Option<int> {
    match log_len {
        Some(total) => Some(total as int),
        None => None,
    }
}

impl Navigator {
    /// Handles one keypress. What it leads to is [`Outcome::Quit`] or
    /// [`Outcome::QuitHere`] when the navigator should quit.
    ///
    /// `log_len` is how many entries the log holds, when there is a log.
    ///
    /// Nothing a key does is worth ending the session over: a directory that
    /// cannot be read, a neovim that is not installed, a listing that cannot be
    /// read again: each is a line on the status bar, and the navigator stays where
    /// it is with its marks and its plan intact.
    pub fn handle_key(&mut self, key: KeyEvent, log_len: Option<usize>) -> (step: Step)
        requires
            old(self).wf(),
            old(self)@.pending is Idle,
        ensures
            final(self).wf(),
            (final(self)@, step@) == model::pressed(old(self)@, key, log_len_view(log_len)),
            step@.next is Done ==> final(self)@.pending is Idle,
    {
        match self.mode {
            Mode::Prompt(_) => self.handle_prompt_key(key),
            Mode::Review => self.handle_review_key(key),
            Mode::Normal => self.handle_normal_key(key, log_len),
            Mode::Help => {
                // Anything at all dismisses it: nobody should have to guess twice.
                self.mode = Mode::Normal;
                nothing()
            },
        }
    }

    fn handle_normal_key(&mut self, key: KeyEvent, log_len: Option<usize>) -> (step: Step)
        requires
            old(self).wf(),
            old(self)@.pending is Idle,
            old(self)@.mode is Normal,
        ensures
            final(self).wf(),
            (final(self)@, step@) == model::normal_key(old(self)@, key, log_len_view(log_len)),
    {
        match key.code {
            KeyCode::Char(c) => {
                if c == 'd' && key.modifiers.control {
                    self.move_down_by(SCROLL_JUMP);
                    nothing()
                } else if c == 'u' && key.modifiers.control {
                    self.move_up_by(SCROLL_JUMP, log_len);
                    nothing()
                } else if held(key) {
                    // Every other letter is a binding only when nothing but shift is
                    // held with it. ctrl-c means "get me out of here" everywhere
                    // else, and must not land on the copy that plain `c` is.
                    nothing()
                } else {
                    self.handle_letter(c, key, log_len)
                }
            },
            KeyCode::Down => {
                self.move_down();
                nothing()
            },
            KeyCode::Up => {
                self.move_up(log_len);
                nothing()
            },
            KeyCode::Enter => self.enter_selected(),
            KeyCode::Esc => self.back_out(),
            _ => nothing(),
        }
    }

    /// A letter with nothing held but shift.
    fn handle_letter(&mut self, c: char, key: KeyEvent, log_len: Option<usize>) -> (step: Step)
        requires
            old(self).wf(),
            old(self)@.pending is Idle,
            old(self)@.mode is Normal,
            key.code == KeyCode::Char(c),
            !model::is_held(key),
        ensures
            final(self).wf(),
            (final(self)@, step@) == model::normal_key(old(self)@, key, log_len_view(log_len)),
    {
        match c {
            'q' => Step {
                notices: telling(LogLevel::Info, "Navigator quit".to_owned()),
                next: Next::Done(Outcome::Quit),
            },
            'Q' => Step {
                notices: telling(
                    LogLevel::Info,
                    cat("Navigator quit in ", self.current_dir.display().as_str()),
                ),
                next: Next::Done(Outcome::QuitHere),
            },
            'j' => {
                self.move_down();
                nothing()
            },
            'k' => {
                self.move_up(log_len);
                nothing()
            },
            'l' => self.enter_selected(),
            '-' | 'h' => self.go_to_parent_directory(),
            'z' => {
                self.begin_prompt("jump to", PromptAction::Jump);
                nothing()
            },
            '/' => {
                let origin: usize = self.selected;
                self.begin_prompt("search", PromptAction::Search { origin });
                nothing()
            },
            'n' => {
                self.search_on();
                nothing()
            },
            'N' => {
                self.search_back();
                nothing()
            },
            'L' => {
                self.toggle_log_panel();
                nothing()
            },
            ' ' => self.toggle_mark(),
            'c' => self.stage_into_here(true),
            'm' => self.stage_into_here(false),
            'd' => self.stage_trash(),
            'a' => {
                self.begin_prompt("new file", PromptAction::CreateFile);
                nothing()
            },
            'A' => {
                self.begin_prompt("new directory", PromptAction::CreateDir);
                nothing()
            },
            'r' => {
                self.begin_rename();
                nothing()
            },
            'y' => self.yank_to_clipboard(),
            'p' => self.open_review(),
            '?' => {
                self.mode = Mode::Help;
                nothing()
            },
            _ => nothing(),
        }
    }

    /// On to the next row that matches, round the end.
    fn search_on(&mut self)
        requires
            old(self).wf(),
        ensures
            final(self).wf(),
            final(self)@ == model::match_selected(
                old(self)@,
                search::rows_from(old(self)@.entries.len(), old(self)@.selected + 1),
            ),
    {
        if self.entries.len() == 0 {
            proof {
                assert(search::rows_from(0, self@.selected + 1) =~= Seq::empty());
            }
            return ;
        }
        let rows = indices_from(self.entries.len(), self.selected + 1);
        self.select_match(&rows);
    }

    /// Back to the row that matches before this one, round the start.
    fn search_back(&mut self)
        requires
            old(self).wf(),
        ensures
            final(self).wf(),
            final(self)@ == model::match_selected(
                old(self)@,
                search::rows_from(old(self)@.entries.len(), old(self)@.selected).reverse(),
            ),
    {
        let rows = indices_from(self.entries.len(), self.selected);
        let back = backwards(&rows);
        self.select_match(&back);
    }

    fn handle_review_key(&mut self, key: KeyEvent) -> (step: Step)
        requires
            old(self).wf(),
            old(self)@.pending is Idle,
            old(self)@.mode is Review,
        ensures
            final(self).wf(),
            (final(self)@, step@) == model::review_key(old(self)@, key),
    {
        match key.code {
            KeyCode::Char(c) => match c {
                'q' => Step { notices: silent(), next: Next::Done(Outcome::Quit) },
                'Q' => Step { notices: silent(), next: Next::Done(Outcome::QuitHere) },
                'p' => {
                    self.mode = Mode::Normal;
                    nothing()
                },
                'j' => {
                    self.review_down();
                    nothing()
                },
                'k' => {
                    self.review_selected = self.review_selected.saturating_sub(1);
                    nothing()
                },
                'x' => {
                    self.plan.remove(self.review_selected);
                    self.clamp_review();
                    nothing()
                },
                'X' => {
                    let ops = self.staged_ops();
                    self.ask(silent(), Request::Probe(ops), Pending::Dropping)
                },
                'r' => self.begin_retarget(),
                _ => nothing(),
            },
            KeyCode::Esc => {
                self.mode = Mode::Normal;
                nothing()
            },
            KeyCode::Down => {
                self.review_down();
                nothing()
            },
            KeyCode::Up => {
                self.review_selected = self.review_selected.saturating_sub(1);
                nothing()
            },
            KeyCode::Enter => {
                let ops = self.staged_ops();
                self.ask(silent(), Request::Probe(ops), Pending::Checking)
            },
            _ => nothing(),
        }
    }

    /// One row down in the review.
    fn review_down(&mut self)
        ensures
            final(self)@ == (NavView {
                review_selected: {
                    let last = if old(self)@.plan.len() > 0 {
                        old(self)@.plan.len() - 1
                    } else {
                        0
                    };
                    if old(self)@.review_selected + 1 < last {
                        old(self)@.review_selected + 1
                    } else {
                        last
                    }
                },
                ..old(self)@
            }),
            final(self).memory == old(self).memory,
            final(self).marks == old(self).marks,
    {
        let last: usize = self.plan.len().saturating_sub(1);
        let wanted: usize = self.review_selected.saturating_add(1);
        self.review_selected = if wanted < last {
            wanted
        } else {
            last
        };
    }

    fn handle_prompt_key(&mut self, key: KeyEvent) -> (step: Step)
        requires
            old(self).wf(),
            old(self)@.pending is Idle,
            old(self)@.mode is Prompt,
        ensures
            final(self).wf(),
            (final(self)@, step@) == model::prompt_key(
                old(self)@,
                old(self)@.mode->Prompt_0,
                key,
            ),
    {
        match key.code {
            KeyCode::Char(c) => {
                // ctrl-something is a command someone expects, not a letter they
                // want in the name they are typing.
                if !held(key) {
                    match &mut self.mode {
                        Mode::Prompt(prompt) => {
                            prompt.input.push(c);
                        },
                        _ => {},
                    }
                    self.follow_search();
                }
                nothing()
            },
            KeyCode::Backspace => {
                match &mut self.mode {
                    Mode::Prompt(prompt) => {
                        let _ = prompt.input.pop();
                    },
                    _ => {},
                }
                self.follow_search();
                nothing()
            },
            KeyCode::Esc => {
                self.abandon_prompt();
                nothing()
            },
            KeyCode::Enter => self.confirm_prompt(),
            _ => nothing(),
        }
    }

    /// Moves the cursor to what is being typed, so the search answers as it is
    /// written rather than when it is finished.
    ///
    /// Every keystroke searches afresh from where the search began, so a query
    /// typed one letter too far leaves the cursor where it started rather than
    /// somewhere the query no longer describes.
    fn follow_search(&mut self)
        requires
            old(self).wf(),
            old(self)@.mode is Prompt,
        ensures
            final(self).wf(),
            final(self)@ == model::typed(
                old(self)@,
                old(self)@.mode->Prompt_0,
                old(self)@.mode->Prompt_0.input,
            ),
    {
        let mut origin: Option<usize> = None;
        match &self.mode {
            Mode::Prompt(prompt) => match prompt.action {
                PromptAction::Search { origin: row } => {
                    origin = Some(row);
                    self.search = prompt.input.clone();
                },
                _ => {},
            },
            _ => {},
        }
        match origin {
            Some(row) => {
                self.selected = row;
                let rows = indices_from(self.entries.len(), row);
                self.select_match(&rows);
            },
            None => {},
        }
    }

    /// Leaves the prompt with nothing done. A search also puts the cursor back
    /// where it started: typing one was a way of looking around, not of moving.
    fn abandon_prompt(&mut self)
        requires
            old(self).wf(),
            old(self)@.mode is Prompt,
            old(self)@.pending is Idle,
        ensures
            final(self).wf(),
            final(self)@ == model::abandoned(old(self)@, old(self)@.mode->Prompt_0),
    {
        let mut left: Mode = Mode::Normal;
        let mut back: Option<usize> = None;
        match &self.mode {
            Mode::Prompt(prompt) => match prompt.action {
                PromptAction::Search { origin } => {
                    back = Some(origin);
                },
                // Back to the screen the prompt was opened from, which for this one
                // is the review: cancelling a rename is not a reason to leave it.
                PromptAction::Retarget(_) => {
                    left = Mode::Review;
                },
                _ => {},
            },
            _ => {},
        }
        match back {
            Some(origin) => {
                self.selected = origin;
                // An abandoned search is not one `n` should repeat.
                self.search = String::new();
            },
            None => {},
        }
        self.mode = left;
    }

    fn confirm_prompt(&mut self) -> (step: Step)
        requires
            old(self).wf(),
            old(self)@.mode is Prompt,
            old(self)@.pending is Idle,
        ensures
            final(self).wf(),
            (final(self)@, step@) == model::confirmed(old(self)@, old(self)@.mode->Prompt_0),
    {
        // Taken out so the plan can be edited; put back if the name is unusable.
        let mut taken = Mode::Normal;
        std::mem::swap(&mut self.mode, &mut taken);
        let prompt = match taken {
            Mode::Prompt(prompt) => prompt,
            other => {
                proof {
                    assert(false);
                }
                self.mode = other;
                return nothing();
            },
        };
        let name = trim(prompt.input.as_str());
        // Neither of these types a file name, so neither goes through the name
        // check that refuses slashes: a search has already moved the cursor as it
        // was typed, and a jump hands its words to zoxide.
        match prompt.action {
            PromptAction::Search { origin } => {
                return nothing();
            },
            PromptAction::Jump => {
                return self.jump(name);
            },
            _ => {},
        }
        match validate_name(name.as_str()) {
            Some(problem) => {
                let said = cat3(quoted(name.as_str()).as_str(), " is ", problem.as_str());
                self.mode = Mode::Prompt(prompt);
                return staying(telling(LogLevel::Warn, said));
            },
            None => {},
        }
        let path = self.current_dir.join(name.as_str());
        match prompt.action {
            PromptAction::CreateFile => {
                let _ = self.plan.push(Op::CreateFile(path));
            },
            PromptAction::CreateDir => {
                let _ = self.plan.push(Op::CreateDir(path));
            },
            PromptAction::Rename(from) => {
                let _ = self.plan.push(Op::Move { from, to: path });
            },
            PromptAction::Retarget(row) => {
                self.retarget(row, name.as_str());
                self.mode = Mode::Review;
            },
            PromptAction::Jump => {},
            PromptAction::Search { origin } => {},
        }
        nothing()
    }

    /// Changes where staged operation `row` writes to, if there is one.
    fn retarget(&mut self, row: usize, name: &str)
        ensures
            final(self)@ == (NavView {
                plan: if row < old(self)@.plan.len() {
                    old(self)@.plan.update(
                        row as int,
                        plan::StagedView {
                            op: old(self)@.plan[row as int].op.retargeted(name@),
                            ..old(self)@.plan[row as int]
                        },
                    )
                } else {
                    old(self)@.plan
                },
                ..old(self)@
            }),
            final(self).memory == old(self).memory,
            final(self).marks == old(self).marks,
    {
        let ghost before = self.plan@;
        match self.plan.get_mut(row) {
            Some(staged) => {
                staged.op.retarget(name);
            },
            None => {},
        }
        proof {
            if row < before.len() {
                assert(self.plan@ =~= before.update(
                    row as int,
                    plan::StagedView {
                        op: before[row as int].op.retargeted(name@),
                        ..before[row as int]
                    },
                ));
            }
        }
    }

    /// Goes wherever zoxide ranks `query` highest.
    ///
    /// A query it does not know, or one whose directory has since been removed,
    /// leaves the navigator where it is with the reason on the status line.
    fn jump(&mut self, query: String) -> (step: Step)
        requires
            old(self).wf(),
            old(self)@.pending is Idle,
            old(self)@.mode is Normal,
        ensures
            final(self).wf(),
            (final(self)@, step@) == if query@.len() == 0 {
                (old(self)@, model::stays(Seq::empty()))
            } else {
                model::asks(
                    old(self)@,
                    Seq::empty(),
                    model::RequestView::FindDir(zoxide::query_arguments(query@)),
                    model::PendingView::Jumping { terms: query@ },
                )
            },
    {
        if query.as_str().is_empty() {
            return nothing();
        }
        let arguments = zoxide::arguments(query.as_str());
        self.ask(silent(), Request::FindDir(arguments), Pending::Jumping { terms: query })
    }
}

} // verus!
