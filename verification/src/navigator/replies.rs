//! What every answer leads to.
use crate::error::{Errx, Fault, Resultx};
use crate::io::clipboard::{self, copied, copy_file};
use crate::io::dir::{self, read_dir_with_dots, DirEntry, RawListing};
use crate::io::fs_ops::{self, Presence};
use crate::io::nvim;
use crate::io::zoxide;
use crate::io::Output;
use crate::logging::store::LogLevel;
use crate::marks;
use crate::navigator::model;
use crate::navigator::{
    index_of, nothing, result_view, silent, staying, telling, Mode, Navigator, Next, Outcome,
    Pending, Reply, Request, Step,
};
use crate::notice::{self, say, Notice, NoticeView};
use crate::path::{self, FilePath};
use crate::plan::{self, Op};
use crate::text::{cat, cat3, decimal, lossy};
use vstd::prelude::*;

verus! {

broadcast use {vstd::seq::group_seq_axioms, vstd::seq_lib::group_seq_properties};

/// A row of the listing that was searched is a row of it.
proof fn lemma_row_of(entries: Seq<dir::EntryView>, name: Option<Seq<char>>)
    ensures
        model::row_of(entries, name) matches Some(row) ==> 0 <= row < entries.len(),
{
    match name {
        Some(name) => lemma_row_named(entries, name, 0),
        None => {},
    }
}

/// A row that bears a name is a row of the listing.
pub proof fn lemma_row_named(entries: Seq<dir::EntryView>, name: Seq<char>, from: int)
    requires
        0 <= from,
    ensures
        model::row_named(entries, name, from) matches Some(row) ==> from <= row < entries.len()
            && entries[row].name == name,
    decreases entries.len() - from,
{
    if from < entries.len() && entries[from].name != name {
        lemma_row_named(entries, name, from + 1);
    }
}

/// How running the plan went.
fn tell_plan_ran(notices: &mut Vec<Notice>, failed: usize)
    ensures
        notice::notice_views(final(notices)@) == notice::notice_views(old(notices)@).push(
            model::plan_ran(failed as nat),
        ),
{
    if failed == 0 {
        say(notices, LogLevel::Info, "Plan applied".to_owned());
    } else {
        say(
            notices,
            LogLevel::Error,
            cat(
                decimal(failed as u64).as_str(),
                " operation(s) failed and are still staged",
            ),
        );
    }
}

/// Which operations of the plan are blocked.
fn blocked_flags(ops: &Vec<&Op>, presence: &Vec<Presence>) -> (flags: Vec<bool>)
    requires
        ops@.len() == presence@.len(),
    ensures
        flags@.len() == ops@.len(),
        forall|i: int|
            0 <= i < flags@.len() ==> #[trigger] flags@[i] == (fs_ops::blocked_by(
                ops@[i]@,
                presence@[i],
            ) is Some),
{
    let mut flags: Vec<bool> = Vec::new();
    let mut i: usize = 0;
    while i < ops.len()
        invariant
            i <= ops@.len(),
            ops@.len() == presence@.len(),
            flags@.len() == i,
            forall|k: int|
                0 <= k < i ==> #[trigger] flags@[k] == (fs_ops::blocked_by(
                    ops@[k]@,
                    presence@[k],
                ) is Some),
        decreases ops.len() - i,
    {
        flags.push(fs_ops::problem(ops[i], presence[i]).is_some());
        i = i + 1;
    }
    flags
}

impl Navigator {
    /// Whether `reply` answers what the navigator waits for.
    pub fn expects(&self, reply: &Reply) -> (does: bool)
        ensures
            does == model::answered_by(self@, reply@),
    {
        match (&self.pending, reply) {
            (Pending::Going { path, jumping }, Reply::Listed(_)) => true,
            (Pending::Opening { path }, Reply::Socket(_)) => true,
            (Pending::Editing, Reply::EditorRan(_)) => true,
            (Pending::Jumping { terms }, Reply::DirFound(_)) => true,
            (Pending::Dropping, Reply::Probed(presence)) => presence.len() == self.plan.len(),
            (Pending::Checking, Reply::Probed(presence)) => presence.len() == self.plan.len(),
            (Pending::Running { done, failures }, Reply::Applied(_)) => true,
            (Pending::Refreshing { failed }, Reply::Listed(_)) => true,
            (Pending::Retreating { gone, at, failed }, Reply::Listed(_)) => true,
            (Pending::Reading { path }, Reply::FileRead { contents, inside_tmux }) => true,
            (Pending::Sending { bytes }, Reply::Sent(_)) => true,
            _ => false,
        }
    }

    /// Takes the answer to what was asked. It may lead to the next question.
    pub fn resume(&mut self, reply: Reply) -> (step: Step)
        requires
            old(self).wf(),
            model::answered_by(old(self)@, reply@),
        ensures
            final(self).wf(),
            (final(self)@, step@) == model::resumed(old(self)@, reply@),
            step@.next is Done ==> final(self)@.pending is Idle,
    {
        let ghost before = self@;
        let mut pending = Pending::Idle;
        std::mem::swap(&mut self.pending, &mut pending);
        proof {
            assert(self@ == model::idle(before));
        }
        match (pending, reply) {
            (Pending::Going { path, jumping }, Reply::Listed(answer)) => self.gone_to(
                path,
                jumping,
                answer,
            ),
            (Pending::Opening { path }, Reply::Socket(socket)) => self.open_in(&path, socket),
            (Pending::Editing, Reply::EditorRan(ran)) => self.opened(ran),
            (Pending::Jumping { terms }, Reply::DirFound(ran)) => self.jump_found(&terms, ran),
            (Pending::Dropping, Reply::Probed(presence)) => {
                self.drop_blocked(&presence);
                nothing()
            },
            (Pending::Checking, Reply::Probed(presence)) => self.apply_plan(&presence),
            (Pending::Running { done, failures }, Reply::Applied(result)) => self.applied(
                done,
                failures,
                result,
            ),
            (Pending::Refreshing { failed }, Reply::Listed(answer)) => self.refresh(
                failed,
                answer,
            ),
            (Pending::Retreating { gone, at, failed }, Reply::Listed(answer)) => self.retreat_to(
                gone,
                at,
                failed,
                answer,
            ),
            (
                Pending::Reading { path },
                Reply::FileRead { contents, inside_tmux },
            ) => self.file_read(&path, contents, inside_tmux),
            (Pending::Sending { bytes }, Reply::Sent(taken)) => self.sent(bytes, taken),
            (left, _) => {
                proof {
                    assert(false);
                }
                self.pending = left;
                nothing()
            },
        }
    }

    /// Switches to `path`, saving the cursor position here and restoring it there.
    ///
    /// Every directory change goes through this, so saving and restoring happen in
    /// one place rather than at each call site.
    fn arrive(&mut self, path: FilePath, entries: Vec<DirEntry>)
        requires
            old(self).wf(),
            old(self)@.pending is Idle,
            !model::searching(old(self)@.mode),
        ensures
            final(self).wf(),
            final(self)@ == model::arrives(old(self)@, path@, dir::entry_views(entries@)),
    {
        let ghost listed = dir::entry_views(entries@);
        if self.selected < self.entries.len() {
            proof {
                assert(self@.entries[self.selected as int] == self.entries@[self.selected as int]@);
            }
            self.memory.remember(
                &self.current_dir,
                self.entries[self.selected].name.as_str(),
            );
        }
        let ghost memory = self.memory@;
        proof {
            assert(memory == model::remembering(old(self)@));
            lemma_row_of(listed, model::recalled(memory, path@));
            lemma_row_of(listed, model::came_from(self.current_dir@, path@));
        }
        let mut landed: Option<usize> = None;
        match self.memory.recall(&path) {
            Some(name) => {
                landed = index_of(&entries, name);
            },
            None => {},
        }
        // Only reached when `path` has never been visited: on the way up out of a
        // directory we started in, that directory is still where we just were.
        if landed.is_none() {
            match self.current_dir.first_below(&path) {
                Some(name) => {
                    landed = index_of(&entries, lossy(name.as_slice()).as_str());
                },
                None => {},
            }
        }
        self.selected = match landed {
            Some(row) => row,
            None => 0,
        };
        self.entries = entries;
        self.current_dir = path;
        self.scroll_offset = 0;
        self.cached_image = None;
    }

    /// Goes to `path`, if its listing could be read.
    fn gone_to(&mut self, path: FilePath, jumping: bool, answer: RawListing) -> (step: Step)
        requires
            old(self).wf(),
            old(self)@.pending is Idle,
            !model::searching(old(self)@.mode),
        ensures
            final(self).wf(),
            final(self)@.pending is Idle,
            (final(self)@, step@) == model::gone_to(
                old(self)@,
                path@,
                jumping,
                dir::raw_listing_view(answer),
            ),
    {
        let mut notices = silent();
        let found = read_dir_with_dots(&path, answer, &mut notices);
        proof {
            let told = dir::listing_told(path@, dir::raw_listing_view(answer));
            assert(Seq::<NoticeView>::empty() + told =~= told);
            assert(model::idle(self@) == self@);
        }
        match found {
            Ok(entries) => {
                self.arrive(path, entries);
                staying(notices)
            },
            Err(errx) => {
                let level = if jumping {
                    LogLevel::Warn
                } else {
                    LogLevel::Error
                };
                say(&mut notices, level, errx.to_text());
                staying(notices)
            },
        }
    }

    /// It is known which neovim to open a file in, if any.
    fn open_in(&mut self, path: &FilePath, socket: Option<String>) -> (step: Step)
        requires
            old(self).wf(),
            old(self)@.pending is Idle,
            !model::searching(old(self)@.mode),
        ensures
            final(self).wf(),
            step@.next is Done ==> final(self)@.pending is Idle,
            (final(self)@, step@) == model::socket_known(
                old(self)@,
                path@,
                match socket {
                    Some(socket) => Some(socket@),
                    None => None,
                },
            ),
    {
        let mut notices = silent();
        let given = match &socket {
            Some(socket) => Some(socket.as_str()),
            None => None,
        };
        let arguments = nvim::open(path, given, &mut notices);
        proof {
            let told = nvim::open_told(
                path@,
                match socket {
                    Some(socket) => Some(socket@),
                    None => None,
                },
            );
            assert(Seq::<NoticeView>::empty() + told =~= told);
            assert(model::idle(self@) == self@);
        }
        match arguments {
            Some(arguments) => self.ask(
                notices,
                Request::RunEditor(arguments),
                Pending::Editing,
            ),
            None => staying(notices),
        }
    }

    /// Neovim has been run. The session is over when it took the file.
    fn opened(&mut self, ran: Result<Output, Fault>) -> (step: Step)
        requires
            old(self).wf(),
            old(self)@.pending is Idle,
        ensures
            final(self).wf(),
            final(self)@.pending is Idle,
            (final(self)@, step@) == model::editor_ran(old(self)@, nvim::ran_view(ran)),
    {
        let mut notices = silent();
        let took = nvim::opened(ran, &mut notices);
        proof {
            let told = nvim::opened_told(nvim::ran_view(ran));
            assert(Seq::<NoticeView>::empty() + told =~= told);
            assert(model::idle(self@) == self@);
        }
        match took {
            Ok(true) => Step { notices, next: Next::Done(Outcome::Quit) },
            Ok(false) => staying(notices),
            Err(errx) => {
                say(&mut notices, LogLevel::Error, errx.to_text());
                staying(notices)
            },
        }
    }

    /// Zoxide has been run.
    fn jump_found(&mut self, terms: &String, ran: Result<Output, Fault>) -> (step: Step)
        requires
            old(self).wf(),
            old(self)@.pending is Idle,
            !model::searching(old(self)@.mode),
        ensures
            final(self).wf(),
            step@.next is Done ==> final(self)@.pending is Idle,
            (final(self)@, step@) == model::dir_found(old(self)@, terms@, nvim::ran_view(ran)),
    {
        let mut notices = silent();
        let found = zoxide::query(terms.as_str(), ran, &mut notices);
        proof {
            let told = zoxide::query_told(nvim::ran_view(ran));
            assert(Seq::<NoticeView>::empty() + told =~= told);
            assert(model::idle(self@) == self@);
        }
        match found {
            Ok(path) => {
                say(
                    &mut notices,
                    LogLevel::Info,
                    cat("Jumping to ", path.display().as_str()),
                );
                self.go_to(notices, path, true)
            },
            Err(errx) => {
                say(&mut notices, LogLevel::Warn, errx.to_text());
                staying(notices)
            },
        }
    }

    /// Drops every operation that is blocked.
    fn drop_blocked(&mut self, presence: &Vec<Presence>)
        requires
            old(self).wf(),
            old(self)@.pending is Idle,
            presence@.len() == old(self)@.plan.len(),
        ensures
            final(self).wf(),
            final(self)@.pending is Idle,
            final(self)@ == model::drops_blocked(old(self)@, presence@),
    {
        let flags = blocked_flags(&self.plan.ops(), presence);
        proof {
            assert(flags@ =~= model::blocked(self@.plan, presence@));
            assert(model::idle(self@) == self@);
        }
        self.plan.drop_flagged(&flags);
        self.clamp_review();
    }

    /// Runs every staged operation in order, unless one of them is blocked.
    ///
    /// A filesystem has no transactions, so stopping at the first failure would
    /// leave a half-applied plan with no account of which half.
    fn apply_plan(&mut self, presence: &Vec<Presence>) -> (step: Step)
        requires
            old(self).wf(),
            old(self)@.pending is Idle,
            !model::searching(old(self)@.mode),
            presence@.len() == old(self)@.plan.len(),
        ensures
            final(self).wf(),
            step@.next is Done ==> final(self)@.pending is Idle,
            (final(self)@, step@) == model::checked(old(self)@, presence@),
    {
        proof {
            assert(model::idle(self@) == self@);
        }
        let ops = self.plan.ops();
        let flags = blocked_flags(&ops, presence);
        let mut i: usize = 0;
        while i < flags.len()
            invariant
                i <= flags@.len(),
                *self == *old(self),
                flags@.len() == self@.plan.len(),
                presence@.len() == self@.plan.len(),
                forall|k: int|
                    0 <= k < flags@.len() ==> #[trigger] flags@[k] == (fs_ops::blocked_by(
                        self@.plan[k].op,
                        presence@[k],
                    ) is Some),
                forall|k: int| 0 <= k < i ==> !#[trigger] flags@[k],
                model::idle(self@) == self@,
                self.wf(),
                self@.pending is Idle,
            decreases flags.len() - i,
        {
            if flags[i] {
                proof {
                    assert(flags@[i as int]);
                    assert(fs_ops::blocked_by(self@.plan[i as int].op, presence@[i as int]) is Some);
                    assert(model::any_blocked(self@.plan, presence@));
                }
                return staying(
                    telling(
                        LogLevel::Warn,
                        "Blocked operations in the plan - drop them with x or X".to_owned(),
                    ),
                );
            }
            i = i + 1;
        }
        proof {
            assert(!model::any_blocked(self@.plan, presence@)) by {
                assert forall|k: int| 0 <= k < self@.plan.len() implies !(fs_ops::blocked_by(
                    (#[trigger] self@.plan[k]).op,
                    presence@[k],
                ) is Some) by {
                    assert(!flags@[k]);
                }
            }
        }
        let failures: Vec<(Op, String)> = Vec::new();
        proof {
            assert(plan::failure_views(failures@) =~= Seq::empty());
        }
        self.run_from(silent(), 0, failures)
    }

    /// Runs the operation at `done`, or takes stock when there are no more.
    fn run_from(
        &mut self,
        notices: Vec<Notice>,
        done: usize,
        failures: Vec<(Op, String)>,
    ) -> (step: Step)
        requires
            old(self).wf(),
            old(self)@.pending is Idle,
            !model::searching(old(self)@.mode),
        ensures
            final(self).wf(),
            step@.next is Ask,
            (final(self)@, step@) == model::runs_from(
                old(self)@,
                notice::notice_views(notices@),
                done as int,
                plan::failure_views(failures@),
            ),
    {
        if done < self.plan.len() {
            proof {
                assert(self@.plan[done as int] == self.plan.staged@[done as int]@);
            }
            let op = self.plan.staged[done].op.clone();
            return self.ask(notices, Request::Apply(op), Pending::Running { done, failures });
        }
        let failed: usize = failures.len();
        self.plan.keep_failures(failures);
        self.marks.clear();
        self.mode = if failed == 0 {
            Mode::Normal
        } else {
            Mode::Review
        };
        self.clamp_review();
        let here = self.current_dir.clone();
        self.ask(notices, Request::ListDir(here), Pending::Refreshing { failed })
    }

    /// One operation has been run.
    fn applied(
        &mut self,
        done: usize,
        failures: Vec<(Op, String)>,
        result: Resultx<()>,
    ) -> (step: Step)
        requires
            old(self).wf(),
            old(self)@.pending is Idle,
            !model::searching(old(self)@.mode),
            done < old(self)@.plan.len(),
        ensures
            final(self).wf(),
            step@.next is Ask,
            (final(self)@, step@) == model::applied(
                old(self)@,
                done as int,
                plan::failure_views(failures@),
                result_view(result),
            ),
    {
        let mut failures = failures;
        let ghost before = plan::failure_views(failures@);
        let size: usize = self.plan.len();
        match result {
            Ok(()) => self.run_from(silent(), done + 1, failures),
            Err(errx) => {
                let words = errx.to_text();
                proof {
                    assert(self@.plan[done as int] == self.plan.staged@[done as int]@);
                }
                let op = self.plan.staged[done].op.clone();
                let notices = telling(LogLevel::Error, words.clone());
                failures.push((op, words));
                proof {
                    assert(plan::failure_views(failures@) =~= before.push(
                        (self@.plan[done as int].op, errx@.words()),
                    ));
                }
                self.run_from(notices, done + 1, failures)
            },
        }
    }

    /// Takes a new listing of the current directory, keeping the cursor on the same
    /// entry when it is still there.
    ///
    /// The directory itself can be gone, trashed from inside it, or removed by
    /// something else, which leaves nowhere to stand. That falls back to the
    /// nearest ancestor still there rather than showing a listing of a directory
    /// that no longer exists.
    fn refresh(&mut self, failed: usize, answer: RawListing) -> (step: Step)
        requires
            old(self).wf(),
            old(self)@.pending is Idle,
            !model::searching(old(self)@.mode),
        ensures
            final(self).wf(),
            step@.next is Done ==> final(self)@.pending is Idle,
            (final(self)@, step@) == model::relisted(
                old(self)@,
                failed as nat,
                dir::raw_listing_view(answer),
            ),
    {
        let mut notices = silent();
        let found = read_dir_with_dots(&self.current_dir, answer, &mut notices);
        proof {
            let told = dir::listing_told(self@.current_dir, dir::raw_listing_view(answer));
            assert(Seq::<NoticeView>::empty() + told =~= told);
            assert(model::idle(self@) == self@);
        }
        match found {
            Ok(entries) => {
                let mut row: Option<usize> = None;
                if self.selected < self.entries.len() {
                    proof {
                        assert(self@.entries[self.selected as int]
                            == self.entries@[self.selected as int]@);
                    }
                    row = index_of(&entries, self.entries[self.selected].name.as_str());
                }
                self.selected = match row {
                    Some(row) => row,
                    None => 0,
                };
                self.entries = entries;
                self.cached_image = None;
                tell_plan_ran(&mut notices, failed);
                staying(notices)
            },
            Err(_) => {
                let here = self.current_dir.clone();
                say(
                    &mut notices,
                    LogLevel::Warn,
                    cat(here.display().as_str(), " is gone"),
                );
                let below = self.current_dir.clone();
                self.retreat(notices, here, &below, failed)
            },
        }
    }

    /// Asks for the directory above `below`, or gives up where there is none.
    fn retreat(
        &mut self,
        notices: Vec<Notice>,
        gone: FilePath,
        below: &FilePath,
        failed: usize,
    ) -> (step: Step)
        requires
            old(self).wf(),
            old(self)@.pending is Idle,
            !model::searching(old(self)@.mode),
        ensures
            final(self).wf(),
            step@.next is Done ==> final(self)@.pending is Idle,
            (final(self)@, step@) == model::retreats(
                old(self)@,
                notice::notice_views(notices@),
                gone@,
                below@,
                failed as nat,
            ),
    {
        proof {
            assert(model::idle(self@) == self@);
        }
        match below.parent() {
            Some(above) => self.ask(
                notices,
                Request::ListDir(above.clone()),
                Pending::Retreating { gone, at: above, failed },
            ),
            None => {
                let mut notices = notices;
                let errx = Errx::any(
                    cat3("nothing above ", gone.display().as_str(), " can be read"),
                );
                say(&mut notices, LogLevel::Error, errx.to_text());
                staying(notices)
            },
        }
    }

    /// Goes to the nearest ancestor that can still be read.
    fn retreat_to(
        &mut self,
        gone: FilePath,
        at: FilePath,
        failed: usize,
        answer: RawListing,
    ) -> (step: Step)
        requires
            old(self).wf(),
            old(self)@.pending is Idle,
            !model::searching(old(self)@.mode),
        ensures
            final(self).wf(),
            step@.next is Done ==> final(self)@.pending is Idle,
            (final(self)@, step@) == model::retreated(
                old(self)@,
                gone@,
                at@,
                failed as nat,
                dir::raw_listing_view(answer),
            ),
    {
        let mut notices = silent();
        let found = read_dir_with_dots(&at, answer, &mut notices);
        proof {
            let told = dir::listing_told(at@, dir::raw_listing_view(answer));
            assert(Seq::<NoticeView>::empty() + told =~= told);
            assert(model::idle(self@) == self@);
        }
        match found {
            Ok(entries) => {
                self.arrive(at, entries);
                tell_plan_ran(&mut notices, failed);
                staying(notices)
            },
            Err(_) => self.retreat(notices, gone, &at, failed),
        }
    }

    /// The contents of a file for the clipboard have come.
    fn file_read(
        &mut self,
        path: &FilePath,
        contents: Result<Vec<u8>, Fault>,
        inside_tmux: bool,
    ) -> (step: Step)
        requires
            old(self).wf(),
            old(self)@.pending is Idle,
            !model::searching(old(self)@.mode),
        ensures
            final(self).wf(),
            step@.next is Done ==> final(self)@.pending is Idle,
            (final(self)@, step@) == model::file_read(
                old(self)@,
                path@,
                clipboard::contents_view(contents),
                inside_tmux,
            ),
    {
        proof {
            assert(model::idle(self@) == self@);
        }
        match copy_file(path, contents, inside_tmux) {
            Ok(going) => self.ask(
                silent(),
                Request::Send(going.sequence),
                Pending::Sending { bytes: going.bytes },
            ),
            Err(errx) => staying(telling(LogLevel::Warn, errx.to_text())),
        }
    }

    /// The terminal has taken them, or not.
    fn sent(&mut self, bytes: usize, taken: Result<(), Fault>) -> (step: Step)
        requires
            old(self).wf(),
            old(self)@.pending is Idle,
        ensures
            final(self).wf(),
            final(self)@.pending is Idle,
            (final(self)@, step@) == model::sent(
                old(self)@,
                bytes as nat,
                clipboard::sent_view(taken),
            ),
    {
        proof {
            assert(model::idle(self@) == self@);
        }
        match copied(bytes, taken) {
            Ok(count) => staying(
                telling(
                    LogLevel::Info,
                    cat3(
                        "Copied ",
                        decimal(count as u64).as_str(),
                        " bytes to the clipboard",
                    ),
                ),
            ),
            Err(errx) => staying(telling(LogLevel::Warn, errx.to_text())),
        }
    }
}

} // verus!
