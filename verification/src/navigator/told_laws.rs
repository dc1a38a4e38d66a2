//! What is said of what was done.
use crate::error::FaultView;
use crate::io::dir::{self, RawListingView};
use crate::io::file::{self, HeadFaultView};
use crate::io::OutputView;
use crate::logging::store::LogLevel;
use crate::marks;
use crate::navigator::frame_laws;
use crate::navigator::model::{self, NavView, NextView, PendingView, ReplyView, RequestView};
use crate::navigator::staging_laws;
use crate::navigator::{KeyCode, KeyEvent, Outcome};
use crate::notice::NoticeView;
use crate::path;
use crate::plan::{self, OpView, StagedView};
use crate::text;
use vstd::prelude::*;

verus! {

broadcast use {vstd::seq::group_seq_axioms, vstd::seq_lib::group_seq_properties};

proof fn lemma_growth(staged: Seq<StagedView>, ops: Seq<OpView>)
    ensures
        model::staged_all(staged, ops).len() == staged.len() + model::newly_staged(staged, ops),
    decreases ops.len(),
{
    if ops.len() > 0 {
        lemma_growth(staged, ops.drop_last());
    }
}

/// How many operations are said to be staged is how many more there are in the plan.
pub proof fn law_staging_says_how_many(s: NavView, key: KeyEvent, log_len: Option<int>)
    ensures
        ({
            let (after, step) = model::pressed(s, key, log_len);
            let more = (after.plan.len() - s.plan.len()) as nat;
            &&& staging_laws::letter(s, key, 'c') || staging_laws::letter(s, key, 'm')
                ==> after.plan.len() >= s.plan.len() && step.notices == seq![
                NoticeView {
                    level: LogLevel::Info,
                    text: "Staged "@ + text::decimal_text(more) + " operation(s) into "@
                        + text::lossy_text(s.current_dir),
                },
            ]
            &&& staging_laws::letter(s, key, 'd') ==> after.plan.len() >= s.plan.len()
                && step.notices == seq![
                NoticeView {
                    level: LogLevel::Info,
                    text: "Staged "@ + text::decimal_text(more) + " for the trash"@,
                },
            ]
        }),
{
    lemma_growth(s.plan, model::ops_into(model::targets(s), s.current_dir, true));
    lemma_growth(s.plan, model::ops_into(model::targets(s), s.current_dir, false));
    lemma_growth(s.plan, model::trash_ops(model::targets(s)));
}

/// What esc takes back, it says, and how much of it there was.
pub proof fn law_esc_says_what_it_took_back(s: NavView, key: KeyEvent, log_len: Option<int>)
    requires
        s.mode is Normal,
        key.code == KeyCode::Esc,
    ensures
        ({
            let (after, step) = model::pressed(s, key, log_len);
            &&& step.next == NextView::Done(Outcome::Stay)
            &&& after == s ==> step.notices.len() == 0
            &&& after.search != s.search ==> step.notices == seq![
                NoticeView {
                    level: LogLevel::Info,
                    text: "Cleared the search for "@ + text::quoted_text(s.search),
                },
            ]
            &&& after.marks != s.marks ==> step.notices == seq![
                NoticeView {
                    level: LogLevel::Info,
                    text: "Cleared "@ + text::decimal_text(s.marks.len()) + " marks"@,
                },
            ]
            &&& after.plan != s.plan ==> step.notices == seq![
                NoticeView {
                    level: LogLevel::Info,
                    text: "Discarded "@ + text::decimal_text(s.plan.len())
                        + " staged operation(s)"@,
                },
            ]
        }),
{
}

/// Whether an entry was marked or unmarked is said as it is: it is marked afterwards exactly
/// when that is what is said.
pub proof fn law_marking_says_which(s: NavView, key: KeyEvent, log_len: Option<int>, here: Seq<u8>)
    requires
        s.wf(),
        staging_laws::letter(s, key, ' '),
        model::cursor_path(s) == Some(here),
    ensures
        ({
            let (after, step) = model::pressed(s, key, log_len);
            step.notices == seq![
                NoticeView {
                    level: LogLevel::Info,
                    text: (if frame_laws::is_one_of(here, after.marks) {
                        "Marked "@
                    } else {
                        "Unmarked "@
                    }) + text::lossy_text(here),
                },
            ]
        }),
{
    marks::law_toggle_changes_one_mark(s.marks, here);
    let after = model::pressed(s, key, log_len).0;
    assert(marks::holds(after.marks, here) == frame_laws::is_one_of(here, after.marks)) by {
        if frame_laws::is_one_of(here, after.marks) {
            let i = choose|i: int|
                0 <= i < after.marks.len() && path::components(#[trigger] after.marks[i])
                    == path::components(here);
            assert(plan::same_path(after.marks[i], here));
        }
    }
}

/// When the last operation has been run, it is known how many failed, and once the directory
/// has been read again that is said.
pub proof fn law_failures_are_counted(
    s: NavView,
    done: int,
    failures: Seq<(OpView, Seq<char>)>,
    result: Result<(), crate::error::ErrxView>,
    answer: RawListingView,
)
    requires
        s.pending == (PendingView::Running { done, failures }),
        done + 1 == s.plan.len(),
        s.review_selected >= 0,
        done >= 0,
    ensures
        ({
            let (stock, _) = model::resumed(s, ReplyView::Applied(result));
            let (after, step) = model::resumed(stock, ReplyView::Listed(answer));
            let failed = failures.len() + if result is Ok {
                0nat
            } else {
                1nat
            };
            &&& stock.pending == (PendingView::Refreshing { failed })
            &&& stock.plan.len() == failed
            &&& failed > 0 ==> 0 <= stock.review_selected < failed
            &&& answer is Ok ==> step.notices.len() > 0 && step.notices.last() == if failed == 0 {
                NoticeView { level: LogLevel::Info, text: "Plan applied"@ }
            } else {
                NoticeView {
                    level: LogLevel::Error,
                    text: text::decimal_text(failed) + " operation(s) failed and are still staged"@,
                }
            }
        }),
{
}

/// Where the directory being viewed is gone, the one above it that can be read is come to as
/// if it had been gone to by hand.
pub proof fn law_a_retreat_lands_like_a_visit(
    s: NavView,
    gone: Seq<u8>,
    at: Seq<u8>,
    failed: nat,
    answer: RawListingView,
)
    requires
        s.pending == (PendingView::Retreating { gone, at, failed }),
        answer is Ok,
    ensures
        model::resumed(s, ReplyView::Listed(answer)).0 == model::resumed(
            NavView { pending: PendingView::Going { path: at, jumping: false }, ..s },
            ReplyView::Listed(answer),
        ).0,
{
}

/// Where no directory above can be read either, and none is left to try, the navigator stays
/// as it is and says so.
pub proof fn law_a_retreat_gives_up_at_the_top(
    s: NavView,
    gone: Seq<u8>,
    at: Seq<u8>,
    failed: nat,
    answer: RawListingView,
)
    requires
        s.pending == (PendingView::Retreating { gone, at, failed }),
        answer is Err,
        path::components(at).len() == 0 || path::components(at) == seq![seq![47u8]],
    ensures
        ({
            let (after, step) = model::resumed(s, ReplyView::Listed(answer));
            &&& after == (NavView { pending: PendingView::Idle, ..s })
            &&& step.next == NextView::Done(Outcome::Stay)
            &&& step.notices.len() > 0
            &&& step.notices.last().level == LogLevel::Error
        }),
{
    crate::path_laws::law_parent_drops_the_last_component(at);
}

/// The session is over exactly when neovim ran and took the file. If it could not be run,
/// that is said; either way nothing is waited for any more.
pub proof fn law_the_session_ends_when_the_file_is_taken(
    s: NavView,
    ran: Result<OutputView, FaultView>,
)
    requires
        s.pending is Editing,
    ensures
        ({
            let (after, step) = model::resumed(s, ReplyView::EditorRan(ran));
            &&& after == (NavView { pending: PendingView::Idle, ..s })
            &&& step.next == NextView::Done(
                if ran is Ok && ran->Ok_0.success {
                    Outcome::Quit
                } else {
                    Outcome::Stay
                },
            )
            &&& step.notices.len() > 0
            &&& (step.notices.last().level == LogLevel::Info) == (ran is Ok && ran->Ok_0.success)
            &&& ran matches Ok(output) ==> (output.stderr.len() > 0) == (step.notices.len() == 2)
            &&& ran matches Ok(output) ==> output.stderr.len() > 0 ==> step.notices[0].level
                == LogLevel::Error && step.notices[0].text == "nvim: "@ + text::trimmed(
                text::lossy_text(output.stderr),
            )
        }),
{
}

/// A directory that cannot be read is said to be so: as an error where it was entered, and
/// as a warning where it was jumped to.
pub proof fn law_an_unreadable_directory_is_told(
    s: NavView,
    path: Seq<u8>,
    jumping: bool,
    answer: RawListingView,
)
    requires
        s.pending == (PendingView::Going { path, jumping }),
        answer is Err,
    ensures
        ({
            let step = model::resumed(s, ReplyView::Listed(answer)).1;
            &&& step.next == NextView::Done(Outcome::Stay)
            &&& step.notices.len() > 0
            &&& step.notices.last().level == if jumping {
                LogLevel::Warn
            } else {
                LogLevel::Error
            }
        }),
{
}

/// Going somewhere is told, with where it leads.
pub proof fn law_going_somewhere_is_told(s: NavView, key: KeyEvent, log_len: Option<int>)
    requires
        s.mode is Normal,
    ensures
        ({
            let step = model::pressed(s, key, log_len).1;
            &&& step.next matches NextView::Ask(RequestView::ListDir(path)) ==> ({
                ||| step.notices == seq![
                    NoticeView {
                        level: LogLevel::Info,
                        text: "Going to parent: "@ + text::lossy_text(path),
                    },
                ]
                ||| step.notices == seq![
                    NoticeView {
                        level: LogLevel::Info,
                        text: "Entering directory: "@ + text::lossy_text(path),
                    },
                ] && key.code != KeyCode::Char('h') && key.code != KeyCode::Char('-')
            })
        }),
{
}

/// Reading a directory is told, and so is why it could not be read.
pub proof fn law_reading_a_directory_is_told(at: Seq<u8>, answer: RawListingView)
    ensures
        dir::listing_told(at, answer).len() > 0,
        dir::listing_told(at, answer)[0] == (NoticeView {
            level: LogLevel::Debug,
            text: "Reading directory: "@ + text::lossy_text(at),
        }),
        answer is Ok ==> dir::listing_told(at, answer).len() == 1,
        answer matches Err(fault) ==> dir::listing_told(at, answer).len() == 2
            && dir::listing_told(at, answer)[1] == (NoticeView {
            level: LogLevel::Error,
            text: "Failed to read directory "@ + text::lossy_text(at) + ": "@ + fault.text,
        }),
{
}

/// Where a jump leads is told, after whatever zoxide complained of.
pub proof fn law_a_jump_is_told(
    s: NavView,
    terms: Seq<char>,
    ran: Result<OutputView, FaultView>,
)
    requires
        s.pending == (PendingView::Jumping { terms }),
    ensures
        ({
            let step = model::resumed(s, ReplyView::DirFound(ran)).1;
            &&& step.notices.len() > 0
            &&& step.next matches NextView::Ask(RequestView::ListDir(path)) ==> step.notices.last()
                == (NoticeView {
                level: LogLevel::Info,
                text: "Jumping to "@ + text::lossy_text(path),
            })
            &&& step.notices.len() == if ran is Ok && ran->Ok_0.stderr.len() > 0 {
                2int
            } else {
                1
            }
            &&& ran is Ok && ran->Ok_0.stderr.len() > 0 ==> step.notices[0] == (NoticeView {
                level: LogLevel::Debug,
                text: "zoxide: "@ + text::trimmed(text::lossy_text(ran->Ok_0.stderr)),
            })
        }),
{
}

/// A file that is too large for the clipboard is told to be, with its size in whole KiB, and
/// one that is not text is told to be none.
pub proof fn law_what_cannot_be_copied_is_told(
    s: NavView,
    at: Seq<u8>,
    data: Seq<u8>,
    inside_tmux: bool,
    size: nat,
)
    requires
        s.pending == (PendingView::Reading { path: at }),
        size * 1024 <= data.len() < (size + 1) * 1024,
    ensures
        ({
            let step = model::resumed(
                s,
                ReplyView::FileRead { contents: Ok(data), inside_tmux },
            ).1;
            &&& data.len() > 49152 ==> step.notices == seq![
                NoticeView {
                    level: LogLevel::Warn,
                    text: "Any: "@ + (plan::shown_name(at) + " is "@ + text::decimal_text(size)
                        + " KiB, over the 48 KiB clipboard limit"@),
                },
            ]
            &&& data.len() <= 49152 && !file::is_text(data) ==> step.notices == seq![
                NoticeView {
                    level: LogLevel::Warn,
                    text: "Any: "@ + (plan::shown_name(at) + " is not a text file"@),
                },
            ]
            &&& data.len() <= 49152 && file::is_text(data) ==> step.notices.len() == 0
        }),
{
    assert(data.len() / 1024 == size);
}

/// A file whose start could not be read for its preview is told to be so, with what was tried
/// last.
pub proof fn law_an_unreadable_file_is_told(at: Seq<u8>, answer: Result<Seq<u8>, HeadFaultView>)
    ensures
        answer is Ok ==> file::preview_told(at, answer).len() == 0,
        answer matches Err(fault) ==> file::preview_told(at, answer) == seq![
            NoticeView {
                level: LogLevel::Warn,
                text: "IO: "@ + ((if fault is Opening {
                    "opening "@
                } else {
                    "reading "@
                }) + text::lossy_text(at)),
            },
        ],
{
}

} // verus!
