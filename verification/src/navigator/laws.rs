//! What holds of the navigator whatever is pressed and whatever is answered.
use crate::error::ErrxView;
use crate::io::dir::{EntryView, RawListingView};
use crate::io::fs_ops::Presence;
use crate::marks;
use crate::navigator::model::{
    self, ActionView, ModeView, NavView, NextView, PendingView, PromptView, ReplyView,
    RequestView,
};
use crate::navigator::replies;
use crate::navigator::search;
use crate::navigator::{KeyCode, KeyEvent, Outcome};
use crate::path;
use crate::path_laws;
use crate::plan::{self, OpView, StagedView};
use crate::text;
use vstd::prelude::*;

verus! {

broadcast use {vstd::seq::group_seq_axioms, vstd::seq_lib::group_seq_properties};

/// Esc takes back one intention and leaves the rest: the search before the marks,
/// the marks before the plan. A plan is only discarded once there is no search and
/// no mark left to take back.
pub proof fn law_esc_takes_back_one_thing(s: NavView)
    ensures
        ({
            let after = model::backed_out(s).0;
            &&& after == (NavView {
                search: after.search,
                marks: after.marks,
                plan: after.plan,
                ..s
            })
            &&& s.search.len() > 0 ==> after.search.len() == 0 && after.marks == s.marks
                && after.plan == s.plan
            &&& s.search.len() == 0 && s.marks.len() > 0 ==> after.marks.len() == 0 && after.search
                == s.search && after.plan == s.plan
            &&& after.plan != s.plan ==> s.search.len() == 0 && s.marks.len() == 0
                && after.plan.len() == 0
            &&& s.search.len() == 0 && s.marks.len() == 0 && s.plan.len() == 0 ==> after == s
        }),
{
}

/// What is at the prompt after typing one text after the other.
pub open spec fn typed_all(s: NavView, prompt: PromptView, inputs: Seq<Seq<char>>) -> NavView
    decreases inputs.len(),
{
    if inputs.len() == 0 {
        s
    } else {
        let before = typed_all(s, prompt, inputs.drop_last());
        model::typed(before, prompt, inputs.last())
    }
}

/// A search that is abandoned was only a look around: whatever was typed, the
/// cursor is back on the row it started from, and all that is gone is the search.
pub proof fn law_abandoned_search_moves_nothing(
    s: NavView,
    label: Seq<char>,
    inputs: Seq<Seq<char>>,
)
    requires
        s.mode is Normal,
    ensures
        ({
            let prompt = PromptView {
                label,
                input: Seq::empty(),
                action: ActionView::Search { origin: s.selected },
            };
            let opened = model::prompts(s, label, Seq::empty(), prompt.action);
            model::abandoned(typed_all(opened, prompt, inputs), prompt) == (NavView {
                search: Seq::empty(),
                ..s
            })
        }),
    decreases inputs.len(),
{
    let prompt = PromptView {
        label,
        input: Seq::empty(),
        action: ActionView::Search { origin: s.selected },
    };
    let opened = model::prompts(s, label, Seq::empty(), prompt.action);
    if inputs.len() > 0 {
        law_abandoned_search_moves_nothing(s, label, inputs.drop_last());
    }
}

/// A directory that cannot be read leaves the navigator where it is, with its
/// marks, its plan and its cursor intact, and the reason on the status line.
pub proof fn law_an_unreadable_directory_changes_nothing(
    s: NavView,
    path: Seq<u8>,
    jumping: bool,
    answer: RawListingView,
)
    requires
        answer is Err,
    ensures
        model::gone_to(s, path, jumping, answer).0 == model::idle(s),
        model::gone_to(s, path, jumping, answer).1.next == NextView::Done(Outcome::Stay),
        model::gone_to(s, path, jumping, answer).1.notices.len() > 0,
{
}

/// Going anywhere keeps the marks and the plan.
pub proof fn law_marks_and_plan_survive_navigation(
    s: NavView,
    path: Seq<u8>,
    jumping: bool,
    answer: RawListingView,
)
    ensures
        model::gone_to(s, path, jumping, answer).0.marks == s.marks,
        model::gone_to(s, path, jumping, answer).0.plan == s.plan,
        model::gone_to(s, path, jumping, answer).0.search == s.search,
{
}

/// Coming back to a directory puts the cursor on the entry it was left on, as long
/// as there still is an entry of that name, whatever row it is on by then.
pub proof fn law_the_cursor_comes_back(
    s: NavView,
    away: Seq<u8>,
    listing_there: Seq<EntryView>,
    listing_back: Seq<EntryView>,
)
    requires
        0 <= s.selected < s.entries.len(),
        !plan::same_path(away, s.current_dir),
        model::row_named(listing_back, s.entries[s.selected].name, 0) is Some,
    ensures
        ({
            let there = model::arrives(s, away, listing_there);
            let back = model::arrives(there, s.current_dir, listing_back);
            &&& 0 <= back.selected < listing_back.len()
            &&& listing_back[back.selected].name == s.entries[s.selected].name
            &&& back.current_dir == s.current_dir
        }),
{
    let there = model::arrives(s, away, listing_there);
    let name = s.entries[s.selected].name;
    let home = path::components(s.current_dir);
    assert(model::remembering(s)[home] == name);
    assert(model::remembering(there).dom().contains(home));
    assert(model::remembering(there)[home] == name);
    replies::lemma_row_named(listing_back, name, 0);
}

/// Going up out of a directory that was never left before puts the cursor on that
/// directory, as long as it is listed.
pub proof fn law_going_up_lands_where_it_came_from(
    s: NavView,
    above: Seq<u8>,
    listing: Seq<EntryView>,
)
    requires
        path::parent(s.current_dir) == Some(above),
        !s.memory.dom().contains(path::components(above)),
        model::row_named(
            listing,
            text::lossy_text(path::components(s.current_dir).last()),
            0,
        ) is Some,
    ensures
        ({
            let there = model::arrives(s, above, listing);
            &&& 0 <= there.selected < listing.len()
            &&& listing[there.selected].name == text::lossy_text(
                path::components(s.current_dir).last(),
            )
        }),
{
    let here = path::components(s.current_dir);
    path_laws::law_parent_drops_the_last_component(s.current_dir);
    let up = path::components(above);
    assert(up == here.drop_last());
    assert(up.len() < here.len());
    assert(up.is_prefix_of(here));
    assert(path::first_below(s.current_dir, above) == Some(here.last()));
    assert(!model::remembering(s).dom().contains(up)) by {
        assert(up != here);
    }
    replies::lemma_row_named(listing, text::lossy_text(here.last()), 0);
}

/// No key runs an operation: the most a key does to the disk is to ask what is on
/// it. And it is only asked in order to run the plan when enter is pressed in the
/// review.
pub proof fn law_no_key_runs_an_operation(s: NavView, key: KeyEvent, log_len: Option<int>)
    requires
        s.pending is Idle,
    ensures
        ({
            let (after, step) = model::pressed(s, key, log_len);
            &&& !(step.next matches NextView::Ask(RequestView::Apply(_)))
            &&& after.pending is Checking ==> s.mode is Review && key.code == KeyCode::Enter
            &&& !(after.pending is Running)
        }),
{
}

/// An operation runs only when the disk was asked about the whole plan and none of
/// it is blocked, and then they run one after the other, in the order they were
/// staged.
pub proof fn law_only_a_checked_plan_runs(s: NavView, reply: ReplyView, op: OpView)
    requires
        s.wf(),
        model::answered_by(s, reply),
        model::resumed(s, reply).1.next == NextView::Ask(RequestView::Apply(op)),
    ensures
        s.pending is Checking ==> (reply matches ReplyView::Probed(presence)
            && !model::any_blocked(s.plan, presence) && op == s.plan[0].op),
        s.pending matches PendingView::Running { done, failures } ==> op == s.plan[done + 1].op,
        s.pending is Checking || s.pending is Running,
{
}

/// A plan with anything blocked in it is not run, and stays as it is.
pub proof fn law_a_blocked_plan_stays(s: NavView, presence: Seq<Presence>)
    requires
        s.pending is Checking,
        model::any_blocked(s.plan, presence),
    ensures
        model::resumed(s, ReplyView::Probed(presence)).0 == model::idle(s),
        model::resumed(s, ReplyView::Probed(presence)).1.next == NextView::Done(Outcome::Stay),
{
}

/// What failed of the first `count` operations, in order, with the reason.
pub open spec fn failures_among(
    staged: Seq<StagedView>,
    results: Seq<Result<(), ErrxView>>,
    count: int,
) -> Seq<(OpView, Seq<char>)>
    decreases count,
{
    if count <= 0 {
        Seq::empty()
    } else {
        let before = failures_among(staged, results, count - 1);
        match results[count - 1] {
            Ok(()) => before,
            Err(errx) => before.push((staged[count - 1].op, errx.words())),
        }
    }
}

/// The navigator after the first `count` operations have been run.
pub open spec fn after_running(
    s: NavView,
    results: Seq<Result<(), ErrxView>>,
    count: int,
) -> NavView
    decreases count,
{
    if count <= 0 {
        model::runs_from(s, Seq::empty(), 0, Seq::empty()).0
    } else {
        model::resumed(
            after_running(s, results, count - 1),
            ReplyView::Applied(results[count - 1]),
        ).0
    }
}

/// Running a plan goes through all of it, past anything that fails. What failed is
/// still staged afterwards, in order and with its reason, and nothing else is.
pub proof fn law_running_keeps_what_failed(
    s: NavView,
    results: Seq<Result<(), ErrxView>>,
    count: int,
)
    requires
        s.plan.len() > 0,
        results.len() == s.plan.len(),
        0 <= count <= results.len(),
    ensures
        ({
            let failures = failures_among(s.plan, results, count);
            let after = after_running(s, results, count);
            if count < results.len() {
                after == (NavView {
                    pending: PendingView::Running { done: count, failures },
                    ..s
                })
            } else {
                &&& after.plan == plan::failed_plan(failures)
                &&& after.marks.len() == 0
                &&& after.pending == (PendingView::Refreshing { failed: failures.len() })
                &&& after.mode is Review == (failures.len() > 0)
                &&& after.current_dir == s.current_dir
            }
        }),
    decreases count,
{
    if count > 0 {
        law_running_keeps_what_failed(s, results, count - 1);
    }
}

/// An operation that is staged stays staged when others are.
proof fn lemma_stays_staged(staged: Seq<StagedView>, ops: Seq<OpView>, op: OpView)
    requires
        plan::stages(staged, op),
    ensures
        plan::stages(model::staged_all(staged, ops), op),
    decreases ops.len(),
{
    if ops.len() > 0 {
        lemma_stays_staged(staged, ops.drop_last(), op);
        let before = model::staged_all(staged, ops.drop_last());
        let after = plan::with_staged(before, ops.last());
        let i = choose|i: int| 0 <= i < before.len() && (#[trigger] before[i]).op.same(op);
        assert(after[i].op.same(op));
    }
}

/// Every operation that was to be staged is.
proof fn lemma_all_staged(staged: Seq<StagedView>, ops: Seq<OpView>, k: int)
    requires
        0 <= k < ops.len(),
    ensures
        plan::stages(model::staged_all(staged, ops), ops[k]),
    decreases ops.len(),
{
    let before = model::staged_all(staged, ops.drop_last());
    let after = plan::with_staged(before, ops.last());
    if k == ops.len() - 1 {
        if !plan::stages(before, ops.last()) {
            assert(after[before.len() as int].op.same(ops.last()));
        }
    } else {
        lemma_all_staged(staged, ops.drop_last(), k);
        let op = ops[k];
        assert(ops.drop_last()[k] == op);
        let i = choose|i: int| 0 <= i < before.len() && (#[trigger] before[i]).op.same(op);
        assert(after[i].op.same(op));
    }
}

proof fn lemma_staging_staged(staged: Seq<StagedView>, ops: Seq<OpView>)
    requires
        forall|k: int| 0 <= k < ops.len() ==> plan::stages(staged, #[trigger] ops[k]),
    ensures
        model::staged_all(staged, ops) == staged,
        model::newly_staged(staged, ops) == 0,
    decreases ops.len(),
{
    if ops.len() > 0 {
        let rest = ops.drop_last();
        assert forall|k: int| 0 <= k < rest.len() implies plan::stages(
            staged,
            #[trigger] rest[k],
        ) by {
            assert(rest[k] == ops[k]);
        }
        lemma_staging_staged(staged, rest);
        assert(plan::stages(staged, ops[ops.len() - 1]));
    }
}

/// Staging the same thing again adds nothing to the plan.
pub proof fn law_staging_again_adds_nothing(staged: Seq<StagedView>, ops: Seq<OpView>)
    ensures
        model::staged_all(model::staged_all(staged, ops), ops) == model::staged_all(staged, ops),
        model::newly_staged(model::staged_all(staged, ops), ops) == 0,
{
    let once = model::staged_all(staged, ops);
    assert forall|k: int| 0 <= k < ops.len() implies plan::stages(once, #[trigger] ops[k]) by {
        lemma_all_staged(staged, ops, k);
    }
    lemma_staging_staged(once, ops);
}

/// No two operations of a plan do the same thing.
pub open spec fn all_different(staged: Seq<StagedView>) -> bool {
    forall|i: int, j: int|
        0 <= i < j < staged.len() ==> !(#[trigger] staged[i]).op.same((#[trigger] staged[j]).op)
}

/// Staging keeps the operations of a plan different from one another.
pub proof fn law_staging_keeps_a_plan_free_of_repeats(staged: Seq<StagedView>, op: OpView)
    requires
        all_different(staged),
    ensures
        all_different(plan::with_staged(staged, op)),
{
    let after = plan::with_staged(staged, op);
    if !plan::stages(staged, op) {
        assert forall|i: int, j: int| 0 <= i < j < after.len() implies !(#[trigger] after[i]).op.same(
            (#[trigger] after[j]).op,
        ) by {
            assert(after[i] == staged[i]);
            if j < staged.len() {
                assert(after[j] == staged[j]);
            }
        }
    }
}

/// Only `Q` takes the shell along: no other key, and nothing that is answered,
/// ends the session that way.
pub proof fn law_only_capital_q_moves_the_shell(
    s: NavView,
    key: KeyEvent,
    log_len: Option<int>,
    reply: ReplyView,
)
    ensures
        model::pressed(s, key, log_len).1.next == NextView::Done(Outcome::QuitHere) ==> key.code
            == KeyCode::Char('Q') && (s.mode is Normal || s.mode is Review),
        model::resumed(s, reply).1.next != NextView::Done(Outcome::QuitHere),
{
}

/// Quitting leaves everything as it is.
pub proof fn law_quitting_changes_nothing(
    s: NavView,
    key: KeyEvent,
    log_len: Option<int>,
    outcome: Outcome,
)
    requires
        outcome != Outcome::Stay,
        model::pressed(s, key, log_len).1.next == NextView::Done(outcome),
    ensures
        model::pressed(s, key, log_len).0 == s,
{
    match s.mode {
        ModeView::Normal => {
            match key.code {
                KeyCode::Char(c) => {
                    assert(c == 'q' || c == 'Q');
                },
                _ => {},
            }
        },
        ModeView::Review => {},
        ModeView::Prompt(prompt) => {
            assert(model::confirmed(s, prompt).1.next != NextView::Done(outcome));
        },
        ModeView::Help => {},
    }
}

/// Any key at all leaves the help, and does nothing else.
pub proof fn law_any_key_leaves_the_help(s: NavView, key: KeyEvent, log_len: Option<int>)
    requires
        s.mode is Help,
    ensures
        model::pressed(s, key, log_len) == (
            NavView { mode: ModeView::Normal, ..s },
            model::stays(Seq::empty()),
        ),
{
}

/// A letter with anything but shift held does nothing, but for the two that jump
/// by a screenful.
pub proof fn law_held_letters_do_nothing(s: NavView, key: KeyEvent, log_len: Option<int>, c: char)
    requires
        s.mode is Normal || s.mode is Prompt,
        key.code == KeyCode::Char(c),
        model::is_held(key),
        !(s.mode is Normal && key.modifiers.control && (c == 'd' || c == 'u')),
    ensures
        model::pressed(s, key, log_len) == (s, model::stays(Seq::empty())),
{
}

/// The `.` and `..` shortcuts are never acted on: with the cursor on one of them
/// and nothing marked, no key that marks, stages, renames or copies has a target.
pub proof fn law_the_shortcuts_are_never_targets(s: NavView)
    requires
        0 <= s.selected < s.entries.len(),
        s.entries[s.selected].name == "."@ || s.entries[s.selected].name == ".."@,
        s.marks.len() == 0,
    ensures
        model::targets(s).len() == 0,
        model::mark_toggled(s).0 == s,
        model::stages_into_here(s, true).0 == s,
        model::stages_into_here(s, false).0 == s,
        model::stages_trash(s).0 == s,
        model::begins_rename(s) == s,
        model::yanks(s).0 == s,
{
    assert(model::trash_ops(model::targets(s)) =~= Seq::empty());
}

/// A row that a walk ends on matches, and nothing before it on the walk does; where
/// the walk finds none, no row on it matches.
pub proof fn law_a_search_stops_at_the_first_match(
    entries: Seq<EntryView>,
    query: Seq<char>,
    order: Seq<int>,
)
    ensures
        match search::first_match(entries, query, order) {
            Some(row) => exists|k: int|
                {
                    &&& 0 <= k < order.len()
                    &&& #[trigger] order[k] == row
                    &&& search::matching(entries[row].name, query)
                    &&& forall|j: int|
                        0 <= j < k ==> !search::matching(
                            entries[#[trigger] order[j]].name,
                            query,
                        )
                },
            None => forall|j: int|
                0 <= j < order.len() ==> !search::matching(
                    entries[#[trigger] order[j]].name,
                    query,
                ),
        },
    decreases order.len(),
{
    if order.len() > 0 {
        if search::matching(entries[order[0]].name, query) {
            assert(order[0] == order[0]);
        } else {
            let rest = order.drop_first();
            law_a_search_stops_at_the_first_match(entries, query, rest);
            match search::first_match(entries, query, rest) {
                Some(row) => {
                    let k = choose|k: int|
                        {
                            &&& 0 <= k < rest.len()
                            &&& #[trigger] rest[k] == row
                            &&& search::matching(entries[row].name, query)
                            &&& forall|j: int|
                                0 <= j < k ==> !search::matching(
                                    entries[#[trigger] rest[j]].name,
                                    query,
                                )
                        };
                    assert(order[k + 1] == row);
                    assert forall|j: int| 0 <= j < k + 1 implies !search::matching(
                        entries[#[trigger] order[j]].name,
                        query,
                    ) by {
                        if j > 0 {
                            assert(rest[j - 1] == order[j]);
                        }
                    }
                },
                None => {
                    assert forall|j: int| 0 <= j < order.len() implies !search::matching(
                        entries[#[trigger] order[j]].name,
                        query,
                    ) by {
                        if j > 0 {
                            assert(rest[j - 1] == order[j]);
                        }
                    }
                },
            }
        }
    }
}

/// `path` with its last component dropped `count` times.
pub open spec fn ancestor(path: Seq<u8>, count: nat) -> Option<Seq<u8>>
    decreases count,
{
    if count == 0 {
        Some(path)
    } else {
        match ancestor(path, (count - 1) as nat) {
            Some(below) => path::parent(below),
            None => None,
        }
    }
}

/// The navigator once the current directory, and then `count` directories above it,
/// turned out to be unreadable.
pub open spec fn after_unreadable(s: NavView, answers: Seq<RawListingView>, count: nat) -> NavView
    decreases count,
{
    if count == 0 {
        model::resumed(s, ReplyView::Listed(answers[0])).0
    } else {
        model::resumed(
            after_unreadable(s, answers, (count - 1) as nat),
            ReplyView::Listed(answers[count as int]),
        ).0
    }
}

/// When the directory being viewed is gone, the directories above it are tried one
/// after the other, the nearest first.
pub proof fn law_retreat_tries_the_nearest_first(
    s: NavView,
    answers: Seq<RawListingView>,
    count: nat,
    failed: nat,
)
    requires
        s.pending == (PendingView::Refreshing { failed }),
        count < answers.len(),
        forall|i: int| 0 <= i < answers.len() ==> (#[trigger] answers[i]) is Err,
        ancestor(s.current_dir, count + 1) is Some,
    ensures
        after_unreadable(s, answers, count) == (NavView {
            pending: PendingView::Retreating {
                gone: s.current_dir,
                at: ancestor(s.current_dir, count + 1)->0,
                failed,
            },
            ..s
        }),
    decreases count,
{
    assert(answers[count as int] is Err);
    if count > 0 {
        law_retreat_tries_the_nearest_first(s, answers, (count - 1) as nat, failed);
    } else {
        assert(ancestor(s.current_dir, 0) == Some(s.current_dir));
    }
}

/// The first of them that can be read is where the navigator ends up.
pub proof fn law_retreat_ends_at_the_first_readable(
    s: NavView,
    gone: Seq<u8>,
    at: Seq<u8>,
    failed: nat,
    answer: RawListingView,
)
    requires
        s.pending == (PendingView::Retreating { gone, at, failed }),
        answer is Ok,
    ensures
        model::resumed(s, ReplyView::Listed(answer)).0.current_dir == at,
        model::resumed(s, ReplyView::Listed(answer)).0.pending is Idle,
        model::resumed(s, ReplyView::Listed(answer)).1.next == NextView::Done(Outcome::Stay),
{
}

} // verus!
