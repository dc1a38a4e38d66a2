//! What the keys of each mode are kept to.
use crate::io::dir::EntryView;
use crate::io::fs_ops::{self, Presence};
use crate::navigator::model::{
    self, ModeView, NavView, NextView, PendingView, ReplyView,
};
use crate::navigator::replies;
use crate::navigator::{KeyCode, KeyEvent, Outcome};
use crate::plan::{self, StagedView};
use crate::text;
use vstd::prelude::*;

verus! {

broadcast use {vstd::seq::group_seq_axioms, vstd::seq_lib::group_seq_properties};

/// Nothing a key does is worth ending the session over: only `q` and `Q` end it.
pub proof fn law_only_the_quit_keys_end_the_session(
    s: NavView,
    key: KeyEvent,
    log_len: Option<int>,
)
    ensures
        model::pressed(s, key, log_len).1.next matches NextView::Done(outcome) ==> outcome
            == Outcome::Stay || key.code == KeyCode::Char('q') || key.code == KeyCode::Char('Q'),
{
    match s.mode {
        ModeView::Prompt(prompt) => {
            assert(model::confirmed(s, prompt).1.next matches NextView::Done(outcome) ==> outcome
                == Outcome::Stay);
        },
        _ => {},
    }
}

/// Of all that can be answered, only that neovim took the file ends the session.
pub proof fn law_only_a_file_that_was_taken_ends_the_session(s: NavView, reply: ReplyView)
    ensures
        model::resumed(s, reply).1.next matches NextView::Done(outcome) ==> outcome
            == Outcome::Stay || (reply matches ReplyView::EditorRan(Ok(output))
            && output.success),
{
    match (s.pending, reply) {
        (PendingView::Editing, ReplyView::EditorRan(ran)) => {},
        _ => {
            assert(model::resumed(s, reply).1.next matches NextView::Done(outcome) ==> outcome
                == Outcome::Stay);
        },
    }
}

/// Staging only ever touches the plan: the marks stay, so one set can go to two
/// places, and nothing is asked of the disk.
pub proof fn law_staging_touches_only_the_plan(
    s: NavView,
    key: KeyEvent,
    log_len: Option<int>,
    c: char,
)
    requires
        s.mode is Normal,
        key.code == KeyCode::Char(c),
        c == 'c' || c == 'm' || c == 'd',
        !model::is_held(key),
    ensures
        model::pressed(s, key, log_len).0 == (NavView {
            plan: model::pressed(s, key, log_len).0.plan,
            ..s
        }),
        model::pressed(s, key, log_len).1.next == NextView::Done(Outcome::Stay),
{
}

/// What is typed at a prompt goes to the prompt: no key means what it means in the
/// listing. Only a search moves the cursor, and nothing is staged, marked or asked.
pub proof fn law_typing_touches_only_the_prompt(
    s: NavView,
    key: KeyEvent,
    log_len: Option<int>,
)
    requires
        s.mode is Prompt,
        key.code is Char || key.code == KeyCode::Backspace,
    ensures
        ({
            let after = model::pressed(s, key, log_len).0;
            &&& after == (NavView {
                mode: after.mode,
                selected: after.selected,
                search: after.search,
                ..s
            })
            &&& after.mode matches ModeView::Prompt(prompt) && prompt.action
                == s.mode->Prompt_0.action
            &&& !(s.mode->Prompt_0.action is Search) ==> after.selected == s.selected
                && after.search == s.search
        }),
        model::pressed(s, key, log_len).1 == model::stays(Seq::empty()),
{
}

/// A name that cannot be used keeps the prompt open, and stages nothing.
pub proof fn law_an_unusable_name_keeps_the_prompt_open(
    s: NavView,
    key: KeyEvent,
    log_len: Option<int>,
)
    requires
        s.mode is Prompt,
        !(s.mode->Prompt_0.action is Search),
        !(s.mode->Prompt_0.action is Jump),
        !plan::usable_name(text::trimmed(s.mode->Prompt_0.input)),
        key.code == KeyCode::Enter,
    ensures
        model::pressed(s, key, log_len).0 == s,
        model::pressed(s, key, log_len).1.next == NextView::Done(Outcome::Stay),
{
}

/// Leaving a prompt by esc stages nothing, and leads back to where it was opened: a
/// rename in the review back to the review.
pub proof fn law_an_abandoned_prompt_stages_nothing(
    s: NavView,
    key: KeyEvent,
    log_len: Option<int>,
)
    requires
        s.mode is Prompt,
        key.code == KeyCode::Esc,
    ensures
        model::pressed(s, key, log_len).0.plan == s.plan,
        model::pressed(s, key, log_len).0.marks == s.marks,
        model::pressed(s, key, log_len).0.mode == if s.mode->Prompt_0.action is Retarget {
            ModeView::Review
        } else {
            ModeView::Normal
        },
        model::pressed(s, key, log_len).1 == model::stays(Seq::empty()),
{
}

/// What is to be trashed cannot be made to be something else: no prompt opens for the
/// destination it does not have, and nothing in the plan changes.
pub proof fn law_a_trash_cannot_be_pointed_elsewhere(
    s: NavView,
    key: KeyEvent,
    log_len: Option<int>,
)
    requires
        s.mode is Review,
        0 <= s.review_selected < s.plan.len(),
        s.plan[s.review_selected].op is Trash,
        key.code == KeyCode::Char('r'),
    ensures
        model::pressed(s, key, log_len).0 == s,
{
}

/// Dropping one operation leaves the others, in their order.
pub proof fn law_dropping_one_leaves_the_others(
    s: NavView,
    key: KeyEvent,
    log_len: Option<int>,
)
    requires
        s.mode is Review,
        0 <= s.review_selected < s.plan.len(),
        key.code == KeyCode::Char('x'),
    ensures
        model::pressed(s, key, log_len).0.plan == s.plan.remove(s.review_selected),
        model::pressed(s, key, log_len).0.marks == s.marks,
{
}

/// What is left by dropping flagged elements.
proof fn lemma_undropped(all: Seq<StagedView>, drop: Seq<bool>, staged: StagedView)
    requires
        all.len() <= drop.len(),
    ensures
        plan::undropped(all, drop).contains(staged) <==> exists|i: int|
            0 <= i < all.len() && #[trigger] all[i] == staged && !drop[i],
    decreases all.len(),
{
    let left = plan::undropped(all, drop);
    if all.len() > 0 {
        let before = all.drop_last();
        let rest = plan::undropped(before, drop);
        let last = all.len() - 1;
        lemma_undropped(before, drop, staged);
        if rest.contains(staged) {
            let i = choose|i: int| 0 <= i < before.len() && #[trigger] before[i] == staged
                && !drop[i];
            assert(all[i] == staged);
            let at = choose|at: int| 0 <= at < rest.len() && rest[at] == staged;
            assert(left[at] == staged);
        }
        if !drop[last] && all[last] == staged {
            assert(left.last() == staged);
        }
        assert forall|i: int|
            0 <= i < all.len() && #[trigger] all[i] == staged && !drop[i] implies left.contains(
            staged,
        ) by {
            if i < last {
                assert(before[i] == staged);
            }
        }
        if left.contains(staged) && !rest.contains(staged) {
            assert(all[last] == staged && !drop[last]) by {
                let at = choose|at: int| 0 <= at < left.len() && left[at] == staged;
                if drop[last] || at < rest.len() {
                    assert(rest[at] == staged);
                }
            }
        }
    }
}

/// Dropping the blocked operations leaves those that are not, and no others.
pub proof fn law_dropping_the_blocked_leaves_the_rest(
    s: NavView,
    presence: Seq<Presence>,
    staged: StagedView,
)
    requires
        s.pending is Dropping,
        presence.len() == s.plan.len(),
    ensures
        model::resumed(s, ReplyView::Probed(presence)).0.plan.contains(staged) <==> exists|i: int|
            0 <= i < s.plan.len() && #[trigger] s.plan[i] == staged && fs_ops::blocked_by(
                staged.op,
                presence[i],
            ) is None,
{
    let drop = model::blocked(s.plan, presence);
    lemma_undropped(s.plan, drop, staged);
    assert forall|i: int| 0 <= i < s.plan.len() && #[trigger] s.plan[i] == staged implies drop[i]
        == (fs_ops::blocked_by(staged.op, presence[i]) is Some) by {}
}

/// Reading the directory again once the plan has run keeps the cursor on the entry it
/// was on, wherever that is listed now.
pub proof fn law_a_refresh_keeps_the_cursor(s: NavView, listing: Seq<EntryView>)
    requires
        s.wf(),
        s.entries.len() > 0,
        model::row_named(listing, s.entries[s.selected].name, 0) is Some,
    ensures
        ({
            let after = model::refreshed(s, listing);
            0 <= after.selected < listing.len() && listing[after.selected].name
                == s.entries[s.selected].name
        }),
{
    replies::lemma_row_named(listing, s.entries[s.selected].name, 0);
}

} // verus!
