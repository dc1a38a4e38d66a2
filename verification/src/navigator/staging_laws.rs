//! What the keys that stage something put into the plan.
use crate::error::ErrxView;
use crate::io::fs_ops::{self, Presence};
use crate::navigator::key_laws;
use crate::navigator::model::{
    self, ActionView, ModeView, NavView, NextView, PendingView, PromptView, ReplyView, RequestView,
};
use crate::navigator::{KeyCode, KeyEvent, Outcome};
use crate::path;
use crate::path_laws;
use crate::plan::{self, OpView, StagedView};
use crate::plan_laws;
use crate::text;
use crate::text_laws;
use vstd::prelude::*;

verus! {

broadcast use {vstd::seq::group_seq_axioms, vstd::seq_lib::group_seq_properties};

/// A letter pressed while looking around, with nothing held but shift.
pub open spec fn letter(s: NavView, key: KeyEvent, c: char) -> bool {
    s.mode is Normal && key.code == KeyCode::Char(c) && !key.modifiers.control
        && !key.modifiers.alt && !key.modifiers.super_key && !key.modifiers.hyper
        && !key.modifiers.meta
}

/// Whether the last component of a path is the name of something.
pub open spec fn has_name(path: Seq<u8>) -> bool {
    let all = path::components(path);
    all.len() > 0 && all.last() != seq![47u8] && all.last() != seq![46u8] && all.last() != seq![
        46u8,
        46u8,
    ]
}

/// Whether `op` is what the staging key `c` makes of `from` in the directory `dir`: a copy
/// or a move of it to the same name there, or its trashing.
pub open spec fn made_of(op: OpView, c: char, from: Seq<u8>, dir: Seq<u8>) -> bool {
    match op {
        OpView::Copy { from: source, to } => c == 'c' && source == from && path::components(to)
            == path::components(dir).push(path::components(from).last()),
        OpView::Move { from: source, to } => c == 'm' && source == from && path::components(to)
            == path::components(dir).push(path::components(from).last()),
        OpView::Trash(source) => c == 'd' && source == from,
        _ => false,
    }
}

/// Whether `op` does what the staging key `c` is to do with `from`, however its paths are
/// written.
pub open spec fn does(op: OpView, c: char, from: Seq<u8>, dir: Seq<u8>) -> bool {
    match op {
        OpView::Copy { from: source, to } => c == 'c' && path::components(source)
            == path::components(from) && path::components(to) == path::components(dir).push(
            path::components(from).last(),
        ),
        OpView::Move { from: source, to } => c == 'm' && path::components(source)
            == path::components(from) && path::components(to) == path::components(dir).push(
            path::components(from).last(),
        ),
        OpView::Trash(source) => c == 'd' && path::components(source) == path::components(from),
        _ => false,
    }
}

/// Whether `after` is `before` with operations added at its end, each made by the key `c`
/// of one of `sources`, and whether each of `sources` that the key can act on is staged.
pub open spec fn stages_just(
    before: Seq<StagedView>,
    after: Seq<StagedView>,
    c: char,
    sources: Seq<Seq<u8>>,
    dir: Seq<u8>,
) -> bool {
    &&& before.len() <= after.len()
    &&& after.take(before.len() as int) == before
    &&& forall|i: int|
        before.len() <= i < after.len() ==> (#[trigger] after[i]).failure is None && exists|k: int|
            0 <= k < sources.len() && made_of(after[i].op, c, #[trigger] sources[k], dir)
    &&& forall|k: int|
        0 <= k < sources.len() && (c == 'd' || has_name(#[trigger] sources[k])) ==> exists|i: int|
            0 <= i < after.len() && does((#[trigger] after[i]).op, c, sources[k], dir)
}

/// The operations that the key `c` makes of `sources`.
spec fn made(c: char, sources: Seq<Seq<u8>>, dir: Seq<u8>) -> Seq<OpView> {
    if c == 'd' {
        model::trash_ops(sources)
    } else {
        model::ops_into(sources, dir, c == 'c')
    }
}

proof fn lemma_into(dir: Seq<u8>, from: Seq<u8>)
    ensures
        has_name(from) <==> path::file_name(from) is Some,
        path::file_name(from) matches Some(name) ==> name == path::components(from).last()
            && path::components(path::join(dir, name)) == path::components(dir).push(name),
{
    assert(path::root_component() =~= seq![47u8]);
    assert(path::here_component() =~= seq![46u8]);
    assert(path::up_component() =~= seq![46u8, 46u8]);
    match path::file_name(from) {
        Some(name) => {
            path_laws::lemma_components_shape(from);
            let all = path::components(from);
            assert(all[all.len() - 1] == name);
            path_laws::lemma_join_component(dir, name);
        },
        None => {},
    }
}

/// Each operation that is made is made of a source, and each source that can be acted on
/// has one made of it.
proof fn lemma_made(c: char, sources: Seq<Seq<u8>>, dir: Seq<u8>)
    requires
        c == 'c' || c == 'm' || c == 'd',
    ensures
        forall|i: int|
            0 <= i < made(c, sources, dir).len() ==> exists|k: int|
                0 <= k < sources.len() && made_of(
                    #[trigger] made(c, sources, dir)[i],
                    c,
                    #[trigger] sources[k],
                    dir,
                ),
        forall|k: int|
            0 <= k < sources.len() && (c == 'd' || has_name(#[trigger] sources[k])) ==> exists|
                i: int,
            |
                0 <= i < made(c, sources, dir).len() && made_of(
                    #[trigger] made(c, sources, dir)[i],
                    c,
                    sources[k],
                    dir,
                ),
    decreases sources.len(),
{
    let all = made(c, sources, dir);
    if c == 'd' {
        assert forall|i: int| 0 <= i < all.len() implies exists|k: int|
            0 <= k < sources.len() && made_of(#[trigger] all[i], c, #[trigger] sources[k], dir) by {
            assert(made_of(all[i], c, sources[i], dir));
        }
        assert forall|k: int| 0 <= k < sources.len() && (c == 'd' || has_name(
            #[trigger] sources[k],
        )) implies exists|i: int|
            0 <= i < all.len() && made_of(#[trigger] all[i], c, sources[k], dir) by {
            assert(made_of(all[k], c, sources[k], dir));
        }
    } else if sources.len() > 0 {
        let front = sources.drop_last();
        let before = made(c, front, dir);
        let last = sources.len() - 1;
        lemma_made(c, front, dir);
        lemma_into(dir, sources.last());
        assert forall|i: int| 0 <= i < all.len() implies exists|k: int|
            0 <= k < sources.len() && made_of(#[trigger] all[i], c, #[trigger] sources[k], dir) by {
            if i < before.len() {
                assert(all[i] == before[i]);
                let k = choose|k: int|
                    0 <= k < front.len() && made_of(before[i], c, #[trigger] front[k], dir);
                assert(sources[k] == front[k]);
            } else {
                assert(made_of(all[i], c, sources[last], dir));
            }
        }
        assert forall|k: int| 0 <= k < sources.len() && (c == 'd' || has_name(
            #[trigger] sources[k],
        )) implies exists|i: int|
            0 <= i < all.len() && made_of(#[trigger] all[i], c, sources[k], dir) by {
            if k < last {
                assert(front[k] == sources[k]);
                let i = choose|i: int|
                    0 <= i < before.len() && made_of(#[trigger] before[i], c, front[k], dir);
                assert(all[i] == before[i]);
            } else {
                assert(made_of(all[before.len() as int], c, sources[last], dir));
            }
        }
    }
}

/// Staging operations adds some of them at the end, and leaves all of them staged.
proof fn lemma_staged_all(before: Seq<StagedView>, ops: Seq<OpView>)
    ensures
        ({
            let after = model::staged_all(before, ops);
            &&& before.len() <= after.len()
            &&& after.take(before.len() as int) == before
            &&& forall|i: int|
                before.len() <= i < after.len() ==> (#[trigger] after[i]).failure is None
                    && ops.contains(after[i].op)
            &&& forall|k: int|
                0 <= k < ops.len() ==> exists|i: int|
                    0 <= i < after.len() && (#[trigger] after[i]).op.same(#[trigger] ops[k])
        }),
    decreases ops.len(),
{
    let after = model::staged_all(before, ops);
    if ops.len() == 0 {
        assert(after.take(before.len() as int) =~= before);
    } else {
        let front = ops.drop_last();
        let mid = model::staged_all(before, front);
        lemma_staged_all(before, front);
        plan_laws::law_staging_adds_at_the_end(mid, ops.last());
        assert(after.take(before.len() as int) =~= before) by {
            assert forall|i: int| 0 <= i < before.len() implies after[i] == before[i] by {
                assert(after.take(mid.len() as int)[i] == mid[i]);
                assert(mid.take(before.len() as int)[i] == before[i]);
            }
        }
        assert forall|i: int| before.len() <= i < after.len() implies (
        #[trigger] after[i]).failure is None && ops.contains(after[i].op) by {
            if i < mid.len() {
                assert(after.take(mid.len() as int)[i] == mid[i]);
                let k = choose|k: int| 0 <= k < front.len() && front[k] == mid[i].op;
                assert(ops[k] == front[k]);
            } else {
                assert(ops[ops.len() - 1] == after[i].op);
            }
        }
        assert forall|k: int| 0 <= k < ops.len() implies exists|i: int|
            0 <= i < after.len() && (#[trigger] after[i]).op.same(#[trigger] ops[k]) by {
            if k < front.len() {
                assert(front[k] == ops[k]);
                let i = choose|i: int|
                    0 <= i < mid.len() && (#[trigger] mid[i]).op.same(front[k]);
                assert(after.take(mid.len() as int)[i] == mid[i]);
            }
        }
    }
}

proof fn lemma_made_staged(
    before: Seq<StagedView>,
    ops: Seq<OpView>,
    c: char,
    sources: Seq<Seq<u8>>,
    dir: Seq<u8>,
)
    requires
        forall|i: int|
            0 <= i < ops.len() ==> exists|k: int|
                0 <= k < sources.len() && made_of(
                    #[trigger] ops[i],
                    c,
                    #[trigger] sources[k],
                    dir,
                ),
        forall|k: int|
            0 <= k < sources.len() && (c == 'd' || has_name(#[trigger] sources[k])) ==> exists|
                i: int,
            |
                0 <= i < ops.len() && made_of(#[trigger] ops[i], c, sources[k], dir),
    ensures
        stages_just(before, model::staged_all(before, ops), c, sources, dir),
{
    let after = model::staged_all(before, ops);
    lemma_staged_all(before, ops);
    assert forall|i: int| before.len() <= i < after.len() implies (
    #[trigger] after[i]).failure is None && exists|k: int|
        0 <= k < sources.len() && made_of(after[i].op, c, #[trigger] sources[k], dir) by {
        let at = choose|at: int| 0 <= at < ops.len() && ops[at] == after[i].op;
        assert(ops[at] == after[i].op);
    }
    assert forall|k: int| 0 <= k < sources.len() && (c == 'd' || has_name(
        #[trigger] sources[k],
    )) implies exists|i: int|
        0 <= i < after.len() && does((#[trigger] after[i]).op, c, sources[k], dir) by {
        let at = choose|at: int|
            0 <= at < ops.len() && made_of(#[trigger] ops[at], c, sources[k], dir);
        let i = choose|i: int| 0 <= i < after.len() && (#[trigger] after[i]).op.same(ops[at]);
        lemma_same_does(after[i].op, ops[at], c, sources[k], dir);
    }
}

proof fn lemma_same_does(op: OpView, other: OpView, c: char, from: Seq<u8>, dir: Seq<u8>)
    requires
        op.same(other),
        made_of(other, c, from, dir),
    ensures
        does(op, c, from, dir),
{
}

proof fn lemma_stages(s: NavView, c: char, sources: Seq<Seq<u8>>)
    requires
        c == 'c' || c == 'm' || c == 'd',
    ensures
        stages_just(
            s.plan,
            model::staged_all(s.plan, made(c, sources, s.current_dir)),
            c,
            sources,
            s.current_dir,
        ),
{
    lemma_made(c, sources, s.current_dir);
    lemma_made_staged(s.plan, made(c, sources, s.current_dir), c, sources, s.current_dir);
}

/// While anything is marked, a staging key acts on what is marked and on nothing else,
/// whatever the cursor is on: each operation it adds is of a marked path, and each marked
/// path that has a name gets one, into the directory being viewed.
pub proof fn law_what_is_marked_is_what_is_staged(
    s: NavView,
    key: KeyEvent,
    log_len: Option<int>,
    c: char,
)
    requires
        letter(s, key, c),
        c == 'c' || c == 'm' || c == 'd',
        s.marks.len() > 0,
    ensures
        stages_just(
            s.plan,
            model::pressed(s, key, log_len).0.plan,
            c,
            s.marks,
            s.current_dir,
        ),
{
    lemma_stages(s, c, s.marks);
}

/// Whether the cursor is on an entry that can be acted on, neither `.` nor `..`.
pub open spec fn on_an_entry(s: NavView) -> bool {
    0 <= s.selected < s.entries.len() && s.entries[s.selected].name != seq!['.']
        && s.entries[s.selected].name != seq!['.', '.']
}

/// Whether a path is the one of the entry under the cursor: its name in the directory
/// being viewed.
pub open spec fn under_the_cursor(s: NavView, path: Seq<u8>) -> bool {
    path::components(path) == path::components(s.current_dir).push(
        vstd::utf8::encode_utf8(s.entries[s.selected].name),
    )
}

/// The path the cursor is on, by its components.
pub proof fn lemma_cursor_path(s: NavView)
    requires
        0 <= s.selected,
    ensures
        model::cursor_path(s) is Some <==> on_an_entry(s),
        on_an_entry(s) && plan_laws::plain_name(s.entries[s.selected].name) ==> under_the_cursor(
            s,
            model::cursor_path(s)->0,
        ),
{
    reveal_strlit(".");
    reveal_strlit("..");
    assert("."@ =~= seq!['.']);
    assert(".."@ =~= seq!['.', '.']);
    if on_an_entry(s) && plan_laws::plain_name(s.entries[s.selected].name) {
        let name = s.entries[s.selected].name;
        plan_laws::lemma_plain_name(name);
        path_laws::law_joined_entry_lies_in_its_directory(
            s.current_dir,
            vstd::utf8::encode_utf8(name),
        );
    }
}

/// With nothing marked, a staging key acts on the entry under the cursor, if there is one
/// to act on, and on nothing else.
pub proof fn law_without_marks_the_cursor_is_staged(
    s: NavView,
    key: KeyEvent,
    log_len: Option<int>,
    c: char,
)
    requires
        letter(s, key, c),
        c == 'c' || c == 'm' || c == 'd',
        s.marks.len() == 0,
        0 <= s.selected,
        on_an_entry(s) ==> plan_laws::plain_name(s.entries[s.selected].name),
    ensures
        !on_an_entry(s) ==> model::pressed(s, key, log_len).0 == s,
        on_an_entry(s) ==> exists|path: Seq<u8>|
            #![trigger under_the_cursor(s, path)]
            under_the_cursor(s, path) && stages_just(
                s.plan,
                model::pressed(s, key, log_len).0.plan,
                c,
                seq![path],
                s.current_dir,
            ),
        on_an_entry(s) ==> model::pressed(s, key, log_len).0.plan.len() <= s.plan.len() + 1,
{
    lemma_cursor_path(s);
    match model::cursor_path(s) {
        Some(path) => {
            let sources = seq![path];
            lemma_stages(s, c, sources);
            assert(under_the_cursor(s, path));
            let ops = made(c, sources, s.current_dir);
            assert(sources.drop_last() =~= Seq::empty());
            reveal_with_fuel(model::ops_into, 2);
            assert(ops.len() <= 1);
            reveal_with_fuel(model::staged_all, 2);
            if ops.len() == 1 {
                assert(ops.drop_last() =~= Seq::empty());
            }
        },
        None => {
            let nothing = Seq::<Seq<u8>>::empty();
            assert(model::trash_ops(nothing) =~= Seq::empty());
        },
    }
}

/// The space bar marks or unmarks the entry under the cursor, and nothing else: every other
/// path is marked afterwards exactly if it was before.
pub proof fn law_the_space_bar_marks_one_entry(
    s: NavView,
    key: KeyEvent,
    log_len: Option<int>,
    other: Seq<u8>,
)
    requires
        letter(s, key, ' '),
        s.wf(),
        on_an_entry(s) ==> plan_laws::plain_name(s.entries[s.selected].name),
    ensures
        ({
            let after = model::pressed(s, key, log_len).0;
            &&& after == (NavView { marks: after.marks, ..s })
            &&& !on_an_entry(s) ==> after.marks == s.marks
            &&& on_an_entry(s) ==> (is_marked(after.marks, other) <==> if under_the_cursor(
                s,
                other,
            ) {
                !is_marked(s.marks, other)
            } else {
                is_marked(s.marks, other)
            })
        }),
{
    lemma_cursor_path(s);
    match model::cursor_path(s) {
        Some(path) => {
            crate::marks::law_toggle_changes_one_mark(s.marks, path);
            let after = model::pressed(s, key, log_len).0.marks;
            lemma_marked(after, other);
            lemma_marked(s.marks, other);
            if under_the_cursor(s, other) {
                lemma_held(after, other, path);
                lemma_held(s.marks, other, path);
            }
        },
        None => {},
    }
}

/// Whether a path is marked, however it is written.
pub open spec fn is_marked(marks: Seq<Seq<u8>>, path: Seq<u8>) -> bool {
    exists|i: int|
        0 <= i < marks.len() && path::components(#[trigger] marks[i]) == path::components(path)
}

proof fn lemma_marked(marks: Seq<Seq<u8>>, path: Seq<u8>)
    ensures
        is_marked(marks, path) <==> crate::marks::holds(marks, path),
{
    if is_marked(marks, path) {
        let i = choose|i: int|
            0 <= i < marks.len() && path::components(#[trigger] marks[i]) == path::components(path);
        assert(plan::same_path(marks[i], path));
    }
    if crate::marks::holds(marks, path) {
        let i = choose|i: int| 0 <= i < marks.len() && plan::same_path(#[trigger] marks[i], path);
        assert(path::components(marks[i]) == path::components(path));
    }
}

proof fn lemma_held(marks: Seq<Seq<u8>>, one: Seq<u8>, other: Seq<u8>)
    requires
        path::components(one) == path::components(other),
    ensures
        crate::marks::holds(marks, one) == crate::marks::holds(marks, other),
{
    if crate::marks::holds(marks, one) {
        let i = choose|i: int| 0 <= i < marks.len() && plan::same_path(#[trigger] marks[i], one);
        assert(plan::same_path(marks[i], other));
    }
    if crate::marks::holds(marks, other) {
        let i = choose|i: int| 0 <= i < marks.len() && plan::same_path(#[trigger] marks[i], other);
        assert(plan::same_path(marks[i], one));
    }
}

/// Whether a typed name is taken: white space around it aside, it is a plain name with
/// neither a backslash nor a zero in it.
pub open spec fn taken(input: Seq<char>) -> bool {
    let name = text::trimmed(input);
    plan_laws::plain_name(name) && !name.contains('\\') && !name.contains('\0')
}

/// Which names are usable, in terms of what is typed.
pub proof fn law_which_names_are_usable(input: Seq<char>)
    ensures
        plan::usable_name(input) <==> taken(input),
        plan::usable_name(text::trimmed(input)) <==> taken(input),
{
    text_laws::law_trimming_once_is_enough(input);
    reveal_strlit(".");
    reveal_strlit("..");
    assert("."@ =~= seq!['.']);
    assert(".."@ =~= seq!['.', '.']);
}

/// Whether a path is the one of `name` in the directory `dir`.
pub open spec fn named_in(path: Seq<u8>, dir: Seq<u8>, name: Seq<char>) -> bool {
    path::components(path) == path::components(dir).push(vstd::utf8::encode_utf8(name))
}

/// Whether `op` is what the prompt is for, with `name` typed at it.
pub open spec fn asked_for(op: OpView, action: ActionView, dir: Seq<u8>, name: Seq<char>) -> bool {
    match (action, op) {
        (ActionView::CreateFile, OpView::CreateFile(path)) => named_in(path, dir, name),
        (ActionView::CreateDir, OpView::CreateDir(path)) => named_in(path, dir, name),
        (ActionView::Rename(source), OpView::Move { from, to }) => path::components(from)
            == path::components(source) && named_in(to, dir, name),
        _ => false,
    }
}

/// A name typed for a new file, a new directory or another name of an entry stages just
/// that, under that name in the directory being viewed, and leads back to the listing.
pub proof fn law_a_typed_name_stages_one_operation(
    s: NavView,
    prompt: PromptView,
    key: KeyEvent,
    log_len: Option<int>,
)
    requires
        s.mode == ModeView::Prompt(prompt),
        prompt.action is CreateFile || prompt.action is CreateDir || prompt.action is Rename,
        taken(prompt.input),
        key.code == KeyCode::Enter,
    ensures
        ({
            let after = model::pressed(s, key, log_len).0;
            let name = text::trimmed(prompt.input);
            &&& after == (NavView { plan: after.plan, mode: ModeView::Normal, ..s })
            &&& s.plan.len() <= after.plan.len() <= s.plan.len() + 1
            &&& after.plan.take(s.plan.len() as int) == s.plan
            &&& after.plan.len() > s.plan.len() ==> after.plan.last().failure is None && asked_for(
                after.plan.last().op,
                prompt.action,
                s.current_dir,
                name,
            )
            &&& exists|i: int|
                0 <= i < after.plan.len() && asked_for(
                    (#[trigger] after.plan[i]).op,
                    prompt.action,
                    s.current_dir,
                    name,
                )
        }),
{
    law_which_names_are_usable(prompt.input);
    let name = text::trimmed(prompt.input);
    plan_laws::lemma_plain_name(name);
    path_laws::law_joined_entry_lies_in_its_directory(
        s.current_dir,
        vstd::utf8::encode_utf8(name),
    );
    let path = path::join(s.current_dir, vstd::utf8::encode_utf8(name));
    let op = match prompt.action {
        ActionView::CreateFile => OpView::CreateFile(path),
        ActionView::CreateDir => OpView::CreateDir(path),
        ActionView::Rename(from) => OpView::Move { from, to: path },
        _ => OpView::Trash(path),
    };
    let after = model::pressed(s, key, log_len).0;
    assert(after.plan == plan::with_staged(s.plan, op));
    plan_laws::law_staging_adds_at_the_end(s.plan, op);
    assert(asked_for(op, prompt.action, s.current_dir, name));
    let i = choose|i: int| 0 <= i < after.plan.len() && (#[trigger] after.plan[i]).op.same(op);
    assert(asked_for(after.plan[i].op, prompt.action, s.current_dir, name));
}

/// A name typed for a destination changes that one operation, and of it nothing but the
/// last component of where it writes. It leads back to the review.
pub proof fn law_a_typed_name_points_one_operation_elsewhere(
    s: NavView,
    prompt: PromptView,
    row: int,
    key: KeyEvent,
    log_len: Option<int>,
)
    requires
        s.mode == ModeView::Prompt(prompt),
        prompt.action == ActionView::Retarget(row),
        0 <= row < s.plan.len(),
        plan_laws::writes_somewhere(s.plan[row].op),
        taken(prompt.input),
        key.code == KeyCode::Enter,
    ensures
        ({
            let after = model::pressed(s, key, log_len).0;
            &&& after == (NavView { plan: after.plan, mode: ModeView::Review, ..s })
            &&& after.plan.len() == s.plan.len()
            &&& forall|i: int|
                0 <= i < s.plan.len() && i != row ==> #[trigger] after.plan[i] == s.plan[i]
            &&& plan_laws::points_at(
                after.plan[row].op,
                s.plan[row].op,
                text::trimmed(prompt.input),
            )
            &&& after.plan[row].failure == s.plan[row].failure
        }),
{
    law_which_names_are_usable(prompt.input);
    plan_laws::law_a_new_name_keeps_the_directory(
        s.plan[row].op,
        text::trimmed(prompt.input),
    );
}

/// The keys that ask for a name open a prompt for what they are for, and change nothing
/// else: `a` for a file, `A` for a directory, `z` for a place to jump to, each with nothing
/// typed yet.
pub proof fn law_what_each_prompt_is_for(
    s: NavView,
    key: KeyEvent,
    log_len: Option<int>,
    c: char,
)
    requires
        letter(s, key, c),
        c == 'a' || c == 'A' || c == 'z',
    ensures
        ({
            let after = model::pressed(s, key, log_len).0;
            &&& after == (NavView { mode: after.mode, ..s })
            &&& after.mode matches ModeView::Prompt(prompt) && prompt.input.len() == 0
                && prompt.action == if c == 'a' {
                ActionView::CreateFile
            } else if c == 'A' {
                ActionView::CreateDir
            } else {
                ActionView::Jump
            }
        }),
{
}

/// `r` asks for another name of the entry under the cursor, with the name it has typed
/// already.
pub proof fn law_renaming_starts_from_the_name(s: NavView, key: KeyEvent, log_len: Option<int>)
    requires
        letter(s, key, 'r'),
        0 <= s.selected,
        on_an_entry(s) ==> plan_laws::plain_name(s.entries[s.selected].name),
    ensures
        ({
            let after = model::pressed(s, key, log_len).0;
            &&& !on_an_entry(s) ==> after == s
            &&& on_an_entry(s) ==> after == (NavView { mode: after.mode, ..s }) && (
            after.mode matches ModeView::Prompt(prompt) && prompt.input
                == s.entries[s.selected].name && (
            prompt.action matches ActionView::Rename(path) && under_the_cursor(s, path)))
        }),
{
    lemma_cursor_path(s);
    if on_an_entry(s) {
        let name = s.entries[s.selected].name;
        let bytes = vstd::utf8::encode_utf8(name);
        plan_laws::lemma_plain_name(name);
        path_laws::law_joined_entry_lies_in_its_directory(s.current_dir, bytes);
        vstd::utf8::encode_utf8_valid_utf8(name);
        vstd::utf8::encode_utf8_decode_utf8(name);
    }
}

/// What is typed at a prompt is added at its end, and backspace takes the last of it away.
pub proof fn law_typing_edits_the_end(
    s: NavView,
    prompt: PromptView,
    key: KeyEvent,
    log_len: Option<int>,
    c: char,
)
    requires
        s.mode == ModeView::Prompt(prompt),
        key.code == KeyCode::Backspace || (key.code == KeyCode::Char(c) && !key.modifiers.control
            && !key.modifiers.alt && !key.modifiers.super_key && !key.modifiers.hyper
            && !key.modifiers.meta),
    ensures
        model::pressed(s, key, log_len).0.mode matches ModeView::Prompt(now) && now.label
            == prompt.label && now.action == prompt.action && if key.code == KeyCode::Char(c) {
            now.input == prompt.input.push(c)
        } else if prompt.input.len() > 0 {
            now.input == prompt.input.drop_last()
        } else {
            now.input == prompt.input
        },
{
}

/// Whether the paths alone stop an operation: it would go where it is, or inside itself.
pub open spec fn stopped_by_its_paths(op: OpView) -> bool {
    match op {
        OpView::Copy { from, to } => plan_laws::begins(
            path::components(to),
            path::components(from),
        ),
        OpView::Move { from, to } => plan_laws::begins(
            path::components(to),
            path::components(from),
        ),
        _ => false,
    }
}

/// Whether an operation can run where `presence` is what the disk holds.
pub open spec fn can_run(op: OpView, presence: Presence) -> bool {
    &&& !stopped_by_its_paths(op)
    &&& (op is Copy || op is Move || op is Trash) ==> presence.source
    &&& !(op is Trash) ==> !presence.destination
}

/// An operation is blocked exactly when it cannot run.
pub proof fn law_blocked_is_what_cannot_run(op: OpView, presence: Presence)
    ensures
        fs_ops::blocked_by(op, presence) is None <==> can_run(op, presence),
{
    match op {
        OpView::Copy { from, to } => {
            plan_laws::law_what_stops_a_copy_or_a_move(op, from, to, presence);
            let a = path::components(from);
            assert(a.take(a.len() as int) =~= a);
        },
        OpView::Move { from, to } => {
            plan_laws::law_what_stops_a_copy_or_a_move(op, from, to, presence);
            let a = path::components(from);
            assert(a.take(a.len() as int) =~= a);
        },
        _ => {},
    }
}

/// A plan is run exactly when every operation in it can run; it is run from its first
/// operation on. Otherwise it stays as it is, and nothing is asked of the disk.
pub proof fn law_a_plan_runs_when_all_of_it_can(s: NavView, presence: Seq<Presence>)
    requires
        s.pending is Checking,
        presence.len() == s.plan.len(),
        s.plan.len() > 0,
    ensures
        (forall|i: int|
            0 <= i < s.plan.len() ==> can_run((#[trigger] s.plan[i]).op, presence[i]))
            ==> model::resumed(s, ReplyView::Probed(presence)).1.next == NextView::Ask(
            RequestView::Apply(s.plan[0].op),
        ) && model::resumed(s, ReplyView::Probed(presence)).0 == (NavView {
            pending: PendingView::Running { done: 0, failures: Seq::empty() },
            ..s
        }),
        (exists|i: int|
            0 <= i < s.plan.len() && !can_run((#[trigger] s.plan[i]).op, presence[i]))
            ==> model::resumed(s, ReplyView::Probed(presence)).1.next == NextView::Done(
            Outcome::Stay,
        ) && model::resumed(s, ReplyView::Probed(presence)).0 == (NavView {
            pending: PendingView::Idle,
            ..s
        }),
{
    assert forall|i: int| 0 <= i < s.plan.len() implies (fs_ops::blocked_by(
        (#[trigger] s.plan[i]).op,
        presence[i],
    ) is None <==> can_run(s.plan[i].op, presence[i])) by {
        law_blocked_is_what_cannot_run(s.plan[i].op, presence[i]);
    }
    if exists|i: int| 0 <= i < s.plan.len() && !can_run((#[trigger] s.plan[i]).op, presence[i]) {
        let i = choose|i: int|
            0 <= i < s.plan.len() && !can_run((#[trigger] s.plan[i]).op, presence[i]);
        assert(fs_ops::blocked_by(s.plan[i].op, presence[i]) is Some);
        assert(model::any_blocked(s.plan, presence));
    } else {
        assert(!model::any_blocked(s.plan, presence));
    }
}

/// Before a plan is run or cleared of what is blocked, the disk is asked about each of its
/// operations, in their order.
pub proof fn law_the_disk_is_asked_about_all_of_it(
    s: NavView,
    key: KeyEvent,
    log_len: Option<int>,
)
    requires
        s.mode is Review,
        key.code == KeyCode::Enter || key.code == KeyCode::Char('X'),
    ensures
        ({
            let (after, step) = model::pressed(s, key, log_len);
            &&& after == (NavView { pending: after.pending, ..s })
            &&& key.code == KeyCode::Enter ==> after.pending is Checking
            &&& key.code == KeyCode::Char('X') ==> after.pending is Dropping
            &&& step.next matches NextView::Ask(RequestView::Probe(ops)) && ops.len()
                == s.plan.len() && forall|i: int|
                0 <= i < ops.len() ==> #[trigger] ops[i] == s.plan[i].op
        }),
{
}

/// What `X` leaves of a plan is what can run, in its order, with the cursor on the row it
/// was on as far as there are any.
pub proof fn law_only_what_can_run_is_left(
    s: NavView,
    presence: Seq<Presence>,
    staged: StagedView,
)
    requires
        s.pending is Dropping,
        presence.len() == s.plan.len(),
    ensures
        model::resumed(s, ReplyView::Probed(presence)).0.plan.contains(staged) <==> exists|i: int|
            0 <= i < s.plan.len() && #[trigger] s.plan[i] == staged && can_run(
                staged.op,
                presence[i],
            ),
        ({
            let (after, step) = model::resumed(s, ReplyView::Probed(presence));
            &&& after == (NavView {
                plan: after.plan,
                review_selected: after.review_selected,
                pending: PendingView::Idle,
                ..s
            })
            &&& after.review_selected == if after.plan.len() == 0 {
                0
            } else if s.review_selected < after.plan.len() {
                s.review_selected
            } else {
                after.plan.len() - 1
            }
            &&& step.next == NextView::Done(Outcome::Stay)
        }),
{
    key_laws::law_dropping_the_blocked_leaves_the_rest(s, presence, staged);
    assert forall|i: int| 0 <= i < s.plan.len() && #[trigger] s.plan[i] == staged implies (
    fs_ops::blocked_by(staged.op, presence[i]) is None <==> can_run(staged.op, presence[i])) by {
        law_blocked_is_what_cannot_run(staged.op, presence[i]);
    }
}

/// Each operation of a plan is run in its turn, whatever came of those before it. When the
/// last has been run, what is left staged is what failed, in order and each with its reason;
/// the marks are gone, the directory is listed again, and the review is shown if anything
/// failed.
pub proof fn law_running_goes_through_the_plan(
    s: NavView,
    done: int,
    failures: Seq<(OpView, Seq<char>)>,
    result: Result<(), ErrxView>,
)
    requires
        s.pending == (PendingView::Running { done, failures }),
        0 <= done < s.plan.len(),
    ensures
        ({
            let (after, step) = model::resumed(s, ReplyView::Applied(result));
            let all = match result {
                Ok(()) => failures,
                Err(errx) => failures.push((s.plan[done].op, errx.knd.words())),
            };
            if done + 1 < s.plan.len() {
                &&& after == (NavView {
                    pending: PendingView::Running { done: done + 1, failures: all },
                    ..s
                })
                &&& step.next == NextView::Ask(RequestView::Apply(s.plan[done + 1].op))
            } else {
                &&& after.plan.len() == all.len()
                &&& forall|i: int|
                    0 <= i < all.len() ==> (#[trigger] after.plan[i]).op == all[i].0
                        && after.plan[i].failure == Some(all[i].1)
                &&& after.marks.len() == 0
                &&& after.mode == if all.len() == 0 {
                    ModeView::Normal
                } else {
                    ModeView::Review
                }
                &&& after.current_dir == s.current_dir && after.entries == s.entries
                &&& step.next == NextView::Ask(RequestView::ListDir(s.current_dir))
            }
        }),
{
}

} // verus!
