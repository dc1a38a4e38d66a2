//! What holds of every operation, however the filesystem answers.
use crate::error::{self, ErrxView, FaultView};
use crate::io::fs_ops::{
    self, FsReplyView, FsRequestView, JobStepView, Metadata, Presence, TaskView,
};
use crate::logging::store::LogLevel;
use crate::notice::NoticeView;
use crate::path;
use crate::path_laws;
use crate::plan::{OpView, Problem};
use crate::plan_laws;
use crate::text;
use crate::text_laws;
use vstd::prelude::*;

verus! {

broadcast use {vstd::seq::group_seq_axioms, vstd::seq_lib::group_seq_properties};

/// Whether a task is a step of copying.
pub open spec fn copies(task: TaskView) -> bool {
    task is Copy || task is CopyLink || task is Link || task is CopyFile || task is CopyDir
        || task is CopyEntries || task is BadEntry || task is SetMode
}

/// Whether a task removes what is at `path`.
pub open spec fn removes(task: TaskView, path: Seq<u8>) -> bool {
    task == TaskView::Remove(path) || task == TaskView::RemoveFile(path) || task
        == TaskView::RemoveDirs(path)
}

/// Whether a task removes anything.
pub open spec fn removes_something(task: TaskView) -> bool {
    task is Remove || task is RemoveFile || task is RemoveDirs
}

/// All that is to be done before a removal is copying.
pub open spec fn removal_waits(tasks: Seq<TaskView>) -> bool {
    forall|i: int, j: int|
        0 <= i < j < tasks.len() && removes_something(#[trigger] tasks[i]) ==> copies(
            #[trigger] tasks[j],
        )
}

/// Nothing but `path` is to be removed.
pub open spec fn removes_only(tasks: Seq<TaskView>, path: Seq<u8>) -> bool {
    forall|i: int|
        0 <= i < tasks.len() && removes_something(#[trigger] tasks[i]) ==> removes(tasks[i], path)
}

/// Nothing but `path` is to be renamed.
pub open spec fn renames_only(tasks: Seq<TaskView>, path: Seq<u8>) -> bool {
    forall|i: int|
        0 <= i < tasks.len() ==> (#[trigger] tasks[i] matches TaskView::Rename { from, to } ==> from
            == path)
}

/// An operation only ever takes away the path it reads from, and only once all of
/// that has been copied: to begin with nothing is to be removed, and whatever the
/// filesystem answers, a removal stays behind all the copying.
pub proof fn law_nothing_is_removed_before_it_is_copied(op: OpView, trash: Seq<u8>)
    ensures
        removal_waits(fs_ops::tasks_for(op, trash)),
        forall|path: Seq<u8>| removes_only(fs_ops::tasks_for(op, trash), path),
        op.source() matches Some(source) ==> renames_only(fs_ops::tasks_for(op, trash), source),
{
}

/// The same, carried on from one answer to the next.
pub proof fn law_removal_stays_behind_the_copy(
    tasks: Seq<TaskView>,
    reply: FsReplyView,
    source: Seq<u8>,
)
    requires
        removal_waits(tasks),
        removes_only(tasks, source),
        renames_only(tasks, source),
        fs_ops::awaited(tasks, reply),
    ensures
        fs_ops::after_reply(tasks, reply) matches Ok(left) ==> removal_waits(left) && removes_only(
            left,
            source,
        ) && renames_only(left, source),
{
    let rest = tasks.drop_last();
    let top = tasks.last();
    match fs_ops::after_reply(tasks, reply) {
        Err(_) => {},
        Ok(left) => {
            assert(forall|i: int| 0 <= i < rest.len() ==> #[trigger] rest[i] == tasks[i]);
            match (top, reply) {
                (TaskView::CopyEntries { from, to, mode }, FsReplyView::Listed(Ok(names))) => {
                    let added = fs_ops::entry_tasks(from, to, names);
                    let kept = rest.push(TaskView::SetMode { to, mode });
                    assert(left =~= kept + added);
                    assert forall|i: int| 0 <= i < left.len() implies (i < rest.len()
                        && #[trigger] left[i] == tasks[i]) || (i >= rest.len() && copies(
                        left[i],
                    )) by {
                        if i > rest.len() {
                            assert(left[i] == added[i - kept.len()]);
                        }
                    }
                },
                _ => {
                    assert(forall|i: int|
                        0 <= i < left.len() && i < rest.len() ==> #[trigger] left[i] == tasks[i]);
                },
            }
        },
    }
}

/// A copy and a move write over nothing: before anything else they look at their
/// destination, and whatever they find there ends them.
pub proof fn law_nothing_is_written_over(op: OpView, trash: Seq<u8>, found: Metadata)
    requires
        op is Copy || op is Move,
    ensures
        ({
            let tasks = fs_ops::tasks_for(op, trash);
            &&& fs_ops::next_step(tasks) == JobStepView::Ask(
                FsRequestView::Look(op.destination()),
            )
            &&& fs_ops::ready(tasks) == tasks
            &&& fs_ops::after_reply(tasks, FsReplyView::Looked(Ok(found))) is Err
        }),
{
}

/// The components of a path with plain components put below it.
proof fn lemma_put_together(base: Seq<u8>, components: Seq<Seq<u8>>)
    requires
        base.len() > 0,
        components.len() > 0,
        forall|i: int|
            0 <= i < components.len() ==> (#[trigger] components[i]).len() > 0
                && !components[i].contains(path::SLASH) && components[i]
                != path::here_component(),
    ensures
        path::components(path::join(base, fs_ops::put_together(components))) == path::components(
            base,
        ) + components,
        fs_ops::put_together(components).len() > 0,
        !path::rooted(fs_ops::put_together(components)),
        fs_ops::put_together(components).last() != path::SLASH,
    decreases components.len(),
{
    let above = components.drop_last();
    let name = components.last();
    let text = fs_ops::put_together(components);
    assert(name[0] != path::SLASH && name.last() != path::SLASH) by {
        if name[0] == path::SLASH || name.last() == path::SLASH {
            assert(name.contains(path::SLASH));
        }
    }
    if above.len() == 0 {
        assert(fs_ops::put_together(above) =~= Seq::empty());
        assert(text =~= name);
        path_laws::lemma_join_component(base, name);
        assert(path::components(base).push(name) =~= path::components(base) + components);
    } else {
        let upper = fs_ops::put_together(above);
        lemma_put_together(base, above);
        assert(text =~= upper.push(path::SLASH) + name);
        let joined = path::join(base, upper);
        assert(joined.last() == upper.last());
        assert(path::join(base, text) =~= path::join(joined, name)) by {
            if base.last() == path::SLASH {
                assert(base + (upper.push(path::SLASH) + name) =~= (base + upper).push(
                    path::SLASH,
                ) + name);
            } else {
                assert(base.push(path::SLASH) + (upper.push(path::SLASH) + name) =~= (base.push(
                    path::SLASH,
                ) + upper).push(path::SLASH) + name);
            }
        }
        path_laws::lemma_join_component(joined, name);
        assert((path::components(base) + above).push(name) =~= path::components(base)
            + components);
    }
}

/// What is trashed keeps its whole path below the trash, so it says where it came
/// from.
pub proof fn law_trash_mirrors_the_tree(path: Seq<u8>, trash: Seq<u8>)
    requires
        path::rooted(path),
        path::components(path).len() > 1,
        trash.len() > 0,
    ensures
        path::components(fs_ops::trashed_path(path, trash)) == path::components(trash)
            + path::components(path).skip(1),
{
    path_laws::lemma_components_shape(path);
    let all = path::components(path);
    let below = fs_ops::below_root(path);
    assert(all[0] == path::root_component());
    assert(below =~= all.skip(1));
    assert forall|i: int| 0 <= i < below.len() implies (#[trigger] below[i]).len() > 0
        && !below[i].contains(path::SLASH) && below[i] != path::here_component() by {
        assert(below[i] == all[i + 1]);
    }
    lemma_put_together(trash, below);
}

/// Two different paths never land in the same place in the trash.
pub proof fn law_trash_never_collides(a: Seq<u8>, b: Seq<u8>, trash: Seq<u8>)
    requires
        path::rooted(a),
        path::rooted(b),
        path::components(a).len() > 1,
        path::components(b).len() > 1,
        path::components(a) != path::components(b),
        trash.len() > 0,
    ensures
        path::components(fs_ops::trashed_path(a, trash)) != path::components(
            fs_ops::trashed_path(b, trash),
        ),
{
    law_trash_mirrors_the_tree(a, trash);
    law_trash_mirrors_the_tree(b, trash);
    path_laws::lemma_components_shape(a);
    path_laws::lemma_components_shape(b);
    let above = path::components(trash);
    let all_a = path::components(a);
    let all_b = path::components(b);
    let rest_a = all_a.skip(1);
    let rest_b = all_b.skip(1);
    if above + rest_a == above + rest_b {
        assert((above + rest_a).skip(above.len() as int) =~= rest_a);
        assert((above + rest_b).skip(above.len() as int) =~= rest_b);
        assert(all_a =~= seq![path::root_component()] + rest_a);
        assert(all_b =~= seq![path::root_component()] + rest_b);
    }
}

/// Nothing that is seen on the disk lifts a problem that the paths alone have,
/// and all that can keep something from the trash is that it is gone.
pub proof fn law_what_blocks(op: OpView, presence: Presence)
    ensures
        op.problem() is Some ==> fs_ops::blocked_by(op, presence) == op.problem(),
        op is Trash ==> fs_ops::blocked_by(op, presence) == if presence.source {
            None::<Problem>
        } else {
            Some(Problem::SourceMissing)
        },
        fs_ops::blocked_by(op, presence) is None && !(op is Trash) ==> !presence.destination,
        fs_ops::blocked_by(op, presence) is None && op.source() is Some ==> presence.source,
{
}

/// Making a file or a directory asks for just that, and is done once it has been made. If it
/// could not be made, that is the error.
pub proof fn law_creating_makes_just_that(path: Seq<u8>, trash: Seq<u8>, fault: FaultView)
    ensures
        fs_ops::next_step(fs_ops::tasks_for(OpView::CreateFile(path), trash)) == JobStepView::Ask(
            FsRequestView::MakeFile(path),
        ),
        fs_ops::next_step(fs_ops::tasks_for(OpView::CreateDir(path), trash)) == JobStepView::Ask(
            FsRequestView::MakeDir(path),
        ),
        fs_ops::after_reply(
            fs_ops::tasks_for(OpView::CreateFile(path), trash),
            FsReplyView::Done(Ok(())),
        ) == Ok::<Seq<TaskView>, ErrxView>(Seq::empty()),
        fs_ops::after_reply(
            fs_ops::tasks_for(OpView::CreateDir(path), trash),
            FsReplyView::Done(Ok(())),
        ) == Ok::<Seq<TaskView>, ErrxView>(Seq::empty()),
        fs_ops::after_reply(
            fs_ops::tasks_for(OpView::CreateFile(path), trash),
            FsReplyView::Done(Err(fault)),
        ) is Err,
        fs_ops::after_reply(
            fs_ops::tasks_for(OpView::CreateDir(path), trash),
            FsReplyView::Done(Err(fault)),
        ) is Err,
        fs_ops::next_step(Seq::empty()) == JobStepView::Done(Ok(())),
{
    let file = fs_ops::tasks_for(OpView::CreateFile(path), trash);
    let dir = fs_ops::tasks_for(OpView::CreateDir(path), trash);
    assert(file.drop_last() =~= Seq::empty());
    assert(dir.drop_last() =~= Seq::empty());
}

/// Whatever the filesystem refuses ends an operation with an error, but for two things: that
/// nothing is where something is to go, and a rename that leads to another filesystem.
pub proof fn law_a_refusal_ends_the_operation(tasks: Seq<TaskView>, reply: FsReplyView)
    requires
        fs_ops::awaited(tasks, reply),
        !(tasks.last() is Vacant),
        match reply {
            FsReplyView::Done(done) => done is Err && !(tasks.last() is Rename && done->Err_0.code
                == Some(18i32)),
            FsReplyView::Looked(looked) => looked is Err,
            FsReplyView::LinkRead(read) => read is Err,
            FsReplyView::Listed(listed) => listed is Err,
        },
    ensures
        fs_ops::after_reply(tasks, reply) is Err,
{
}

/// Every running navigator has a trash of its own: below the temporary directory, under a
/// name of its own and then the number of the process. No two processes share one.
pub proof fn law_each_process_has_its_own_trash(temp_dir: Seq<u8>, process: u32, other: u32)
    ensures
        path::components(fs_ops::trash_dir(temp_dir, process)) == path::components(temp_dir).push(
            vstd::utf8::encode_utf8("nav-trash"@),
        ).push(vstd::utf8::encode_utf8(text::decimal_text(process as nat))),
        process != other ==> path::components(fs_ops::trash_dir(temp_dir, process))
            != path::components(fs_ops::trash_dir(temp_dir, other)),
{
    let name = "nav-trash"@;
    lemma_trash_components(temp_dir, process);
    lemma_trash_components(temp_dir, other);
    let mine = text::decimal_text(process as nat);
    let theirs = text::decimal_text(other as nat);
    text_laws::law_decimal_reads_back(process as nat);
    text_laws::law_decimal_reads_back(other as nat);
    vstd::utf8::encode_utf8_decode_utf8(mine);
    vstd::utf8::encode_utf8_decode_utf8(theirs);
    let a = path::components(fs_ops::trash_dir(temp_dir, process));
    let b = path::components(fs_ops::trash_dir(temp_dir, other));
    assert(a.last() == vstd::utf8::encode_utf8(mine));
    assert(b.last() == vstd::utf8::encode_utf8(theirs));
}

proof fn lemma_trash_components(temp_dir: Seq<u8>, process: u32)
    ensures
        path::components(fs_ops::trash_dir(temp_dir, process)) == path::components(temp_dir).push(
            vstd::utf8::encode_utf8("nav-trash"@),
        ).push(vstd::utf8::encode_utf8(text::decimal_text(process as nat))),
{
    let name = "nav-trash"@;
    reveal_strlit("nav-trash");
    assert(name.len() == 9);
    assert forall|i: int| 0 <= i < name.len() implies name[i] != '/' by {}
    assert(plan_laws::plain_name(name));
    plan_laws::lemma_plain_name(name);
    let digits = text::decimal_text(process as nat);
    text_laws::law_decimal_reads_back(process as nat);
    assert forall|i: int| 0 <= i < digits.len() implies digits[i] != '/' && digits[i] != '.' by {}
    if digits == seq!['.'] || digits == seq!['.', '.'] {
        assert(digits[0] == '.');
    }
    assert(plan_laws::plain_name(digits));
    plan_laws::lemma_plain_name(digits);
    let above = path::join(temp_dir, vstd::utf8::encode_utf8(name));
    path_laws::law_joined_entry_lies_in_its_directory(temp_dir, vstd::utf8::encode_utf8(name));
    path_laws::law_joined_entry_lies_in_its_directory(above, vstd::utf8::encode_utf8(digits));
}

/// That a rename leads to another filesystem is told; nothing else that is answered is.
pub proof fn law_only_a_crossing_is_told(tasks: Seq<TaskView>, reply: FsReplyView)
    requires
        tasks.len() > 0,
    ensures
        ({
            let crossing = tasks.last() is Rename && reply is Done && reply->Done_0 is Err
                && reply->Done_0->Err_0.code == Some(18i32);
            &&& !crossing ==> fs_ops::reply_told(tasks, reply).len() == 0
            &&& crossing ==> (tasks.last() matches TaskView::Rename { from, to }
                && fs_ops::reply_told(tasks, reply) == seq![
                NoticeView {
                    level: LogLevel::Info,
                    text: text::lossy_text(from) + " is on another filesystem, copying instead"@,
                },
            ])
        }),
{
}

/// What has no name has no place of its own in the trash.
pub proof fn law_the_root_has_no_place_in_the_trash(path: Seq<u8>, trash: Seq<u8>)
    requires
        path::components(path).len() == 0 || path::components(path) == seq![seq![47u8]],
        trash.len() > 0,
    ensures
        path::components(fs_ops::trashed_path(path, trash)) == path::components(trash),
{
    let nothing = Seq::<u8>::empty();
    let below = fs_ops::below_root(path);
    assert(below =~= Seq::empty()) by {
        if path::components(path).len() > 0 {
            assert(path::components(path)[0] == path::root_component());
        }
    }
    assert(fs_ops::put_together(below) =~= nothing);
    if trash.last() == path::SLASH {
        assert(trash + nothing =~= trash);
    } else {
        assert(trash.push(path::SLASH) + nothing =~= trash.push(path::SLASH));
        path_laws::lemma_slash_at_end(trash);
    }
}

/// The entries of a directory are copied in the order they were listed in. When it is the
/// turn of one whose name could not be read, the copy ends there with the reason.
pub proof fn law_entries_are_copied_in_turn(
    rest: Seq<TaskView>,
    from: Seq<u8>,
    to: Seq<u8>,
    mode: u32,
    names: Seq<Result<Seq<u8>, FaultView>>,
    i: int,
)
    requires
        0 <= i < names.len(),
    ensures
        ({
            let tasks = rest.push(TaskView::CopyEntries { from, to, mode });
            &&& fs_ops::after_reply(tasks, FsReplyView::Listed(Ok(names))) matches Ok(left)
            &&& left.len() == rest.len() + 1 + names.len()
            &&& left.take(rest.len() as int) == rest
            &&& fs_ops::next_step(left.take(rest.len() as int + 1)) == JobStepView::Ask(
                FsRequestView::SetMode { path: to, mode },
            )
            &&& names[i] matches Ok(name) ==> left[left.len() - 1 - i] == (TaskView::Copy {
                from: path::join(from, name),
                to: path::join(to, name),
            })
            &&& names[i] matches Err(fault) ==> (fs_ops::next_step(
                left.take(left.len() - i),
            ) matches JobStepView::Done(Err(errx)) && errx.chain() == seq![
                "IO: "@ + ("reading "@ + text::lossy_text(from)),
                fault.text,
            ] + fault.causes)
        }),
{
    let tasks = rest.push(TaskView::CopyEntries { from, to, mode });
    assert(tasks.drop_last() =~= rest);
    let left = rest.push(TaskView::SetMode { to, mode }) + fs_ops::entry_tasks(from, to, names);
    assert(left.take(rest.len() as int) =~= rest);
    assert(left.take(rest.len() as int + 1).last() == TaskView::SetMode { to, mode });
    let turn = left.take(left.len() - i);
    assert(turn.last() == left[left.len() - 1 - i]);
    assert(turn.last() == fs_ops::entry_tasks(from, to, names)[names.len() - 1 - i]);
    if let Err(fault) = names[i] {
        error::law_what_an_error_says(fault, "reading "@ + text::lossy_text(from));
    }
}

} // verus!
