//! What copying, moving and trashing do to a whole tree, when the filesystem answers
//! as one that holds the tree.
use crate::error::FaultView;
use crate::io::fs_ops::{
    self, FsReplyView, FsRequestView, JobStepView, Metadata, TaskView, CROSS_DEVICE,
};
use crate::logging::store::LogLevel;
use crate::notice::NoticeView;
use crate::path;
use crate::plan::OpView;
use crate::text;
use vstd::prelude::*;

verus! {

broadcast use {vstd::seq::group_seq_axioms, vstd::seq_lib::group_seq_properties};

/// What a path holds, with all that is below it.
pub enum Holding {
    Link { mode: u32, target: Seq<u8> },
    File { mode: u32 },
    Dir { mode: u32, entries: Seq<(Seq<u8>, Holding)> },
}

impl Holding {
    /// What looking at it gives, links not followed.
    pub open spec fn metadata(self) -> Metadata {
        match self {
            Holding::Link { mode, target } => Metadata { symlink: true, dir: false, mode },
            Holding::File { mode } => Metadata { symlink: false, dir: false, mode },
            Holding::Dir { mode, entries } => Metadata { symlink: false, dir: true, mode },
        }
    }
}

/// The names in a directory.
pub open spec fn names_of(entries: Seq<(Seq<u8>, Holding)>) -> Seq<Result<Seq<u8>, FaultView>> {
    Seq::new(entries.len(), |i: int| Ok::<Seq<u8>, FaultView>(entries[i].0))
}

/// What it takes to have `tree` at `to` as it is at `from`: a link is made anew where
/// the link points, a file is copied, and a directory is made, filled with all its
/// entries, and only then given its mode.
pub open spec fn copying(tree: Holding, from: Seq<u8>, to: Seq<u8>) -> Seq<FsRequestView>
    decreases tree, 0nat,
{
    match tree {
        Holding::Link { mode, target } => seq![
            FsRequestView::Look(from),
            FsRequestView::ReadLink(from),
            FsRequestView::MakeLink { target, at: to },
        ],
        Holding::File { mode } => seq![
            FsRequestView::Look(from),
            FsRequestView::CopyFile { from, to },
        ],
        Holding::Dir { mode, entries } => seq![
            FsRequestView::Look(from),
            FsRequestView::MakeDir(to),
            FsRequestView::List(from),
        ] + copying_entries(entries, 0, from, to) + seq![
            FsRequestView::SetMode { path: to, mode },
        ],
    }
}

/// The same for the entries of a directory, from the one at `at` on.
pub open spec fn copying_entries(
    entries: Seq<(Seq<u8>, Holding)>,
    at: int,
    from: Seq<u8>,
    to: Seq<u8>,
) -> Seq<FsRequestView>
    decreases entries, entries.len() - at,
{
    if 0 <= at < entries.len() {
        let (name, tree) = entries[at];
        copying(tree, path::join(from, name), path::join(to, name)) + copying_entries(
            entries,
            at + 1,
            from,
            to,
        )
    } else {
        Seq::empty()
    }
}

/// What a filesystem that holds `tree` answers while it is copied.
pub open spec fn answering(tree: Holding) -> Seq<FsReplyView>
    decreases tree, 0nat,
{
    let looked = FsReplyView::Looked(Ok(tree.metadata()));
    let done = FsReplyView::Done(Ok(()));
    match tree {
        Holding::Link { mode, target } => seq![looked, FsReplyView::LinkRead(Ok(target)), done],
        Holding::File { mode } => seq![looked, done],
        Holding::Dir { mode, entries } => seq![
            looked,
            done,
            FsReplyView::Listed(Ok(names_of(entries))),
        ] + answering_entries(entries, 0) + seq![done],
    }
}

/// The same for the entries of a directory, from the one at `at` on.
pub open spec fn answering_entries(entries: Seq<(Seq<u8>, Holding)>, at: int) -> Seq<FsReplyView>
    decreases entries, entries.len() - at,
{
    if 0 <= at < entries.len() {
        answering(entries[at].1) + answering_entries(entries, at + 1)
    } else {
        Seq::empty()
    }
}

/// What a job asks when it is given these answers one after the other, and what is
/// left of it then. `None` where it ends before the last of them, or an answer is not
/// to what was asked.
pub open spec fn transcript(tasks: Seq<TaskView>, replies: Seq<FsReplyView>) -> Option<
    (Seq<FsRequestView>, Seq<TaskView>),
>
    decreases replies.len(),
{
    if replies.len() == 0 {
        Some((Seq::empty(), tasks))
    } else {
        let ready = fs_ops::ready(tasks);
        match fs_ops::next_step(ready) {
            JobStepView::Done(_) => None,
            JobStepView::Ask(request) => if !fs_ops::answers(request, replies[0]) {
                None
            } else {
                match fs_ops::after_reply(ready, replies[0]) {
                    Err(_) => None,
                    Ok(left) => match transcript(left, replies.skip(1)) {
                        None => None,
                        Some((asked, end)) => Some((seq![request] + asked, end)),
                    },
                }
            },
        }
    }
}

/// One answer, then the others.
proof fn lemma_first(tasks: Seq<TaskView>, reply: FsReplyView, more: Seq<FsReplyView>)
    ensures
        transcript(tasks, seq![reply] + more) == match fs_ops::next_step(fs_ops::ready(tasks)) {
            JobStepView::Done(_) => None,
            JobStepView::Ask(request) => if !fs_ops::answers(request, reply) {
                None
            } else {
                match fs_ops::after_reply(fs_ops::ready(tasks), reply) {
                    Err(_) => None,
                    Ok(left) => match transcript(left, more) {
                        None => None,
                        Some((asked, end)) => Some((seq![request] + asked, end)),
                    },
                }
            },
        },
{
    assert((seq![reply] + more).skip(1) =~= more);
}

/// Some answers, then the others.
proof fn lemma_one_after_the_other(
    tasks: Seq<TaskView>,
    first: Seq<FsReplyView>,
    more: Seq<FsReplyView>,
)
    ensures
        transcript(tasks, first) matches Some(begun) ==> transcript(tasks, first + more) == match (
            transcript(begun.1, more)
        ) {
            None => None,
            Some((asked, end)) => Some((begun.0 + asked, end)),
        },
    decreases first.len(),
{
    if first.len() == 0 {
        assert(first + more =~= more);
        match transcript(tasks, more) {
            None => {},
            Some((asked, end)) => {
                assert(Seq::<FsRequestView>::empty() + asked =~= asked);
            },
        }
    } else {
        let rest = first.skip(1);
        assert(first =~= seq![first[0]] + rest);
        assert(first + more =~= seq![first[0]] + (rest + more));
        lemma_first(tasks, first[0], rest);
        lemma_first(tasks, first[0], rest + more);
        match fs_ops::next_step(fs_ops::ready(tasks)) {
            JobStepView::Done(_) => {},
            JobStepView::Ask(request) => {
                if let Ok(left) = fs_ops::after_reply(fs_ops::ready(tasks), first[0]) {
                    lemma_one_after_the_other(left, rest, more);
                    if let Some((asked, end)) = transcript(left, rest) {
                        if let Some((later, last)) = transcript(end, more) {
                            assert(seq![request] + (asked + later) =~= (seq![request] + asked)
                                + later);
                        }
                    }
                }
            },
        }
    }
}

/// A step that asks for something and is given its answer.
proof fn lemma_step(tasks: Seq<TaskView>, reply: FsReplyView, more: Seq<FsReplyView>)
    requires
        fs_ops::awaited(tasks, reply),
        fs_ops::after_reply(tasks, reply) is Ok,
    ensures
        transcript(tasks, seq![reply] + more) == match transcript(
            fs_ops::after_reply(tasks, reply)->Ok_0,
            more,
        ) {
            None => None,
            Some((asked, end)) => Some(
                (seq![fs_ops::request_of(tasks.last())] + asked, end),
            ),
        },
{
    lemma_first(tasks, reply, more);
}

/// Copying what a path holds, on top of whatever is to be done after it.
proof fn lemma_copying(tree: Holding, from: Seq<u8>, to: Seq<u8>, rest: Seq<TaskView>)
    ensures
        transcript(rest.push(TaskView::Copy { from, to }), answering(tree)) == Some(
            (copying(tree, from, to), rest),
        ),
    decreases tree, 1nat,
{
    let begun = rest.push(TaskView::Copy { from, to });
    let looked = FsReplyView::Looked(Ok(tree.metadata()));
    let done = FsReplyView::Done(Ok(()));
    let nothing = Seq::<FsReplyView>::empty();
    let replies = answering(tree);
    assert(begun.drop_last() =~= rest);
    match tree {
        Holding::Link { mode, target } => {
            let second = rest.push(TaskView::CopyLink { from, to });
            let third = rest.push(TaskView::Link { target, to });
            assert(second.drop_last() =~= rest);
            assert(third.drop_last() =~= rest);
            let read = FsReplyView::LinkRead(Ok(target));
            assert(replies =~= seq![looked] + (seq![read] + (seq![done] + nothing)));
            lemma_step(begun, looked, seq![read] + (seq![done] + nothing));
            lemma_step(second, read, seq![done] + nothing);
            lemma_step(third, done, nothing);
            assert(copying(tree, from, to) =~= seq![FsRequestView::Look(from)] + (seq![
                FsRequestView::ReadLink(from),
            ] + (seq![FsRequestView::MakeLink { target, at: to }] + Seq::empty())));
        },
        Holding::File { mode } => {
            let second = rest.push(TaskView::CopyFile { from, to });
            assert(second.drop_last() =~= rest);
            assert(replies =~= seq![looked] + (seq![done] + nothing));
            lemma_step(begun, looked, seq![done] + nothing);
            lemma_step(second, done, nothing);
            assert(copying(tree, from, to) =~= seq![FsRequestView::Look(from)] + (seq![
                FsRequestView::CopyFile { from, to },
            ] + Seq::empty()));
        },
        Holding::Dir { mode, entries } => {
            let second = rest.push(TaskView::CopyDir { from, to, mode });
            let third = rest.push(TaskView::CopyEntries { from, to, mode });
            let last = rest.push(TaskView::SetMode { to, mode });
            assert(second.drop_last() =~= rest);
            assert(third.drop_last() =~= rest);
            assert(last.drop_last() =~= rest);
            let listed = FsReplyView::Listed(Ok(names_of(entries)));
            let inside = answering_entries(entries, 0);
            let filled = inside + seq![done];
            assert(replies =~= seq![looked] + (seq![done] + (seq![listed] + filled)));
            lemma_step(begun, looked, seq![done] + (seq![listed] + filled));
            lemma_step(second, done, seq![listed] + filled);
            lemma_step(third, listed, filled);
            assert(names_of(entries).skip(0) =~= names_of(entries));
            lemma_copying_entries(entries, 0, from, to, last);
            let filling = last + fs_ops::entry_tasks(from, to, names_of(entries));
            lemma_one_after_the_other(filling, inside, seq![done]);
            assert(seq![done] =~= seq![done] + nothing);
            lemma_step(last, done, nothing);
            let set = FsRequestView::SetMode { path: to, mode };
            let middle = copying_entries(entries, 0, from, to);
            assert(seq![set] + Seq::<FsRequestView>::empty() =~= seq![set]);
            assert(copying(tree, from, to) =~= seq![FsRequestView::Look(from)] + (seq![
                FsRequestView::MakeDir(to),
            ] + (seq![FsRequestView::List(from)] + (middle + seq![set]))));
        },
    }
}

/// Copying the entries of a directory, from the one at `at` on.
proof fn lemma_copying_entries(
    entries: Seq<(Seq<u8>, Holding)>,
    at: int,
    from: Seq<u8>,
    to: Seq<u8>,
    rest: Seq<TaskView>,
)
    requires
        0 <= at <= entries.len(),
    ensures
        transcript(
            rest + fs_ops::entry_tasks(from, to, names_of(entries).skip(at)),
            answering_entries(entries, at),
        ) == Some((copying_entries(entries, at, from, to), rest)),
    decreases entries, entries.len() - at,
{
    let names = names_of(entries);
    let tasks = fs_ops::entry_tasks(from, to, names.skip(at));
    if at == entries.len() {
        assert(tasks =~= Seq::empty());
        assert(rest + tasks =~= rest);
    } else {
        let (name, tree) = entries[at];
        let later = fs_ops::entry_tasks(from, to, names.skip(at + 1));
        let (below, beside) = (path::join(from, name), path::join(to, name));
        assert(names.skip(at)[0] == names[at]);
        assert(tasks =~= later.push(TaskView::Copy { from: below, to: beside })) by {
            assert forall|i: int| 0 <= i < later.len() implies tasks[i] == later[i] by {
                let n = names.skip(at).len();
                assert(names.skip(at)[n - 1 - i] == names[at + n - 1 - i]);
                assert(names.skip(at + 1)[n - 2 - i] == names[at + n - 1 - i]);
            }
        }
        assert(rest + tasks =~= (rest + later).push(TaskView::Copy { from: below, to: beside }));
        lemma_copying(tree, below, beside, rest + later);
        lemma_copying_entries(entries, at + 1, from, to, rest);
        lemma_one_after_the_other(
            rest + tasks,
            answering(tree),
            answering_entries(entries, at + 1),
        );
    }
}

/// A copy brings the whole tree: once it has seen that nothing is at `to`, it asks for
/// all that has the tree there, for nothing else, and is then done.
pub proof fn law_a_copy_brings_the_whole_tree(
    tree: Holding,
    from: Seq<u8>,
    to: Seq<u8>,
    trash: Seq<u8>,
    vacant: FaultView,
)
    ensures
        transcript(
            fs_ops::tasks_for(OpView::Copy { from, to }, trash),
            seq![FsReplyView::Looked(Err(vacant))] + answering(tree),
        ) == Some(
            (
                seq![FsRequestView::Look(to)] + copying(tree, from, to),
                Seq::<TaskView>::empty(),
            ),
        ),
{
    let tasks = fs_ops::tasks_for(OpView::Copy { from, to }, trash);
    let nothing = Seq::<TaskView>::empty();
    let left = nothing.push(TaskView::Copy { from, to });
    assert(tasks.drop_last() =~= left);
    lemma_step(tasks, FsReplyView::Looked(Err(vacant)), answering(tree));
    lemma_copying(tree, from, to, nothing);
}

/// A move within one filesystem is a single rename, once nothing is seen at `to`.
pub proof fn law_a_move_is_one_rename(
    from: Seq<u8>,
    to: Seq<u8>,
    trash: Seq<u8>,
    vacant: FaultView,
)
    ensures
        transcript(
            fs_ops::tasks_for(OpView::Move { from, to }, trash),
            seq![FsReplyView::Looked(Err(vacant)), FsReplyView::Done(Ok(()))],
        ) == Some(
            (
                seq![FsRequestView::Look(to), FsRequestView::Rename { from, to }],
                Seq::<TaskView>::empty(),
            ),
        ),
{
    let tasks = fs_ops::tasks_for(OpView::Move { from, to }, trash);
    let nothing = Seq::<FsReplyView>::empty();
    let (looked, done) = (FsReplyView::Looked(Err(vacant)), FsReplyView::Done(Ok(())));
    let left = Seq::<TaskView>::empty().push(TaskView::Rename { from, to });
    assert(tasks.drop_last() =~= left);
    assert(left.drop_last() =~= Seq::empty());
    assert(seq![looked, done] =~= seq![looked] + (seq![done] + nothing));
    lemma_step(tasks, looked, seq![done] + nothing);
    lemma_step(left, done, nothing);
    assert(seq![FsRequestView::Look(to), FsRequestView::Rename { from, to }] =~= seq![
        FsRequestView::Look(to),
    ] + (seq![FsRequestView::Rename { from, to }] + Seq::empty()));
}

/// What removes a tree: a link is removed as a link, whatever it points at.
pub open spec fn removing(tree: Holding, path: Seq<u8>) -> FsRequestView {
    match tree {
        Holding::Dir { mode, entries } => FsRequestView::RemoveDirs(path),
        _ => FsRequestView::RemoveFile(path),
    }
}

/// A move to another filesystem copies the whole tree, and takes the original away
/// only after that.
pub proof fn law_a_move_across_filesystems_copies_before_it_removes(
    tree: Holding,
    from: Seq<u8>,
    to: Seq<u8>,
    trash: Seq<u8>,
    vacant: FaultView,
    crossing: FaultView,
)
    requires
        crossing.code == Some(CROSS_DEVICE),
    ensures
        transcript(
            fs_ops::tasks_for(OpView::Move { from, to }, trash),
            seq![FsReplyView::Looked(Err(vacant)), FsReplyView::Done(Err(crossing))]
                + answering(tree) + seq![
                FsReplyView::Looked(Ok(tree.metadata())),
                FsReplyView::Done(Ok(())),
            ],
        ) == Some(
            (
                seq![FsRequestView::Look(to), FsRequestView::Rename { from, to }] + copying(
                    tree,
                    from,
                    to,
                ) + seq![FsRequestView::Look(from), removing(tree, from)],
                Seq::<TaskView>::empty(),
            ),
        ),
{
    let tasks = fs_ops::tasks_for(OpView::Move { from, to }, trash);
    let nothing = Seq::<FsReplyView>::empty();
    let free = FsReplyView::Looked(Err(vacant));
    let crossed = FsReplyView::Done(Err(crossing));
    let looked = FsReplyView::Looked(Ok(tree.metadata()));
    let done = FsReplyView::Done(Ok(()));
    let empty = Seq::<TaskView>::empty();
    let renaming = empty.push(TaskView::Rename { from, to });
    let removal = empty.push(TaskView::Remove(from));
    let copy = removal.push(TaskView::Copy { from, to });
    let last = empty.push(
        if tree is Dir {
            TaskView::RemoveDirs(from)
        } else {
            TaskView::RemoveFile(from)
        },
    );
    let removed = seq![looked] + (seq![done] + nothing);
    assert(tasks.drop_last() =~= renaming);
    assert(renaming.drop_last() =~= empty);
    assert(removal.drop_last() =~= empty);
    assert(last.drop_last() =~= empty);
    assert(seq![free, crossed] + answering(tree) + seq![looked, done] =~= seq![free] + (seq![
        crossed,
    ] + (answering(tree) + removed)));
    lemma_step(tasks, free, seq![crossed] + (answering(tree) + removed));
    lemma_step(renaming, crossed, answering(tree) + removed);
    lemma_copying(tree, from, to, removal);
    lemma_one_after_the_other(copy, answering(tree), removed);
    lemma_step(removal, looked, seq![done] + nothing);
    lemma_step(last, done, nothing);
    let copied = copying(tree, from, to);
    let gone = seq![FsRequestView::Look(from)] + (seq![removing(tree, from)] + Seq::empty());
    assert(seq![FsRequestView::Look(to), FsRequestView::Rename { from, to }] + copied + seq![
        FsRequestView::Look(from),
        removing(tree, from),
    ] =~= seq![FsRequestView::Look(to)] + (seq![FsRequestView::Rename { from, to }] + (copied
        + gone)));
}

/// Trashing takes whatever is at `path`, whole: room is made for it in the trash, and
/// one rename puts it there. It is then told where it went.
pub proof fn law_trashing_takes_the_whole_tree(path: Seq<u8>, trash: Seq<u8>, above: Seq<u8>)
    requires
        path::parent(fs_ops::trashed_path(path, trash)) == Some(above),
    ensures
        ({
            let to = fs_ops::trashed_path(path, trash);
            let done = FsReplyView::Done(Ok(()));
            transcript(fs_ops::tasks_for(OpView::Trash(path), trash), seq![done, done]) matches Some(
                (asked, left),
            ) && asked == seq![
                FsRequestView::MakeDirs(above),
                FsRequestView::Rename { from: path, to },
            ] && fs_ops::ready(left) == Seq::<TaskView>::empty() && fs_ops::ready_told(left)
                == seq![
                NoticeView {
                    level: LogLevel::Info,
                    text: "Trashed "@ + text::lossy_text(path) + " to "@ + text::lossy_text(to),
                },
            ]
        }),
{
    let to = fs_ops::trashed_path(path, trash);
    let done = FsReplyView::Done(Ok(()));
    let nothing = Seq::<FsReplyView>::empty();
    let tasks = fs_ops::tasks_for(OpView::Trash(path), trash);
    let told = Seq::<TaskView>::empty().push(TaskView::TellTrashed { from: path, to });
    let renaming = told.push(TaskView::Rename { from: path, to });
    assert(tasks.drop_last() =~= renaming);
    assert(renaming.drop_last() =~= told);
    assert(told.drop_last() =~= Seq::empty());
    assert(seq![done, done] =~= seq![done] + (seq![done] + nothing));
    lemma_step(tasks, done, seq![done] + nothing);
    lemma_step(renaming, done, nothing);
    assert(seq![FsRequestView::MakeDirs(above), FsRequestView::Rename { from: path, to }] =~= seq![
        FsRequestView::MakeDirs(above),
    ] + (seq![FsRequestView::Rename { from: path, to }] + Seq::empty()));
    reveal_with_fuel(fs_ops::ready, 2);
    reveal_with_fuel(fs_ops::ready_told, 2);
    let one = seq![
        NoticeView {
            level: LogLevel::Info,
            text: "Trashed "@ + text::lossy_text(path) + " to "@ + text::lossy_text(to),
        },
    ];
    assert(one + Seq::<NoticeView>::empty() =~= one);
    assert(fs_ops::ready_told(told.drop_last()) =~= Seq::empty());
    assert(fs_ops::ready_told(told) =~= one);
}

} // verus!
