//! Carrying out staged operations, and the checks that need to ask the disk.
//!
//! An operation is a [`Job`]: a stack of tasks, of which the top one is asked of
//! the filesystem. What came back decides what the stack holds next.
use crate::error::{self, Errx, ErrxView, Fault, FaultView, Resultx};
use crate::logging::store::LogLevel;
use crate::notice::{self, say, Notice, NoticeView};
use crate::path::{self, FilePath};
use crate::plan::{Op, OpView, Problem};
use crate::text::{self, cat, cat3, decimal};
use vstd::prelude::*;
use vstd::string::StringExecFns;

verus! {

broadcast use {vstd::seq::group_seq_axioms, vstd::seq_lib::group_seq_properties};

/// `EXDEV`, the same value on Linux and macOS.
pub const CROSS_DEVICE: i32 = 18;

/// Whether anything is at the paths of an operation, counting broken symlinks:
/// those still occupy the name, and you must be allowed to delete them.
#[derive(Debug, Clone, Copy, PartialEq, Eq, Structural)]
pub struct Presence {
    /// At the path the operation reads from.
    pub source: bool,
    /// At the path the operation writes to.
    pub destination: bool,
}

/// Why `op` cannot run where `presence` is what the disk holds.
pub open spec fn blocked_by(op: OpView, presence: Presence) -> Option<Problem> {
    if op.problem() is Some {
        op.problem()
    } else if op.source() is Some && !presence.source {
        Some(Problem::SourceMissing)
    } else if !(op is Trash) && presence.destination {
        Some(Problem::DestinationExists)
    } else {
        None
    }
}

/// Why `op` cannot run, with what the filesystem said about anything the pure
/// checks in [`Op::problem`] could not know.
pub fn problem(op: &Op, presence: Presence) -> (found: Option<Problem>)
    ensures
        found == blocked_by(op@, presence),
{
    let pure = op.problem();
    if pure.is_some() {
        return pure;
    }
    if op.source().is_some() && !presence.source {
        return Some(Problem::SourceMissing);
    }
    // Trash always has somewhere to put things; everything else writes a new path.
    let trashes = match op {
        Op::Trash(_) => true,
        _ => false,
    };
    if !trashes && presence.destination {
        return Some(Problem::DestinationExists);
    }
    None
}

/// One thing left to do.
#[derive(Debug)]
pub enum Task {
    MakeFile(FilePath),
    MakeDir(FilePath),
    /// Make a directory and all those above it.
    MakeDirs(FilePath),
    /// See that nothing is there yet.
    Vacant(FilePath),
    Rename { from: FilePath, to: FilePath },
    /// Copy whatever is there, once it is known what that is.
    Copy { from: FilePath, to: FilePath },
    CopyLink { from: FilePath, to: FilePath },
    Link { target: FilePath, to: FilePath },
    CopyFile { from: FilePath, to: FilePath },
    CopyDir { from: FilePath, to: FilePath, mode: u32 },
    CopyEntries { from: FilePath, to: FilePath, mode: u32 },
    /// An entry that could not be read when its turn came.
    BadEntry { from: FilePath, fault: Fault },
    SetMode { to: FilePath, mode: u32 },
    /// Remove whatever is there, once it is known what that is.
    Remove(FilePath),
    RemoveFile(FilePath),
    RemoveDirs(FilePath),
    TellTrashed { from: FilePath, to: FilePath },
}

/// One thing left to do, over the bytes of its paths.
pub enum TaskView {
    MakeFile(Seq<u8>),
    MakeDir(Seq<u8>),
    MakeDirs(Seq<u8>),
    Vacant(Seq<u8>),
    Rename { from: Seq<u8>, to: Seq<u8> },
    Copy { from: Seq<u8>, to: Seq<u8> },
    CopyLink { from: Seq<u8>, to: Seq<u8> },
    Link { target: Seq<u8>, to: Seq<u8> },
    CopyFile { from: Seq<u8>, to: Seq<u8> },
    CopyDir { from: Seq<u8>, to: Seq<u8>, mode: u32 },
    CopyEntries { from: Seq<u8>, to: Seq<u8>, mode: u32 },
    BadEntry { from: Seq<u8>, fault: FaultView },
    SetMode { to: Seq<u8>, mode: u32 },
    Remove(Seq<u8>),
    RemoveFile(Seq<u8>),
    RemoveDirs(Seq<u8>),
    TellTrashed { from: Seq<u8>, to: Seq<u8> },
}

impl View for Task {
    type V = TaskView;

    open spec fn view(&self) -> TaskView {
        match self {
            Task::MakeFile(path) => TaskView::MakeFile(path@),
            Task::MakeDir(path) => TaskView::MakeDir(path@),
            Task::MakeDirs(path) => TaskView::MakeDirs(path@),
            Task::Vacant(path) => TaskView::Vacant(path@),
            Task::Rename { from, to } => TaskView::Rename { from: from@, to: to@ },
            Task::Copy { from, to } => TaskView::Copy { from: from@, to: to@ },
            Task::CopyLink { from, to } => TaskView::CopyLink { from: from@, to: to@ },
            Task::Link { target, to } => TaskView::Link { target: target@, to: to@ },
            Task::CopyFile { from, to } => TaskView::CopyFile { from: from@, to: to@ },
            Task::CopyDir { from, to, mode } => TaskView::CopyDir {
                from: from@,
                to: to@,
                mode: *mode,
            },
            Task::CopyEntries { from, to, mode } => TaskView::CopyEntries {
                from: from@,
                to: to@,
                mode: *mode,
            },
            Task::BadEntry { from, fault } => TaskView::BadEntry { from: from@, fault: fault@ },
            Task::SetMode { to, mode } => TaskView::SetMode { to: to@, mode: *mode },
            Task::Remove(path) => TaskView::Remove(path@),
            Task::RemoveFile(path) => TaskView::RemoveFile(path@),
            Task::RemoveDirs(path) => TaskView::RemoveDirs(path@),
            Task::TellTrashed { from, to } => TaskView::TellTrashed { from: from@, to: to@ },
        }
    }
}

/// What is asked of the filesystem.
#[derive(Debug)]
pub enum FsRequest {
    /// Make an empty file where there is none.
    MakeFile(FilePath),
    MakeDir(FilePath),
    /// Make a directory and all those above it that are missing.
    MakeDirs(FilePath),
    Rename { from: FilePath, to: FilePath },
    /// What kind of thing is there, links not followed.
    Look(FilePath),
    /// Where a link points.
    ReadLink(FilePath),
    MakeLink { target: FilePath, at: FilePath },
    CopyFile { from: FilePath, to: FilePath },
    /// The names in a directory.
    List(FilePath),
    SetMode { path: FilePath, mode: u32 },
    RemoveFile(FilePath),
    /// Remove a directory and all it holds.
    RemoveDirs(FilePath),
}

/// What is asked of the filesystem, over the bytes of the paths.
pub enum FsRequestView {
    MakeFile(Seq<u8>),
    MakeDir(Seq<u8>),
    MakeDirs(Seq<u8>),
    Rename { from: Seq<u8>, to: Seq<u8> },
    Look(Seq<u8>),
    ReadLink(Seq<u8>),
    MakeLink { target: Seq<u8>, at: Seq<u8> },
    CopyFile { from: Seq<u8>, to: Seq<u8> },
    List(Seq<u8>),
    SetMode { path: Seq<u8>, mode: u32 },
    RemoveFile(Seq<u8>),
    RemoveDirs(Seq<u8>),
}

impl View for FsRequest {
    type V = FsRequestView;

    open spec fn view(&self) -> FsRequestView {
        match self {
            FsRequest::MakeFile(path) => FsRequestView::MakeFile(path@),
            FsRequest::MakeDir(path) => FsRequestView::MakeDir(path@),
            FsRequest::MakeDirs(path) => FsRequestView::MakeDirs(path@),
            FsRequest::Rename { from, to } => FsRequestView::Rename { from: from@, to: to@ },
            FsRequest::Look(path) => FsRequestView::Look(path@),
            FsRequest::ReadLink(path) => FsRequestView::ReadLink(path@),
            FsRequest::MakeLink { target, at } => FsRequestView::MakeLink {
                target: target@,
                at: at@,
            },
            FsRequest::CopyFile { from, to } => FsRequestView::CopyFile { from: from@, to: to@ },
            FsRequest::List(path) => FsRequestView::List(path@),
            FsRequest::SetMode { path, mode } => FsRequestView::SetMode {
                path: path@,
                mode: *mode,
            },
            FsRequest::RemoveFile(path) => FsRequestView::RemoveFile(path@),
            FsRequest::RemoveDirs(path) => FsRequestView::RemoveDirs(path@),
        }
    }
}

/// What kind of thing is at a path, links not followed.
#[derive(Debug, Clone, Copy)]
pub struct Metadata {
    pub symlink: bool,
    pub dir: bool,
    /// The permission bits.
    pub mode: u32,
}

/// What the filesystem answered.
#[derive(Debug)]
pub enum FsReply {
    Done(Result<(), Fault>),
    Looked(Result<Metadata, Fault>),
    LinkRead(Result<FilePath, Fault>),
    /// The names in the order they came, with the fault in place of one that could
    /// not be read.
    Listed(Result<Vec<Result<Vec<u8>, Fault>>, Fault>),
}

/// What the filesystem answered, over the bytes and texts.
pub enum FsReplyView {
    Done(Result<(), FaultView>),
    Looked(Result<Metadata, FaultView>),
    LinkRead(Result<Seq<u8>, FaultView>),
    Listed(Result<Seq<Result<Seq<u8>, FaultView>>, FaultView>),
}

/// One name in a directory, over its bytes.
pub open spec fn name_view(name: Result<Vec<u8>, Fault>) -> Result<Seq<u8>, FaultView> {
    match name {
        Ok(name) => Ok(name@),
        Err(fault) => Err(fault@),
    }
}

/// The names in a directory, over their bytes.
pub open spec fn name_views(names: Seq<Result<Vec<u8>, Fault>>) -> Seq<
    Result<Seq<u8>, FaultView>,
> {
    Seq::new(names.len(), |i: int| name_view(names[i]))
}

impl View for FsReply {
    type V = FsReplyView;

    open spec fn view(&self) -> FsReplyView {
        match self {
            FsReply::Done(Ok(())) => FsReplyView::Done(Ok(())),
            FsReply::Done(Err(fault)) => FsReplyView::Done(Err(fault@)),
            FsReply::Looked(Ok(metadata)) => FsReplyView::Looked(Ok(*metadata)),
            FsReply::Looked(Err(fault)) => FsReplyView::Looked(Err(fault@)),
            FsReply::LinkRead(Ok(target)) => FsReplyView::LinkRead(Ok(target@)),
            FsReply::LinkRead(Err(fault)) => FsReplyView::LinkRead(Err(fault@)),
            FsReply::Listed(Ok(names)) => FsReplyView::Listed(Ok(name_views(names@))),
            FsReply::Listed(Err(fault)) => FsReplyView::Listed(Err(fault@)),
        }
    }
}

/// What a task asks of the filesystem. The two that ask nothing are settled before
/// they could.
pub open spec fn request_of(task: TaskView) -> FsRequestView {
    match task {
        TaskView::MakeFile(path) => FsRequestView::MakeFile(path),
        TaskView::MakeDir(path) => FsRequestView::MakeDir(path),
        TaskView::MakeDirs(path) => FsRequestView::MakeDirs(path),
        TaskView::Vacant(path) => FsRequestView::Look(path),
        TaskView::Rename { from, to } => FsRequestView::Rename { from, to },
        TaskView::Copy { from, to } => FsRequestView::Look(from),
        TaskView::CopyLink { from, to } => FsRequestView::ReadLink(from),
        TaskView::Link { target, to } => FsRequestView::MakeLink { target, at: to },
        TaskView::CopyFile { from, to } => FsRequestView::CopyFile { from, to },
        TaskView::CopyDir { from, to, mode } => FsRequestView::MakeDir(to),
        TaskView::CopyEntries { from, to, mode } => FsRequestView::List(from),
        TaskView::BadEntry { from, fault } => FsRequestView::Look(from),
        TaskView::SetMode { to, mode } => FsRequestView::SetMode { path: to, mode },
        TaskView::Remove(path) => FsRequestView::Look(path),
        TaskView::RemoveFile(path) => FsRequestView::RemoveFile(path),
        TaskView::RemoveDirs(path) => FsRequestView::RemoveDirs(path),
        TaskView::TellTrashed { from, to } => FsRequestView::Look(from),
    }
}

/// Whether `reply` is the kind of answer that `request` gets.
pub open spec fn answers(request: FsRequestView, reply: FsReplyView) -> bool {
    match request {
        FsRequestView::Look(_) => reply is Looked,
        FsRequestView::ReadLink(_) => reply is LinkRead,
        FsRequestView::List(_) => reply is Listed,
        _ => reply is Done,
    }
}

/// Whether `reply` is what a job with these tasks waits for.
pub open spec fn awaited(tasks: Seq<TaskView>, reply: FsReplyView) -> bool {
    &&& tasks.len() > 0
    &&& !(tasks.last() is BadEntry)
    &&& !(tasks.last() is TellTrashed)
    &&& answers(request_of(tasks.last()), reply)
}

/// `first` and `second` with `between` in between, as they are shown.
pub open spec fn shown_pair(
    before: Seq<char>,
    first: Seq<u8>,
    between: Seq<char>,
    second: Seq<u8>,
) -> Seq<char> {
    before + text::lossy_text(first) + between + text::lossy_text(second)
}

/// What is left once a task is done, or the error that ends the job.
pub open spec fn settled(
    rest: Seq<TaskView>,
    done: Result<(), FaultView>,
    msg: Seq<char>,
) -> Result<Seq<TaskView>, ErrxView> {
    match done {
        Ok(()) => Ok(rest),
        Err(fault) => Err(error::io_error(fault, msg)),
    }
}

/// The tasks that copy a directory's entries, the first entry on top.
pub open spec fn entry_tasks(
    from: Seq<u8>,
    to: Seq<u8>,
    names: Seq<Result<Seq<u8>, FaultView>>,
) -> Seq<TaskView> {
    Seq::new(
        names.len(),
        |i: int|
            match names[names.len() - 1 - i] {
                Ok(name) => TaskView::Copy {
                    from: path::join(from, name),
                    to: path::join(to, name),
                },
                Err(fault) => TaskView::BadEntry { from, fault },
            },
    )
}

/// What is left of the job once the top task has been answered, or the error that
/// ends it.
pub open spec fn after_reply(tasks: Seq<TaskView>, reply: FsReplyView) -> Result<
    Seq<TaskView>,
    ErrxView,
> {
    let rest = tasks.drop_last();
    match (tasks.last(), reply) {
        (TaskView::MakeFile(path), FsReplyView::Done(done)) => settled(
            rest,
            done,
            "creating "@ + text::lossy_text(path),
        ),
        (TaskView::MakeDir(path), FsReplyView::Done(done)) => settled(
            rest,
            done,
            "creating "@ + text::lossy_text(path),
        ),
        (TaskView::MakeDirs(path), FsReplyView::Done(done)) => settled(
            rest,
            done,
            "preparing "@ + text::lossy_text(path),
        ),
        (TaskView::Vacant(path), FsReplyView::Looked(looked)) => match looked {
            Ok(_) => Err(error::plain_error(text::lossy_text(path) + " already exists"@)),
            Err(_) => Ok(rest),
        },
        (TaskView::Rename { from, to }, FsReplyView::Done(done)) => match done {
            Ok(()) => Ok(rest),
            Err(fault) => if fault.code == Some(CROSS_DEVICE) {
                Ok(rest.push(TaskView::Remove(from)).push(TaskView::Copy { from, to }))
            } else {
                Err(error::io_error(fault, shown_pair("moving "@, from, " to "@, to)))
            },
        },
        (TaskView::Copy { from, to }, FsReplyView::Looked(looked)) => match looked {
            Err(fault) => Err(error::io_error(fault, "reading "@ + text::lossy_text(from))),
            Ok(metadata) => Ok(
                rest.push(
                    if metadata.symlink {
                        TaskView::CopyLink { from, to }
                    } else if metadata.dir {
                        TaskView::CopyDir { from, to, mode: metadata.mode }
                    } else {
                        TaskView::CopyFile { from, to }
                    },
                ),
            ),
        },
        (TaskView::CopyLink { from, to }, FsReplyView::LinkRead(read)) => match read {
            Err(fault) => Err(error::io_error(fault, "reading "@ + text::lossy_text(from))),
            Ok(target) => Ok(rest.push(TaskView::Link { target, to })),
        },
        (TaskView::Link { target, to }, FsReplyView::Done(done)) => settled(
            rest,
            done,
            "linking "@ + text::lossy_text(to),
        ),
        (TaskView::CopyFile { from, to }, FsReplyView::Done(done)) => settled(
            rest,
            done,
            shown_pair("copying "@, from, " to "@, to),
        ),
        (TaskView::CopyDir { from, to, mode }, FsReplyView::Done(done)) => settled(
            rest.push(TaskView::CopyEntries { from, to, mode }),
            done,
            "creating "@ + text::lossy_text(to),
        ),
        (TaskView::CopyEntries { from, to, mode }, FsReplyView::Listed(listed)) => match listed {
            Err(fault) => Err(error::io_error(fault, "reading "@ + text::lossy_text(from))),
            Ok(names) => Ok(
                rest.push(TaskView::SetMode { to, mode }) + entry_tasks(from, to, names),
            ),
        },
        (TaskView::SetMode { to, mode }, FsReplyView::Done(done)) => settled(
            rest,
            done,
            "setting permissions on "@ + text::lossy_text(to),
        ),
        (TaskView::Remove(path), FsReplyView::Looked(looked)) => match looked {
            Err(fault) => Err(error::io_error(fault, "reading "@ + text::lossy_text(path))),
            // A symlink to a directory is removed as a link, not followed and emptied.
            Ok(metadata) => Ok(
                rest.push(
                    if metadata.dir && !metadata.symlink {
                        TaskView::RemoveDirs(path)
                    } else {
                        TaskView::RemoveFile(path)
                    },
                ),
            ),
        },
        (TaskView::RemoveFile(path), FsReplyView::Done(done)) => settled(
            rest,
            done,
            "removing "@ + text::lossy_text(path),
        ),
        (TaskView::RemoveDirs(path), FsReplyView::Done(done)) => settled(
            rest,
            done,
            "removing "@ + text::lossy_text(path),
        ),
        _ => Ok(tasks),
    }
}

/// What is said when the top task has been answered.
pub open spec fn reply_told(tasks: Seq<TaskView>, reply: FsReplyView) -> Seq<NoticeView> {
    match (tasks.last(), reply) {
        (TaskView::Rename { from, to }, FsReplyView::Done(Err(fault))) => if fault.code == Some(
            CROSS_DEVICE,
        ) {
            seq![
                notice::info(
                    text::lossy_text(from) + " is on another filesystem, copying instead"@,
                ),
            ]
        } else {
            Seq::empty()
        },
        _ => Seq::empty(),
    }
}

/// What a job does next.
#[derive(Debug)]
pub enum JobStep {
    Ask(FsRequest),
    Done(Resultx<()>),
}

/// What a job does next, over the bytes and texts.
pub enum JobStepView {
    Ask(FsRequestView),
    Done(Result<(), ErrxView>),
}

impl View for JobStep {
    type V = JobStepView;

    open spec fn view(&self) -> JobStepView {
        match self {
            JobStep::Ask(request) => JobStepView::Ask(request@),
            JobStep::Done(Ok(())) => JobStepView::Done(Ok(())),
            JobStep::Done(Err(errx)) => JobStepView::Done(Err(errx@)),
        }
    }
}

/// What is left once all that needs no asking has been done.
pub open spec fn ready(tasks: Seq<TaskView>) -> Seq<TaskView>
    decreases tasks.len(),
{
    if tasks.len() > 0 && tasks.last() is TellTrashed {
        ready(tasks.drop_last())
    } else {
        tasks
    }
}

/// What is said while that is done.
pub open spec fn ready_told(tasks: Seq<TaskView>) -> Seq<NoticeView>
    decreases tasks.len(),
{
    if tasks.len() > 0 {
        match tasks.last() {
            TaskView::TellTrashed { from, to } => seq![
                notice::info(shown_pair("Trashed "@, from, " to "@, to)),
            ] + ready_told(tasks.drop_last()),
            _ => Seq::empty(),
        }
    } else {
        Seq::empty()
    }
}

/// What a job with these tasks, none of which needs no asking, does next.
pub open spec fn next_step(tasks: Seq<TaskView>) -> JobStepView {
    if tasks.len() == 0 {
        JobStepView::Done(Ok(()))
    } else {
        match tasks.last() {
            TaskView::BadEntry { from, fault } => JobStepView::Done(
                Err(error::io_error(fault, "reading "@ + text::lossy_text(from))),
            ),
            task => JobStepView::Ask(request_of(task)),
        }
    }
}

/// Where deleted entries go. One directory per run, under a shared root.
pub open spec fn trash_dir(temp_dir: Seq<u8>, process: u32) -> Seq<u8> {
    path::join(
        path::join(temp_dir, vstd::utf8::encode_utf8("nav-trash"@)),
        vstd::utf8::encode_utf8(text::decimal_text(process as nat)),
    )
}

/// The components written one below the other.
pub open spec fn put_together(components: Seq<Seq<u8>>) -> Seq<u8>
    decreases components.len(),
{
    if components.len() == 0 {
        Seq::empty()
    } else {
        path::join(put_together(components.drop_last()), components.last())
    }
}

/// The components of `path` less its root.
pub open spec fn below_root(path: Seq<u8>) -> Seq<Seq<u8>> {
    let all = path::components(path);
    if all.len() > 0 && all[0] == path::root_component() {
        all.drop_first()
    } else {
        all
    }
}

/// Where `path` lands in the trash.
pub open spec fn trashed_path(path: Seq<u8>, trash: Seq<u8>) -> Seq<u8> {
    path::join(trash, put_together(below_root(path)))
}

/// The tasks that carry out `op`, the first on top.
pub open spec fn tasks_for(op: OpView, trash: Seq<u8>) -> Seq<TaskView> {
    match op {
        OpView::CreateFile(path) => seq![TaskView::MakeFile(path)],
        OpView::CreateDir(path) => seq![TaskView::MakeDir(path)],
        OpView::Trash(path) => {
            let to = trashed_path(path, trash);
            let moving = seq![
                TaskView::TellTrashed { from: path, to },
                TaskView::Rename { from: path, to },
            ];
            match path::parent(to) {
                Some(above) => moving.push(TaskView::MakeDirs(above)),
                None => moving,
            }
        },
        OpView::Copy { from, to } => seq![TaskView::Copy { from, to }, TaskView::Vacant(to)],
        OpView::Move { from, to } => seq![TaskView::Rename { from, to }, TaskView::Vacant(to)],
    }
}

/// Where deleted entries go. One directory per run, under a shared root.
pub fn trash_root(temp_dir: &FilePath, process: u32) -> (dir: FilePath)
    ensures
        dir@ == trash_dir(temp_dir@, process),
{
    temp_dir.join("nav-trash").join(decimal(process as u64).as_str())
}

/// `path` with its root stripped, so it can be nested under the trash root.
///
/// Mirroring the original tree means two files with the same name from different
/// directories cannot collide, and the trashed path says where it came from.
pub fn mirrored(path: &FilePath) -> (nested: FilePath)
    ensures
        nested@ == put_together(below_root(path@)),
{
    let all = path.components();
    let empty: Vec<u8> = Vec::new();
    let mut nested = FilePath::from_bytes(empty);
    let ghost wanted = below_root(path@);
    let ghost given = path::byte_views(all@);
    let mut i: usize = 0;
    if all.len() > 0 && all[0].len() == 1 && all[0][0] == path::SLASH {
        i = 1;
        proof {
            assert(all@[0]@ =~= path::root_component());
            assert(given[0] == all@[0]@);
        }
    }
    let ghost skipped = i as int;
    proof {
        if given.len() > 0 {
            assert(given[0] == all@[0]@);
        }
        assert(wanted =~= given.skip(skipped));
        assert(wanted.take(0) =~= Seq::empty());
        assert(nested@ =~= Seq::empty());
    }
    while i < all.len()
        invariant
            given == path::byte_views(all@),
            given.len() == all@.len(),
            wanted == given.skip(skipped),
            0 <= skipped <= i <= all@.len(),
            nested@ == put_together(wanted.take(i - skipped)),
        decreases all.len() - i,
    {
        proof {
            let more = wanted.take(i + 1 - skipped);
            assert(more.drop_last() =~= wanted.take(i - skipped));
            assert(more.last() == given[i as int]);
            assert(given[i as int] == all@[i as int]@);
        }
        nested = nested.join_bytes(all[i].as_slice());
        i = i + 1;
    }
    proof {
        assert(wanted.take(i - skipped) =~= wanted);
    }
    nested
}

/// An operation being carried out.
#[derive(Debug)]
pub struct Job {
    /// What is left to do, the next thing last.
    pub tasks: Vec<Task>,
}

/// The tasks over the bytes of their paths.
pub open spec fn task_views(tasks: Seq<Task>) -> Seq<TaskView> {
    Seq::new(tasks.len(), |i: int| tasks[i]@)
}

impl View for Job {
    type V = Seq<TaskView>;

    open spec fn view(&self) -> Seq<TaskView> {
        task_views(self.tasks@)
    }
}

/// The job that carries out `op`. Callers check [`problem`] first; this still
/// refuses to clobber: an operation that ran before this one may have taken the
/// destination since.
pub fn apply(op: &Op, trash: &FilePath) -> (job: Job)
    ensures
        job@ == tasks_for(op@, trash@),
{
    let mut tasks: Vec<Task> = Vec::new();
    match op {
        Op::CreateFile(path) => {
            tasks.push(Task::MakeFile(path.clone()));
        },
        Op::CreateDir(path) => {
            tasks.push(Task::MakeDir(path.clone()));
        },
        Op::Trash(path) => {
            let to = trash.join_bytes(mirrored(path).bytes.as_slice());
            tasks.push(Task::TellTrashed { from: path.clone(), to: to.clone() });
            tasks.push(Task::Rename { from: path.clone(), to: to.clone() });
            match to.parent() {
                Some(above) => {
                    tasks.push(Task::MakeDirs(above));
                },
                None => {},
            }
        },
        Op::Copy { from, to } => {
            tasks.push(Task::Copy { from: from.clone(), to: to.clone() });
            tasks.push(Task::Vacant(to.clone()));
        },
        Op::Move { from, to } => {
            tasks.push(Task::Rename { from: from.clone(), to: to.clone() });
            tasks.push(Task::Vacant(to.clone()));
        },
    }
    let job = Job { tasks };
    proof {
        assert(job@ =~= tasks_for(op@, trash@));
    }
    job
}

/// The message of a task on two paths.
fn pair_text(before: &str, first: &FilePath, between: &str, second: &FilePath) -> (text: String)
    ensures
        text@ == shown_pair(before@, first@, between@, second@),
{
    let mut text = cat3(before, first.display().as_str(), between);
    text.append(second.display().as_str());
    text
}

/// The error that ends a job, if the task failed.
fn ended(done: Result<(), Fault>, msg: String) -> (result: Resultx<()>)
    ensures
        match (done, result) {
            (Ok(()), Ok(())) => true,
            (Err(fault), Err(errx)) => errx@ == error::io_error(fault@, msg@) && errx.traced(),
            _ => false,
        },
{
    match done {
        Ok(()) => Ok(()),
        Err(fault) => Err(Errx::e_io(fault, msg)),
    }
}

/// The error that ends a job because something could not be read.
fn unreadable(fault: Fault, path: &FilePath) -> (errx: Errx)
    ensures
        errx@ == error::io_error(fault@, "reading "@ + text::lossy_text(path@)),
        errx.traced(),
{
    Errx::e_io(fault, cat("reading ", path.display().as_str()))
}

impl Job {
    /// What the job does next, with what it says on the way.
    pub fn next(&mut self, notices: &mut Vec<Notice>) -> (step: JobStep)
        ensures
            final(self)@ == ready(old(self)@),
            step@ == next_step(ready(old(self)@)),
            notice::notice_views(final(notices)@) == notice::notice_views(old(notices)@)
                + ready_told(old(self)@),
            step matches JobStep::Done(Err(errx)) ==> errx.traced(),
    {
        let ghost told = notice::notice_views(notices@);
        loop
            invariant
                ready(self@) == ready(old(self)@),
                notice::notice_views(notices@) + ready_told(self@) == told + ready_told(
                    old(self)@,
                ),
            ensures
                self@ == ready(old(self)@),
                ready_told(self@) == Seq::<NoticeView>::empty(),
                notice::notice_views(notices@) + ready_told(self@) == told + ready_told(
                    old(self)@,
                ),
            decreases self.tasks@.len(),
        {
            let mut said: Option<String> = None;
            if self.tasks.len() > 0 {
                match &self.tasks[self.tasks.len() - 1] {
                    Task::TellTrashed { from, to } => {
                        said = Some(pair_text("Trashed ", from, " to ", to));
                    },
                    _ => {},
                }
            }
            proof {
                if self.tasks@.len() > 0 {
                    assert(self@.last() == self.tasks@[self.tasks@.len() - 1]@);
                }
            }
            match said {
                Some(text) => {
                    let ghost before = self@;
                    let ghost told_before = notice::notice_views(notices@);
                    say(notices, LogLevel::Info, text);
                    let _ = self.tasks.pop();
                    proof {
                        assert(self@ =~= before.drop_last());
                        assert(told_before + (seq![notice::info(text@)] + ready_told(self@))
                            =~= told_before.push(notice::info(text@)) + ready_told(self@));
                    }
                },
                None => {
                    break ;
                },
            }
        }
        proof {
            assert(notice::notice_views(notices@) + Seq::<NoticeView>::empty()
                =~= notice::notice_views(notices@));
        }
        if self.tasks.len() == 0 {
            return JobStep::Done(Ok(()));
        }
        proof {
            assert(self@.last() == self.tasks@[self.tasks@.len() - 1]@);
        }
        let request = match &self.tasks[self.tasks.len() - 1] {
            Task::MakeFile(path) => FsRequest::MakeFile(path.clone()),
            Task::MakeDir(path) => FsRequest::MakeDir(path.clone()),
            Task::MakeDirs(path) => FsRequest::MakeDirs(path.clone()),
            Task::Vacant(path) => FsRequest::Look(path.clone()),
            Task::Rename { from, to } => FsRequest::Rename { from: from.clone(), to: to.clone() },
            Task::Copy { from, to } => FsRequest::Look(from.clone()),
            Task::CopyLink { from, to } => FsRequest::ReadLink(from.clone()),
            Task::Link { target, to } => FsRequest::MakeLink {
                target: target.clone(),
                at: to.clone(),
            },
            Task::CopyFile { from, to } => FsRequest::CopyFile {
                from: from.clone(),
                to: to.clone(),
            },
            Task::CopyDir { from, to, mode } => FsRequest::MakeDir(to.clone()),
            Task::CopyEntries { from, to, mode } => FsRequest::List(from.clone()),
            Task::BadEntry { from, fault } => {
                return JobStep::Done(Err(unreadable(fault.clone(), from)));
            },
            Task::SetMode { to, mode } => FsRequest::SetMode { path: to.clone(), mode: *mode },
            Task::Remove(path) => FsRequest::Look(path.clone()),
            Task::RemoveFile(path) => FsRequest::RemoveFile(path.clone()),
            Task::RemoveDirs(path) => FsRequest::RemoveDirs(path.clone()),
            Task::TellTrashed { from, to } => FsRequest::Look(from.clone()),
        };
        JobStep::Ask(request)
    }

    /// Whether `reply` is what the job waits for.
    pub fn expects(&self, reply: &FsReply) -> (does: bool)
        ensures
            does == awaited(self@, reply@),
    {
        if self.tasks.len() == 0 {
            return false;
        }
        proof {
            assert(self@.last() == self.tasks@[self.tasks@.len() - 1]@);
        }
        match (&self.tasks[self.tasks.len() - 1], reply) {
            (Task::Copy { from, to }, FsReply::Looked(_)) => true,
            (Task::Copy { from, to }, _) => false,
            (Task::Vacant(_), FsReply::Looked(_)) => true,
            (Task::Vacant(_), _) => false,
            (Task::BadEntry { from, fault }, _) => false,
            (Task::Remove(_), FsReply::Looked(_)) => true,
            (Task::Remove(_), _) => false,
            (Task::TellTrashed { from, to }, _) => false,
            (Task::CopyLink { from, to }, FsReply::LinkRead(_)) => true,
            (Task::CopyLink { from, to }, _) => false,
            (Task::CopyEntries { from, to, mode }, FsReply::Listed(_)) => true,
            (Task::CopyEntries { from, to, mode }, _) => false,
            (_, FsReply::Done(_)) => true,
            _ => false,
        }
    }

    /// Takes the answer to the top task. An error ends the job.
    pub fn take_reply(&mut self, reply: FsReply, notices: &mut Vec<Notice>) -> (result: Resultx<()>)
        requires
            awaited(old(self)@, reply@),
        ensures
            match (result, after_reply(old(self)@, reply@)) {
                (Ok(()), Ok(tasks)) => final(self)@ == tasks,
                (Err(errx), Err(expected)) => errx@ == expected && errx.traced(),
                _ => false,
            },
            notice::notice_views(final(notices)@) == notice::notice_views(old(notices)@)
                + reply_told(old(self)@, reply@),
    {
        let ghost before = self@;
        let ghost told = notice::notice_views(notices@);
        proof {
            assert(told + Seq::<NoticeView>::empty() =~= told);
            assert(before.last() == self.tasks@[self.tasks@.len() - 1]@);
        }
        let top = self.tasks.pop();
        proof {
            assert(self@ =~= before.drop_last());
        }
        match (top, reply) {
            (Some(Task::MakeFile(path)), FsReply::Done(done)) => ended(
                done,
                cat("creating ", path.display().as_str()),
            ),
            (Some(Task::MakeDir(path)), FsReply::Done(done)) => ended(
                done,
                cat("creating ", path.display().as_str()),
            ),
            (Some(Task::MakeDirs(path)), FsReply::Done(done)) => ended(
                done,
                cat("preparing ", path.display().as_str()),
            ),
            (Some(Task::Vacant(path)), FsReply::Looked(looked)) => {
                match looked {
                    Ok(_) => Err(Errx::any(cat(path.display().as_str(), " already exists"))),
                    Err(_) => Ok(()),
                }
            },
            (Some(Task::Rename { from, to }), FsReply::Done(done)) => {
                match done {
                    Ok(()) => Ok(()),
                    Err(fault) => {
                        if fault.code == Some(CROSS_DEVICE) {
                            say(
                                notices,
                                LogLevel::Info,
                                cat(
                                    from.display().as_str(),
                                    " is on another filesystem, copying instead",
                                ),
                            );
                            proof {
                                assert(notice::notice_views(notices@) =~= told + reply_told(
                                    before,
                                    reply@,
                                ));
                            }
                            self.push(Task::Remove(from.clone()));
                            self.push(Task::Copy { from, to });
                            Ok(())
                        } else {
                            Err(Errx::e_io(fault, pair_text("moving ", &from, " to ", &to)))
                        }
                    },
                }
            },
            (Some(Task::Copy { from, to }), FsReply::Looked(looked)) => {
                match looked {
                    Err(fault) => Err(unreadable(fault, &from)),
                    Ok(metadata) => {
                        self.push(
                            if metadata.symlink {
                                Task::CopyLink { from, to }
                            } else if metadata.dir {
                                Task::CopyDir { from, to, mode: metadata.mode }
                            } else {
                                Task::CopyFile { from, to }
                            },
                        );
                        Ok(())
                    },
                }
            },
            (Some(Task::CopyLink { from, to }), FsReply::LinkRead(read)) => {
                match read {
                    Err(fault) => Err(unreadable(fault, &from)),
                    Ok(target) => {
                        self.push(Task::Link { target, to });
                        Ok(())
                    },
                }
            },
            (Some(Task::Link { target, to }), FsReply::Done(done)) => ended(
                done,
                cat("linking ", to.display().as_str()),
            ),
            (Some(Task::CopyFile { from, to }), FsReply::Done(done)) => ended(
                done,
                pair_text("copying ", &from, " to ", &to),
            ),
            (Some(Task::CopyDir { from, to, mode }), FsReply::Done(done)) => {
                let msg = cat("creating ", to.display().as_str());
                self.push(Task::CopyEntries { from, to, mode });
                ended(done, msg)
            },
            (Some(Task::CopyEntries { from, to, mode }), FsReply::Listed(listed)) => {
                match listed {
                    Err(fault) => Err(unreadable(fault, &from)),
                    Ok(names) => {
                        self.push(Task::SetMode { to: to.clone(), mode });
                        self.push_entries(&from, &to, &names);
                        Ok(())
                    },
                }
            },
            (Some(Task::SetMode { to, mode }), FsReply::Done(done)) => ended(
                done,
                cat("setting permissions on ", to.display().as_str()),
            ),
            (Some(Task::Remove(path)), FsReply::Looked(looked)) => {
                match looked {
                    Err(fault) => Err(unreadable(fault, &path)),
                    Ok(metadata) => {
                        self.push(
                            if metadata.dir && !metadata.symlink {
                                Task::RemoveDirs(path)
                            } else {
                                Task::RemoveFile(path)
                            },
                        );
                        Ok(())
                    },
                }
            },
            (Some(Task::RemoveFile(path)), FsReply::Done(done)) => ended(
                done,
                cat("removing ", path.display().as_str()),
            ),
            (Some(Task::RemoveDirs(path)), FsReply::Done(done)) => ended(
                done,
                cat("removing ", path.display().as_str()),
            ),
            _ => {
                proof {
                    assert(false);
                }
                Ok(())
            },
        }
    }

    /// Puts a task on top.
    fn push(&mut self, task: Task)
        ensures
            final(self)@ == old(self)@.push(task@),
    {
        self.tasks.push(task);
        proof {
            assert(self@ =~= old(self)@.push(task@));
        }
    }

    /// Puts the tasks that copy a directory's entries on top, the first entry last.
    fn push_entries(
        &mut self,
        from: &FilePath,
        to: &FilePath,
        names: &Vec<Result<Vec<u8>, Fault>>,
    )
        ensures
            final(self)@ == old(self)@ + entry_tasks(from@, to@, name_views(names@)),
    {
        let ghost all = entry_tasks(from@, to@, name_views(names@));
        let mut left: usize = names.len();
        proof {
            assert(self@ =~= old(self)@ + all.take(0));
        }
        while left > 0
            invariant
                left <= names@.len(),
                all == entry_tasks(from@, to@, name_views(names@)),
                all.len() == names@.len(),
                self@ == old(self)@ + all.take(names@.len() - left),
            decreases left,
        {
            left = left - 1;
            let ghost before = self@;
            let ghost at = names@.len() - 1 - left;
            proof {
                assert(name_views(names@)[left as int] == name_view(names@[left as int]));
                assert(all.take(at + 1) =~= all.take(at).push(all[at]));
            }
            match &names[left] {
                Ok(name) => {
                    self.push(
                        Task::Copy {
                            from: from.join_bytes(name.as_slice()),
                            to: to.join_bytes(name.as_slice()),
                        },
                    );
                },
                Err(fault) => {
                    self.push(Task::BadEntry { from: from.clone(), fault: fault.clone() });
                },
            }
            proof {
                assert(self@ =~= old(self)@ + all.take(at + 1));
            }
        }
        proof {
            assert(all.take(names@.len() as int) =~= all);
        }
    }
}

} // verus!
