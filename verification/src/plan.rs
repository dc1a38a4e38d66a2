//! Staged file operations, and the rules that decide whether they may run.
//!
//! Everything here is pure. The checks that need to know what is on disk live in
//! [`crate::io::fs_ops`].
use crate::path::{self, FilePath};
use crate::text::{self, chars_of, has_char, same_text, trim};
use vstd::prelude::*;

verus! {

broadcast use {vstd::seq::group_seq_axioms, vstd::seq_lib::group_seq_properties};

/// One staged change. Nothing here has touched the disk yet.
#[derive(Debug)]
pub enum Op {
    CreateFile(FilePath),
    CreateDir(FilePath),
    Trash(FilePath),
    Copy { from: FilePath, to: FilePath },
    /// Also covers renaming: a move whose two parents are equal.
    Move { from: FilePath, to: FilePath },
}

/// An operation over the bytes of its paths.
pub enum OpView {
    CreateFile(Seq<u8>),
    CreateDir(Seq<u8>),
    Trash(Seq<u8>),
    Copy { from: Seq<u8>, to: Seq<u8> },
    Move { from: Seq<u8>, to: Seq<u8> },
}

impl View for Op {
    type V = OpView;

    open spec fn view(&self) -> OpView {
        match self {
            Op::CreateFile(path) => OpView::CreateFile(path@),
            Op::CreateDir(path) => OpView::CreateDir(path@),
            Op::Trash(path) => OpView::Trash(path@),
            Op::Copy { from, to } => OpView::Copy { from: from@, to: to@ },
            Op::Move { from, to } => OpView::Move { from: from@, to: to@ },
        }
    }
}

/// Whether two paths name the same thing.
pub open spec fn same_path(a: Seq<u8>, b: Seq<u8>) -> bool {
    path::components(a) == path::components(b)
}

/// Whether two paths lie in the same directory.
pub open spec fn same_parent(a: Seq<u8>, b: Seq<u8>) -> bool {
    match (path::parent(a), path::parent(b)) {
        (Some(above_a), Some(above_b)) => same_path(above_a, above_b),
        (None, None) => true,
        _ => false,
    }
}

impl OpView {
    /// Whether both operations do the same thing to the same paths.
    pub open spec fn same(self, other: OpView) -> bool {
        match (self, other) {
            (OpView::CreateFile(a), OpView::CreateFile(b)) => same_path(a, b),
            (OpView::CreateDir(a), OpView::CreateDir(b)) => same_path(a, b),
            (OpView::Trash(a), OpView::Trash(b)) => same_path(a, b),
            (OpView::Copy { from: a, to: b }, OpView::Copy { from: c, to: d }) => same_path(a, c)
                && same_path(b, d),
            (OpView::Move { from: a, to: b }, OpView::Move { from: c, to: d }) => same_path(a, c)
                && same_path(b, d),
            _ => false,
        }
    }

    /// The path this operation writes to.
    pub open spec fn destination(self) -> Seq<u8> {
        match self {
            OpView::CreateFile(path) => path,
            OpView::CreateDir(path) => path,
            OpView::Trash(path) => path,
            OpView::Copy { from, to } => to,
            OpView::Move { from, to } => to,
        }
    }

    /// The path this operation reads from, if it has one.
    pub open spec fn source(self) -> Option<Seq<u8>> {
        match self {
            OpView::CreateFile(_) => None,
            OpView::CreateDir(_) => None,
            OpView::Trash(path) => Some(path),
            OpView::Copy { from, to } => Some(from),
            OpView::Move { from, to } => Some(from),
        }
    }

    /// This operation writing to `path` instead.
    pub open spec fn writing_to(self, path: Seq<u8>) -> OpView {
        match self {
            OpView::CreateFile(_) => OpView::CreateFile(path),
            OpView::CreateDir(_) => OpView::CreateDir(path),
            OpView::Trash(_) => OpView::Trash(path),
            OpView::Copy { from, to } => OpView::Copy { from, to: path },
            OpView::Move { from, to } => OpView::Move { from, to: path },
        }
    }

    /// This operation writing under another name in the same directory.
    pub open spec fn retargeted(self, name: Seq<char>) -> OpView {
        self.writing_to(renamed(self.destination(), name))
    }

    /// The problems that can be seen without asking the disk anything.
    pub open spec fn problem(self) -> Option<Problem> {
        match self {
            OpView::Copy { from, to } => clash(from, to),
            OpView::Move { from, to } => clash(from, to),
            _ => None,
        }
    }

    /// How the operation reads.
    pub open spec fn described(self) -> DescribedView {
        match self {
            OpView::CreateFile(path) => DescribedView {
                verb: "create"@,
                subject: shown_name(path),
                destination: None,
            },
            OpView::CreateDir(path) => DescribedView {
                verb: "mkdir"@,
                subject: shown_name(path),
                destination: None,
            },
            OpView::Trash(path) => DescribedView {
                verb: "trash"@,
                subject: shown_name(path),
                destination: None,
            },
            OpView::Copy { from, to } => DescribedView {
                verb: "copy"@,
                subject: shown_name(from),
                destination: Some(text::lossy_text(to)),
            },
            OpView::Move { from, to } => if same_parent(from, to) {
                DescribedView {
                    verb: "rename"@,
                    subject: shown_name(from),
                    destination: Some(shown_name(to)),
                }
            } else {
                DescribedView {
                    verb: "move"@,
                    subject: shown_name(from),
                    destination: Some(text::lossy_text(to)),
                }
            },
        }
    }
}

/// The name a path is shown under.
pub open spec fn shown_name(path: Seq<u8>) -> Seq<char> {
    text::lossy_text(path::name_bytes(path))
}

/// `path` with its last component replaced by `name`.
pub open spec fn renamed(path: Seq<u8>, name: Seq<char>) -> Seq<u8> {
    let dir = match path::parent(path) {
        Some(above) => above,
        None => Seq::empty(),
    };
    path::join(dir, vstd::utf8::encode_utf8(name))
}

/// What is wrong with writing `from` to `to`, by their names alone.
pub open spec fn clash(from: Seq<u8>, to: Seq<u8>) -> Option<Problem> {
    if same_path(from, to) {
        Some(Problem::SameSourceAndDestination)
    } else if path::starts_with(to, from) {
        Some(Problem::DirectoryIntoItself)
    } else {
        None
    }
}

impl Clone for Op {
    fn clone(&self) -> (copy: Self)
        ensures
            copy@ == self@,
    {
        match self {
            Op::CreateFile(path) => Op::CreateFile(path.clone()),
            Op::CreateDir(path) => Op::CreateDir(path.clone()),
            Op::Trash(path) => Op::Trash(path.clone()),
            Op::Copy { from, to } => Op::Copy { from: from.clone(), to: to.clone() },
            Op::Move { from, to } => Op::Move { from: from.clone(), to: to.clone() },
        }
    }
}

impl PartialEq for Op {
    fn eq(&self, other: &Self) -> (same: bool) {
        self.same(other)
    }
}

impl vstd::std_specs::cmp::PartialEqSpecImpl for Op {
    open spec fn obeys_eq_spec() -> bool {
        true
    }

    open spec fn eq_spec(&self, other: &Self) -> bool {
        self@.same(other@)
    }
}

/// What is wrong with writing `from` to `to`, by their names alone.
fn check_paths(from: &FilePath, to: &FilePath) -> (found: Option<Problem>)
    ensures
        found == clash(from@, to@),
{
    if from.same(to) {
        return Some(Problem::SameSourceAndDestination);
    }
    // Catches moving `/a` to `/a/b`, which would otherwise never end.
    if to.starts_with(from) {
        return Some(Problem::DirectoryIntoItself);
    }
    None
}

/// Whether two paths lie in the same directory.
fn siblings(a: &FilePath, b: &FilePath) -> (same: bool)
    ensures
        same == same_parent(a@, b@),
{
    match (a.parent(), b.parent()) {
        (Some(above_a), Some(above_b)) => above_a.same(&above_b),
        (None, None) => true,
        _ => false,
    }
}

impl Op {
    /// Whether both operations do the same thing to the same paths.
    pub fn same(&self, other: &Op) -> (same: bool)
        ensures
            same == self@.same(other@),
    {
        match (self, other) {
            (Op::CreateFile(a), Op::CreateFile(b)) => a.same(b),
            (Op::CreateDir(a), Op::CreateDir(b)) => a.same(b),
            (Op::Trash(a), Op::Trash(b)) => a.same(b),
            (Op::Copy { from: a, to: b }, Op::Copy { from: c, to: d }) => a.same(c) && b.same(d),
            (Op::Move { from: a, to: b }, Op::Move { from: c, to: d }) => a.same(c) && b.same(d),
            _ => false,
        }
    }

    /// The problems that can be seen without asking the disk anything.
    pub fn problem(&self) -> (found: Option<Problem>)
        ensures
            found == self@.problem(),
    {
        match self {
            Op::Copy { from, to } => check_paths(from, to),
            Op::Move { from, to } => check_paths(from, to),
            _ => None,
        }
    }

    /// How this operation reads, in parts a row can shorten independently.
    pub fn describe(&self) -> (described: Described)
        ensures
            described@ == self@.described(),
    {
        match self {
            Op::CreateFile(path) => Described {
                verb: "create",
                subject: path.name_of(),
                destination: None,
            },
            Op::CreateDir(path) => Described {
                verb: "mkdir",
                subject: path.name_of(),
                destination: None,
            },
            Op::Trash(path) => Described {
                verb: "trash",
                subject: path.name_of(),
                destination: None,
            },
            Op::Copy { from, to } => Described {
                verb: "copy",
                subject: from.name_of(),
                destination: Some(to.display()),
            },
            Op::Move { from, to } => {
                if siblings(from, to) {
                    Described {
                        verb: "rename",
                        subject: from.name_of(),
                        destination: Some(to.name_of()),
                    }
                } else {
                    Described {
                        verb: "move",
                        subject: from.name_of(),
                        destination: Some(to.display()),
                    }
                }
            },
        }
    }

    /// The path this operation writes to, which is what a conflict is about.
    pub fn destination(&self) -> (path: &FilePath)
        ensures
            path@ == self@.destination(),
    {
        match self {
            Op::CreateFile(path) => path,
            Op::CreateDir(path) => path,
            Op::Trash(path) => path,
            Op::Copy { from, to } => to,
            Op::Move { from, to } => to,
        }
    }

    /// The path this operation reads from, if it has one.
    pub fn source(&self) -> (path: Option<&FilePath>)
        ensures
            match path {
                Some(path) => self@.source() == Some(path@),
                None => self@.source() is None,
            },
    {
        match self {
            Op::CreateFile(_) => None,
            Op::CreateDir(_) => None,
            Op::Trash(path) => Some(path),
            Op::Copy { from, to } => Some(from),
            Op::Move { from, to } => Some(from),
        }
    }

    /// The path that may be renamed. A trash has none: the path it holds is what
    /// it takes away, and another name there is another file.
    pub fn destination_mut(&mut self) -> (path: Option<&mut FilePath>)
        ensures
            match path {
                Some(path) => {
                    &&& !(old(self)@ is Trash)
                    &&& path@ == old(self)@.destination()
                    &&& final(self)@ == old(self)@.writing_to(final(path)@)
                },
                None => old(self)@ is Trash && *final(self) == *old(self),
            },
    {
        match self {
            Op::CreateFile(path) => Some(path),
            Op::CreateDir(path) => Some(path),
            Op::Trash(_) => None,
            Op::Copy { from, to } => Some(to),
            Op::Move { from, to } => Some(to),
        }
    }

    /// Renames the destination in place, keeping the directory it points into.
    pub fn retarget(&mut self, name: &str)
        ensures
            final(self)@ == old(self)@.retargeted(name@),
    {
        let dir = match self.destination().parent() {
            Some(above) => above,
            None => {
                let empty: Vec<u8> = Vec::new();
                FilePath::from_bytes(empty)
            },
        };
        proof {
            assert(path::parent(self@.destination()) is None ==> dir@ =~= Seq::empty());
        }
        let renamed_to = dir.join(name);
        match self {
            Op::CreateFile(path) => {
                *path = renamed_to;
            },
            Op::CreateDir(path) => {
                *path = renamed_to;
            },
            Op::Trash(path) => {
                *path = renamed_to;
            },
            Op::Copy { from, to } => {
                *to = renamed_to;
            },
            Op::Move { from, to } => {
                *to = renamed_to;
            },
        }
    }
}

/// A staged operation split up, so a narrow row can shorten the long path
/// without losing the name of the thing being acted on.
#[derive(Debug)]
pub struct Described {
    pub verb: &'static str,
    pub subject: String,
    pub destination: Option<String>,
}

/// A description over its texts.
pub struct DescribedView {
    pub verb: Seq<char>,
    pub subject: Seq<char>,
    pub destination: Option<Seq<char>>,
}

impl View for Described {
    type V = DescribedView;

    open spec fn view(&self) -> DescribedView {
        DescribedView {
            verb: self.verb@,
            subject: self.subject@,
            destination: match self.destination {
                Some(text) => Some(text@),
                None => None,
            },
        }
    }
}

/// Why a staged operation may not run.
#[derive(Debug, Clone, Copy, PartialEq, Eq, Structural)]
pub enum Problem {
    DirectoryIntoItself,
    SameSourceAndDestination,
    InvalidName,
    SourceMissing,
    DestinationExists,
}

impl Problem {
    /// The problem in words.
    pub open spec fn words(self) -> Seq<char> {
        match self {
            Problem::DirectoryIntoItself => "would go inside itself"@,
            Problem::SameSourceAndDestination => "source and destination are the same"@,
            Problem::InvalidName => "not a usable name"@,
            Problem::SourceMissing => "source no longer exists"@,
            Problem::DestinationExists => "destination already exists"@,
        }
    }

    /// The problem in words.
    pub fn as_str(&self) -> (words: &'static str)
        ensures
            words@ == self.words(),
    {
        match self {
            Problem::DirectoryIntoItself => "would go inside itself",
            Problem::SameSourceAndDestination => "source and destination are the same",
            Problem::InvalidName => "not a usable name",
            Problem::SourceMissing => "source no longer exists",
            Problem::DestinationExists => "destination already exists",
        }
    }
}

/// Whether a typed name, white space around it aside, can name an entry.
pub open spec fn usable_name(name: Seq<char>) -> bool {
    let kept = text::trimmed(name);
    &&& kept.len() > 0
    &&& kept != "."@
    &&& kept != ".."@
    &&& !kept.contains('/')
    &&& !kept.contains('\\')
    &&& !kept.contains('\0')
}

/// Checks a name typed at a prompt, before it ever becomes a path.
pub fn validate_name(name: &str) -> (found: Option<Problem>)
    ensures
        found == if usable_name(name@) {
            None
        } else {
            Some(Problem::InvalidName)
        },
{
    let kept = trim(name);
    let chars = chars_of(kept.as_str());
    let usable = chars.len() > 0 && !same_text(kept.as_str(), ".") && !same_text(
        kept.as_str(),
        "..",
    ) && !has_char(&chars, '/') && !has_char(&chars, '\\') && !has_char(&chars, '\0');
    if usable {
        None
    } else {
        Some(Problem::InvalidName)
    }
}

/// Staged work, in the order it was staged, with any failure from the last apply.
#[derive(Debug)]
pub struct Plan {
    pub staged: Vec<Staged>,
}

#[derive(Debug)]
pub struct Staged {
    pub op: Op,
    /// Set when this operation was attempted and failed, so it can be retried.
    pub failure: Option<String>,
}

/// A staged operation over its texts.
pub struct StagedView {
    pub op: OpView,
    pub failure: Option<Seq<char>>,
}

impl View for Staged {
    type V = StagedView;

    open spec fn view(&self) -> StagedView {
        StagedView {
            op: self.op@,
            failure: match self.failure {
                Some(text) => Some(text@),
                None => None,
            },
        }
    }
}

impl View for Plan {
    type V = Seq<StagedView>;

    open spec fn view(&self) -> Seq<StagedView> {
        Seq::new(self.staged@.len(), |i: int| self.staged@[i]@)
    }
}

/// An operation as it is first staged.
pub open spec fn fresh(op: OpView) -> StagedView {
    StagedView { op, failure: None }
}

/// Whether an operation that does the same thing is already staged.
pub open spec fn stages(plan: Seq<StagedView>, op: OpView) -> bool {
    exists|i: int| 0 <= i < plan.len() && (#[trigger] plan[i]).op.same(op)
}

/// The plan once `op` has been staged: last, unless it is staged already.
pub open spec fn with_staged(plan: Seq<StagedView>, op: OpView) -> Seq<StagedView> {
    if stages(plan, op) {
        plan
    } else {
        plan.push(fresh(op))
    }
}

/// The plan without the operation at `index`, or as it is when there is none.
pub open spec fn without(plan: Seq<StagedView>, index: int) -> Seq<StagedView> {
    if 0 <= index < plan.len() {
        plan.remove(index)
    } else {
        plan
    }
}

/// The operations whose flag in `drop` is not set, in their order.
pub open spec fn undropped<T>(plan: Seq<T>, drop: Seq<bool>) -> Seq<T>
    decreases plan.len(),
{
    if plan.len() == 0 {
        plan
    } else {
        let rest = undropped(plan.drop_last(), drop);
        if drop[plan.len() - 1] {
            rest
        } else {
            rest.push(plan.last())
        }
    }
}

/// Operations that failed and why, over their paths and texts.
pub open spec fn failure_views(failures: Seq<(Op, String)>) -> Seq<(OpView, Seq<char>)> {
    Seq::new(failures.len(), |i: int| (failures[i].0@, failures[i].1@))
}

/// The plan left by operations that failed, each with its reason.
pub open spec fn failed_plan(failures: Seq<(OpView, Seq<char>)>) -> Seq<StagedView> {
    Seq::new(
        failures.len(),
        |i: int| StagedView { op: failures[i].0, failure: Some(failures[i].1) },
    )
}

impl Default for Plan {
    fn default() -> (plan: Self)
        ensures
            plan@ == Seq::<StagedView>::empty(),
    {
        let plan = Plan { staged: Vec::new() };
        proof {
            assert(plan@ =~= Seq::empty());
        }
        plan
    }
}

impl Plan {
    /// Stages `op`, unless the same one is staged already. Returns whether it was
    /// staged.
    pub fn push(&mut self, op: Op) -> (added: bool)
        ensures
            final(self)@ == with_staged(old(self)@, op@),
            added == !stages(old(self)@, op@),
    {
        let mut i: usize = 0;
        while i < self.staged.len()
            invariant
                i <= self.staged@.len(),
                *self == *old(self),
                forall|k: int| 0 <= k < i ==> !(#[trigger] self@[k]).op.same(op@),
            decreases self.staged.len() - i,
        {
            if self.staged[i].op.same(&op) {
                proof {
                    assert(self@[i as int].op.same(op@));
                }
                return false;
            }
            i = i + 1;
        }
        self.staged.push(Staged { op, failure: None });
        proof {
            assert(self@ =~= old(self)@.push(fresh(op@)));
        }
        true
    }

    pub fn is_empty(&self) -> (empty: bool)
        ensures
            empty == (self@.len() == 0),
    {
        self.staged.len() == 0
    }

    pub fn len(&self) -> (count: usize)
        ensures
            count == self@.len(),
    {
        self.staged.len()
    }

    /// The staged operations in order.
    pub fn iter(&self) -> (all: &Vec<Staged>)
        ensures
            *all == self.staged,
    {
        &self.staged
    }

    pub fn get_mut(&mut self, index: usize) -> (found: Option<&mut Staged>)
        ensures
            match found {
                Some(staged) => {
                    &&& index < old(self)@.len()
                    &&& *staged == old(self).staged@[index as int]
                    &&& final(self).staged@ == old(self).staged@.update(index as int, *final(staged))
                },
                None => index >= old(self)@.len() && *final(self) == *old(self),
            },
    {
        if index < self.staged.len() {
            Some(&mut self.staged[index])
        } else {
            None
        }
    }

    /// Drops the operation at `index`, if there is one.
    pub fn remove(&mut self, index: usize)
        ensures
            final(self)@ == without(old(self)@, index as int),
    {
        if index < self.staged.len() {
            self.staged.remove(index);
            proof {
                assert(self@ =~= old(self)@.remove(index as int));
            }
        }
    }

    pub fn clear(&mut self)
        ensures
            final(self)@ == Seq::<StagedView>::empty(),
    {
        self.staged.clear();
        proof {
            assert(self@ =~= Seq::empty());
        }
    }

    /// Drops every operation whose flag in `drop` is set.
    pub fn drop_flagged(&mut self, drop: &Vec<bool>)
        requires
            drop@.len() == old(self)@.len(),
        ensures
            final(self)@ == undropped(old(self)@, drop@),
    {
        let mut kept: Vec<Staged> = Vec::new();
        let mut all: Vec<Staged> = Vec::new();
        std::mem::swap(&mut all, &mut self.staged);
        let ghost start = old(self)@;
        let ghost before = all@;
        let mut i: usize = drop.len();
        // From the last to the first, so that every operation is moved once.
        proof {
            assert(before.take(i as int) =~= before);
        }
        while i > 0
            invariant
                i <= drop@.len(),
                drop@.len() == before.len(),
                all@ == before.take(i as int),
                views(before) == start,
                undropped(start.take(i as int), drop@) + views(kept@).reverse() == undropped(
                    start,
                    drop@,
                ) || i == drop@.len() && kept@.len() == 0,
            decreases i,
        {
            i = i - 1;
            let last = all.pop();
            let ghost kept_before = views(kept@);
            proof {
                assert(all@ =~= before.take(i as int));
                if i + 1 == drop@.len() {
                    assert(start.take(i as int + 1) =~= start);
                    assert(kept_before.reverse() =~= Seq::empty());
                    assert(undropped(start, drop@) + Seq::<StagedView>::empty() =~= undropped(
                        start,
                        drop@,
                    ));
                }
                assert(undropped(start.take(i as int + 1), drop@) + kept_before.reverse()
                    == undropped(start, drop@));
                assert(start.take(i as int + 1).drop_last() =~= start.take(i as int));
            }
            match last {
                Some(staged) => {
                    proof {
                        assert(start[i as int] == staged@);
                    }
                    if !drop[i] {
                        kept.push(staged);
                        proof {
                            assert(views(kept@) =~= kept_before.push(staged@));
                            assert(views(kept@).reverse() =~= seq![staged@]
                                + kept_before.reverse());
                            assert(undropped(start.take(i as int), drop@).push(staged@)
                                + kept_before.reverse() =~= undropped(start.take(i as int), drop@)
                                + (seq![staged@] + kept_before.reverse()));
                        }
                    }
                },
                None => {
                    proof {
                        assert(false);
                    }
                },
            }
        }
        proof {
            if drop@.len() == 0 {
                assert(start =~= Seq::empty());
                assert(views(kept@) =~= Seq::empty());
                assert(undropped(start, drop@) =~= Seq::empty());
                assert(views(kept@).reverse() =~= Seq::empty());
            } else {
                assert(start.take(0) =~= Seq::empty());
                assert(undropped(start.take(0), drop@) =~= Seq::empty());
                assert(Seq::<StagedView>::empty() + views(kept@).reverse() =~= views(
                    kept@,
                ).reverse());
            }
        }
        let ghost backwards = views(kept@);
        let mut ordered: Vec<Staged> = Vec::new();
        let ghost total = kept@.len() as int;
        while kept.len() > 0
            invariant
                views(kept@) == backwards.take(kept@.len() as int),
                kept@.len() <= total == backwards.len(),
                views(ordered@) == backwards.reverse().take(total - kept@.len()),
            decreases kept.len(),
        {
            let ghost ordered_before = views(ordered@);
            let ghost at = kept@.len() - 1;
            proof {
                assert(views(kept@)[at] == kept@[at]@);
            }
            match kept.pop() {
                Some(staged) => {
                    proof {
                        assert(staged@ == backwards[at]);
                    }
                    ordered.push(staged);
                    proof {
                        assert(views(ordered@) =~= ordered_before.push(staged@));
                        assert(backwards.reverse().take(total - at) =~= ordered_before.push(
                            backwards[at],
                        ));
                        assert(views(kept@) =~= backwards.take(at));
                    }
                },
                None => {},
            }
        }
        proof {
            assert(backwards.reverse().take(total) =~= backwards.reverse());
        }
        self.staged = ordered;
        proof {
            assert(self@ =~= views(ordered@));
        }
    }

    /// Drops every operation for which `blocked` reports a problem.
    pub fn drop_blocked(&mut self, blocked: impl Fn(&Op) -> bool)
        requires
            forall|op: &Op| #[trigger] call_requires(blocked, (op,)),
        ensures
            exists|drop: Seq<bool>|
                {
                    &&& drop.len() == old(self)@.len()
                    &&& forall|i: int|
                        0 <= i < drop.len() ==> call_ensures(
                            blocked,
                            (&old(self).staged@[i].op,),
                            #[trigger] drop[i],
                        )
                    &&& final(self)@ == #[trigger] undropped(old(self)@, drop)
                },
    {
        let mut drop: Vec<bool> = Vec::new();
        let mut i: usize = 0;
        while i < self.staged.len()
            invariant
                i <= self.staged@.len(),
                *self == *old(self),
                drop@.len() == i,
                forall|op: &Op| #[trigger] call_requires(blocked, (op,)),
                forall|k: int|
                    0 <= k < i ==> call_ensures(
                        blocked,
                        (&self.staged@[k].op,),
                        #[trigger] drop@[k],
                    ),
            decreases self.staged.len() - i,
        {
            drop.push(blocked(&self.staged[i].op));
            i = i + 1;
        }
        self.drop_flagged(&drop);
    }

    /// Replaces the plan with the operations that failed, keeping their errors.
    pub fn keep_failures(&mut self, failures: Vec<(Op, String)>)
        ensures
            final(self)@ == failed_plan(failure_views(failures@)),
    {
        let mut backwards = failures;
        let mut staged: Vec<Staged> = Vec::new();
        let ghost all = failed_plan(failure_views(failures@));
        let ghost total = failures@.len() as int;
        proof {
            assert(views(staged@) =~= all.skip(total).reverse());
        }
        while backwards.len() > 0
            invariant
                backwards@.len() <= total,
                total == failures@.len(),
                all == failed_plan(failure_views(failures@)),
                backwards@ == failures@.take(backwards@.len() as int),
                views(staged@) == all.skip(backwards@.len() as int).reverse(),
            decreases backwards.len(),
        {
            let ghost at = backwards@.len() - 1;
            let ghost before = views(staged@);
            match backwards.pop() {
                Some((op, reason)) => {
                    proof {
                        assert((op, reason) == failures@[at]);
                    }
                    staged.push(Staged { op, failure: Some(reason) });
                    proof {
                        assert(views(staged@) =~= before.push(all[at]));
                        assert(all.skip(at).reverse() =~= before.push(all[at]));
                        assert(backwards@ =~= failures@.take(at));
                    }
                },
                None => {},
            }
        }
        proof {
            assert(all.skip(0) =~= all);
        }
        let ghost reversed = views(staged@);
        let mut ordered: Vec<Staged> = Vec::new();
        proof {
            assert(reversed.take(total) =~= reversed);
            assert(views(ordered@) =~= all.take(0));
        }
        while staged.len() > 0
            invariant
                staged@.len() <= total == reversed.len(),
                reversed == all.reverse(),
                all.len() == total,
                views(staged@) == reversed.take(staged@.len() as int),
                views(ordered@) == all.take(total - staged@.len()),
            decreases staged.len(),
        {
            let ghost at = staged@.len() - 1;
            let ghost before = views(ordered@);
            proof {
                assert(views(staged@)[at] == staged@[at]@);
            }
            match staged.pop() {
                Some(one) => {
                    proof {
                        assert(one@ == reversed[at]);
                        assert(reversed[at] == all[total - 1 - at]);
                    }
                    ordered.push(one);
                    proof {
                        assert(views(ordered@) =~= before.push(one@));
                        assert(all.take(total - at) =~= before.push(all[total - 1 - at]));
                        assert(views(staged@) =~= reversed.take(at));
                    }
                },
                None => {},
            }
        }
        proof {
            assert(all.take(total) =~= all);
        }
        self.staged = ordered;
        proof {
            assert(self@ =~= views(ordered@));
        }
    }

    /// The staged operations in order, without their failures.
    pub fn ops(&self) -> (ops: Vec<&Op>)
        ensures
            ops@.len() == self@.len(),
            forall|i: int| 0 <= i < ops@.len() ==> (#[trigger] ops@[i])@ == self@[i].op,
    {
        let mut ops: Vec<&Op> = Vec::new();
        let mut i: usize = 0;
        while i < self.staged.len()
            invariant
                i <= self.staged@.len(),
                ops@.len() == i,
                forall|k: int| 0 <= k < i ==> (#[trigger] ops@[k])@ == self@[k].op,
            decreases self.staged.len() - i,
        {
            ops.push(&self.staged[i].op);
            i = i + 1;
        }
        ops
    }
}

/// The views of staged operations.
pub open spec fn views(staged: Seq<Staged>) -> Seq<StagedView> {
    Seq::new(staged.len(), |i: int| staged[i]@)
}

} // verus!
