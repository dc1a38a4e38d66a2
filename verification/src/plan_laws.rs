//! What staged operations are for, whatever paths they are given.
use crate::io::fs_ops::{self, Presence};
use crate::path::{self, SLASH};
use crate::path_laws;
use crate::plan::{self, OpView, Problem, StagedView};
use vstd::prelude::*;

verus! {

broadcast use {vstd::seq::group_seq_axioms, vstd::seq_lib::group_seq_properties};

/// A name that a path can end in: it is not empty, it does not reach into another
/// directory, and it is not one of the shortcuts.
pub open spec fn plain_name(name: Seq<char>) -> bool {
    &&& name.len() > 0
    &&& !name.contains('/')
    &&& name != seq!['.']
    &&& name != seq!['.', '.']
}

proof fn lemma_scalar_slash(c: char)
    requires
        c != '/',
    ensures
        !vstd::utf8::encode_scalar(c as u32).contains(SLASH),
        vstd::utf8::encode_scalar(c as u32).len() > 0,
{
    let v = c as u32;
    vstd::utf8::char_is_scalar(c);
    let bytes = vstd::utf8::encode_scalar(v);
    assert(v < 0x80 ==> (v & 0x7f) as u8 as u32 == v) by (bit_vector);
    assert(v >= 0x80 ==> 0xc0u8 | (((v >> 6) & 0x1f) as u8) != 47) by (bit_vector);
    assert(0xe0u8 | (((v >> 12) & 0x0f) as u8) != 47) by (bit_vector);
    assert(0xf0u8 | (((v >> 18) & 0x07) as u8) != 47) by (bit_vector);
    assert(0x80u8 | ((v & 0x3f) as u8) != 47) by (bit_vector);
    assert(0x80u8 | (((v >> 6) & 0x3f) as u8) != 47) by (bit_vector);
    assert(0x80u8 | (((v >> 12) & 0x3f) as u8) != 47) by (bit_vector);
    assert forall|i: int| 0 <= i < bytes.len() implies bytes[i] != SLASH by {}
}

proof fn lemma_encoded_slash(name: Seq<char>)
    requires
        !name.contains('/'),
    ensures
        !vstd::utf8::encode_utf8(name).contains(SLASH),
        vstd::utf8::encode_utf8(name).len() >= name.len(),
    decreases name.len(),
{
    if name.len() > 0 {
        let rest = name.drop_first();
        let first = vstd::utf8::encode_scalar(name[0] as u32);
        assert(name.contains(name[0]));
        assert forall|c: char| rest.contains(c) implies name.contains(c) by {
            let i = choose|i: int| 0 <= i < rest.len() && rest[i] == c;
            assert(name[i + 1] == c);
        }
        lemma_scalar_slash(name[0]);
        lemma_encoded_slash(rest);
        let all = vstd::utf8::encode_utf8(name);
        assert(all == first + vstd::utf8::encode_utf8(rest));
        assert forall|i: int| 0 <= i < all.len() implies all[i] != SLASH by {
            if i < first.len() {
                assert(first.contains(first[i]));
            } else {
                let j = i - first.len();
                assert(vstd::utf8::encode_utf8(rest).contains(vstd::utf8::encode_utf8(rest)[j]));
            }
        }
    }
}

/// A plain name is a name an entry can have once it is written as bytes.
pub proof fn lemma_plain_name(name: Seq<char>)
    requires
        plain_name(name),
    ensures
        path_laws::entry_name(vstd::utf8::encode_utf8(name)),
{
    lemma_encoded_slash(name);
    let bytes = vstd::utf8::encode_utf8(name);
    vstd::utf8::encode_utf8_decode_utf8(name);
    let dot = seq!['.'];
    let dots = seq!['.', '.'];
    assert(vstd::utf8::is_ascii_chars(dot));
    assert(vstd::utf8::is_ascii_chars(dots));
    vstd::utf8::is_ascii_chars_encode_utf8(dot);
    vstd::utf8::is_ascii_chars_encode_utf8(dots);
    vstd::utf8::encode_utf8_decode_utf8(dot);
    vstd::utf8::encode_utf8_decode_utf8(dots);
    assert('.' as u8 == path::DOT);
    assert(vstd::utf8::encode_utf8(dot)[0] == dot[0] as u8);
    assert(vstd::utf8::encode_utf8(dots)[0] == dots[0] as u8);
    assert(vstd::utf8::encode_utf8(dots)[1] == dots[1] as u8);
    assert(vstd::utf8::encode_utf8(dot) =~= path::here_component());
    assert(vstd::utf8::encode_utf8(dots) =~= path::up_component());
}

/// Whether the components `base` are the first of `all`.
pub open spec fn begins(all: Seq<Seq<u8>>, base: Seq<Seq<u8>>) -> bool {
    base.len() <= all.len() && all.take(base.len() as int) == base
}

/// A copy or a move is stopped for these reasons and no others, the first that holds:
/// it would go where it is, it would go inside itself, there is nothing at its source, or
/// there is something at its destination. Paths that merely have a directory in common
/// stop nothing, whichever of them is deeper.
pub proof fn law_what_stops_a_copy_or_a_move(
    op: OpView,
    from: Seq<u8>,
    to: Seq<u8>,
    presence: Presence,
)
    requires
        op == (OpView::Copy { from, to }) || op == (OpView::Move { from, to }),
    ensures
        ({
            let a = path::components(from);
            let b = path::components(to);
            let found = fs_ops::blocked_by(op, presence);
            &&& a == b ==> found == Some(Problem::SameSourceAndDestination)
            &&& a != b && begins(b, a) ==> found == Some(Problem::DirectoryIntoItself)
            &&& !begins(b, a) && !presence.source ==> found == Some(Problem::SourceMissing)
            &&& !begins(b, a) && presence.source && presence.destination ==> found == Some(
                Problem::DestinationExists,
            )
            &&& !begins(b, a) && presence.source && !presence.destination ==> found is None
        }),
        op.problem() == fs_ops::blocked_by(op, Presence { source: true, destination: false }),
{
    let a = path::components(from);
    let b = path::components(to);
    if a.is_prefix_of(b) {
        assert(b.take(a.len() as int) =~= a);
    }
    if a == b {
        assert(b.take(a.len() as int) =~= a);
    }
    if begins(b, a) {
        assert(a =~= b.subrange(0, a.len() as int));
    }
}

/// Making a file or a directory is stopped by one thing: that something is there.
pub proof fn law_what_stops_a_creation(path: Seq<u8>, presence: Presence)
    ensures
        fs_ops::blocked_by(OpView::CreateFile(path), presence) == if presence.destination {
            Some(Problem::DestinationExists)
        } else {
            None::<Problem>
        },
        fs_ops::blocked_by(OpView::CreateDir(path), presence) == if presence.destination {
            Some(Problem::DestinationExists)
        } else {
            None::<Problem>
        },
{
}

/// Trashing is stopped by one thing: that there is nothing to trash.
pub proof fn law_what_stops_a_trashing(path: Seq<u8>, presence: Presence)
    ensures
        fs_ops::blocked_by(OpView::Trash(path), presence) == if presence.source {
            None::<Problem>
        } else {
            Some(Problem::SourceMissing)
        },
{
}

/// Whether a path is `old` with its last component replaced by `name`.
pub open spec fn renamed_in_place(new: Seq<u8>, old: Seq<u8>, name: Seq<char>) -> bool {
    path::components(new) == path::components(old).drop_last().push(
        vstd::utf8::encode_utf8(name),
    )
}

/// Whether a path has a directory that it lies in: it is neither empty nor the root.
pub open spec fn lies_somewhere(path: Seq<u8>) -> bool {
    path::components(path).len() > 0 && path::components(path) != seq![seq![SLASH]]
}

proof fn lemma_renamed(to: Seq<u8>, name: Seq<char>)
    requires
        lies_somewhere(to),
        plain_name(name),
    ensures
        renamed_in_place(plan::renamed(to, name), to, name),
{
    lemma_plain_name(name);
    path_laws::law_parent_drops_the_last_component(to);
    path_laws::law_joined_entry_lies_in_its_directory(
        path::parent(to)->0,
        vstd::utf8::encode_utf8(name),
    );
}

/// Whether `new` is `op` writing under `name` in the directory it wrote into: it is of the
/// same kind, it reads what `op` reads, and only the last component of where it writes is
/// another.
pub open spec fn points_at(new: OpView, op: OpView, name: Seq<char>) -> bool {
    match (op, new) {
        (OpView::CreateFile(path), OpView::CreateFile(to)) => renamed_in_place(to, path, name),
        (OpView::CreateDir(path), OpView::CreateDir(to)) => renamed_in_place(to, path, name),
        (OpView::Trash(path), OpView::Trash(to)) => renamed_in_place(to, path, name),
        (
            OpView::Copy { from, to: path },
            OpView::Copy { from: source, to },
        ) => source == from && renamed_in_place(to, path, name),
        (
            OpView::Move { from, to: path },
            OpView::Move { from: source, to },
        ) => source == from && renamed_in_place(to, path, name),
        _ => false,
    }
}

/// Whether what an operation writes lies in a directory.
pub open spec fn writes_somewhere(op: OpView) -> bool {
    match op {
        OpView::CreateFile(path) => lies_somewhere(path),
        OpView::CreateDir(path) => lies_somewhere(path),
        OpView::Trash(path) => lies_somewhere(path),
        OpView::Copy { from, to } => lies_somewhere(to),
        OpView::Move { from, to } => lies_somewhere(to),
    }
}

/// Another name for where an operation writes is another name in the directory it writes
/// into. What it reads stays what it was, and it stays the kind of operation it was.
pub proof fn law_a_new_name_keeps_the_directory(op: OpView, name: Seq<char>)
    requires
        plain_name(name),
        writes_somewhere(op),
    ensures
        points_at(op.retargeted(name), op, name),
{
    lemma_renamed(op.destination(), name);
}

/// What an operation reads and writes, by what it is.
pub proof fn law_what_an_operation_reads_and_writes(op: OpView)
    ensures
        match op {
            OpView::CreateFile(path) => op.source() is None && op.destination() == path,
            OpView::CreateDir(path) => op.source() is None && op.destination() == path,
            OpView::Trash(path) => op.source() == Some(path),
            OpView::Copy { from, to } => op.source() == Some(from) && op.destination() == to,
            OpView::Move { from, to } => op.source() == Some(from) && op.destination() == to,
        },
{
}

/// Two operations are the same exactly when they are of one kind and their paths name the
/// same things.
pub proof fn law_when_operations_are_the_same(a: OpView, b: OpView)
    ensures
        a.same(b) <==> match (a, b) {
            (OpView::CreateFile(p), OpView::CreateFile(q)) => path::components(p)
                == path::components(q),
            (OpView::CreateDir(p), OpView::CreateDir(q)) => path::components(p)
                == path::components(q),
            (OpView::Trash(p), OpView::Trash(q)) => path::components(p) == path::components(q),
            (OpView::Copy { from: p, to: r }, OpView::Copy { from: q, to: t }) => path::components(
                p,
            ) == path::components(q) && path::components(r) == path::components(t),
            (OpView::Move { from: p, to: r }, OpView::Move { from: q, to: t }) => path::components(
                p,
            ) == path::components(q) && path::components(r) == path::components(t),
            _ => false,
        },
{
}

/// Staging an operation keeps all that is staged, in its order, and puts the operation
/// last with no failure, unless the same one is there.
pub proof fn law_staging_adds_at_the_end(staged: Seq<StagedView>, op: OpView)
    ensures
        ({
            let after = plan::with_staged(staged, op);
            &&& after.len() >= staged.len()
            &&& after.take(staged.len() as int) == staged
            &&& exists|i: int| 0 <= i < after.len() && (#[trigger] after[i]).op.same(op)
            &&& (exists|i: int| 0 <= i < staged.len() && (#[trigger] staged[i]).op.same(op))
                ==> after == staged
            &&& !(exists|i: int| 0 <= i < staged.len() && (#[trigger] staged[i]).op.same(op))
                ==> after.len() == staged.len() + 1 && after.last() == (StagedView {
                op,
                failure: None,
            })
        }),
{
    let after = plan::with_staged(staged, op);
    assert(after.take(staged.len() as int) =~= staged);
    if !plan::stages(staged, op) {
        assert(after[staged.len() as int].op.same(op));
    }
}

/// What is said of a problem is what it is.
pub proof fn law_what_a_problem_says(problem: Problem)
    ensures
        problem.words() == match problem {
            Problem::DirectoryIntoItself => "would go inside itself"@,
            Problem::SameSourceAndDestination => "source and destination are the same"@,
            Problem::InvalidName => "not a usable name"@,
            Problem::SourceMissing => "source no longer exists"@,
            Problem::DestinationExists => "destination already exists"@,
        },
{
}

} // verus!
