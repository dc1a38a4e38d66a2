//! What joining a name to a path and taking the parent of one do to its components.
use crate::path::{self, DOT, SLASH};
use vstd::prelude::*;

verus! {

broadcast use {vstd::seq::group_seq_axioms, vstd::seq_lib::group_seq_properties};

/// A name an entry can have: not empty, no slash in it, and neither `.` nor `..`.
pub open spec fn entry_name(name: Seq<u8>) -> bool {
    &&& name.len() > 0
    &&& !name.contains(SLASH)
    &&& name != path::here_component()
    &&& name != path::up_component()
}

proof fn lemma_same_next_slash(a: Seq<u8>, b: Seq<u8>, from: int)
    requires
        0 <= from <= path::next_slash(a, from) <= b.len(),
        path::next_slash(a, from) <= a.len(),
        forall|k: int| from <= k < path::next_slash(a, from) ==> a[k] == b[k],
        path::next_slash(a, from) == b.len() || b[path::next_slash(a, from)] == SLASH,
    ensures
        path::next_slash(b, from) == path::next_slash(a, from),
    decreases a.len() - from,
{
    path::lemma_next_slash(a, from);
    if from < a.len() && a[from] != SLASH {
        path::lemma_next_slash(a, from + 1);
        lemma_same_next_slash(a, b, from + 1);
    }
}

/// The components written before a slash are not changed by what comes after it.
proof fn lemma_parts_before_slash(dir: Seq<u8>, more: Seq<u8>, from: int)
    requires
        dir.len() > 0,
        dir.last() == SLASH,
        0 <= from <= dir.len(),
    ensures
        path::parts_from(dir + more, from) == path::parts_from(dir, from) + path::parts_from(
            dir + more,
            dir.len() as int,
        ),
    decreases dir.len() - from,
{
    let whole = dir + more;
    if from == dir.len() {
        assert(path::parts_from(dir, from) =~= Seq::empty());
        assert(Seq::<(int, int)>::empty() + path::parts_from(whole, from) =~= path::parts_from(whole, from));
    } else {
        path::lemma_next_slash(dir, from);
        let to = path::next_slash(dir, from);
        assert(to < dir.len());
        lemma_same_next_slash(dir, whole, from);
        lemma_parts_before_slash(dir, more, to + 1);
        assert(path::names_something(whole, from, to) == path::names_something(dir, from, to));
        if path::names_something(dir, from, to) {
            assert(seq![(from, to)] + (path::parts_from(dir, to + 1) + path::parts_from(
                whole,
                dir.len() as int,
            )) =~= (seq![(from, to)] + path::parts_from(dir, to + 1)) + path::parts_from(
                whole,
                dir.len() as int,
            ));
        }
    }
}

/// A slash at the end adds no component.
proof fn lemma_parts_slash_at_end(dir: Seq<u8>, from: int)
    requires
        0 <= from <= dir.len(),
        0 < dir.len(),
    ensures
        path::parts_from(dir.push(SLASH), from) == path::parts_from(dir, from),
    decreases dir.len() - from,
{
    let whole = dir.push(SLASH);
    path::lemma_next_slash(dir, from);
    path::lemma_next_slash(whole, from);
    if from == dir.len() {
        assert(path::next_slash(whole, from) == from);
        assert(path::parts_from(whole, from) =~= path::parts_from(whole, from + 1));
        assert(path::parts_from(whole, from + 1) =~= Seq::empty());
        assert(path::parts_from(dir, from) =~= Seq::empty());
    } else {
        let to = path::next_slash(dir, from);
        lemma_same_next_slash(dir, whole, from);
        if to < dir.len() {
            lemma_parts_slash_at_end(dir, to + 1);
        } else {
            assert(path::parts_from(whole, to + 1) =~= Seq::empty());
            assert(path::parts_from(dir, to + 1) =~= Seq::empty());
        }
        assert(path::names_something(whole, from, to) == path::names_something(dir, from, to));
    }
}

/// A slash at the end adds no component.
pub proof fn lemma_slash_at_end(dir: Seq<u8>)
    requires
        dir.len() > 0,
    ensures
        path::components(dir.push(SLASH)) == path::components(dir),
{
    lemma_parts_slash_at_end(dir, 0);
    path::lemma_parts(dir);
    assert(path::parts(dir.push(SLASH)) =~= path::parts(dir));
    assert forall|i: int| 0 <= i < path::parts(dir).len() implies path::components(dir.push(SLASH))[i]
        == path::components(dir)[i] by {
        let part = path::parts(dir)[i];
        assert(dir.push(SLASH).subrange(part.0, part.1) =~= dir.subrange(part.0, part.1));
    }
    assert(path::components(dir.push(SLASH)) =~= path::components(dir));
}

/// A single component after a slash is the last component.
proof fn lemma_component_after_slash(dir: Seq<u8>, name: Seq<u8>)
    requires
        dir.len() > 0,
        dir.last() == SLASH,
        name.len() > 0,
        !name.contains(SLASH),
        name != path::here_component(),
    ensures
        path::components(dir + name) == path::components(dir).push(name),
{
    let whole = dir + name;
    let at = dir.len() as int;
    lemma_parts_before_slash(dir, name, 0);
    path::lemma_next_slash(whole, at);
    let to = path::next_slash(whole, at);
    if to < whole.len() {
        assert(whole[to] == name[to - at]);
        assert(name.contains(SLASH));
    }
    assert(to == whole.len());
    if name.len() == 1 && name[0] == DOT {
        assert(name =~= path::here_component());
    }
    assert(whole[at] == name[0]);
    assert(path::names_something(whole, at, to));
    assert(path::parts_from(whole, to + 1) =~= Seq::empty());
    assert(path::parts_from(whole, at) =~= seq![(at, to)]);
    path::lemma_parts(dir);
    assert(path::rooted(whole) == path::rooted(dir));
    assert(path::parts(whole) =~= path::parts(dir).push((at, to)));
    assert forall|i: int| 0 <= i < path::parts(whole).len() implies path::components(whole)[i] == path::components(
        dir,
    ).push(name)[i] by {
        if i < path::parts(dir).len() {
            let part = path::parts(dir)[i];
            assert(whole.subrange(part.0, part.1) =~= dir.subrange(part.0, part.1));
        } else {
            assert(whole.subrange(at, to) =~= name);
        }
    }
    assert(path::components(whole) =~= path::components(dir).push(name));
}

/// A single segment on its own is its only component.
proof fn lemma_lone_component(name: Seq<u8>)
    requires
        name.len() > 0,
        !name.contains(SLASH),
    ensures
        path::components(name) == seq![name],
{
    path::lemma_next_slash(name, 0);
    let to = path::next_slash(name, 0);
    if to < name.len() {
        assert(name.contains(SLASH));
    }
    assert(name[0] != SLASH) by {
        if name[0] == SLASH {
            assert(name.contains(SLASH));
        }
    }
    assert(path::parts_from(name, to + 1) =~= Seq::empty());
    assert(path::parts(name) =~= seq![(0int, to)]);
    assert(name.subrange(0, to) =~= name);
    assert(path::components(name) =~= seq![name]);
}

/// Joining a component to a path puts it last, whatever the path is.
pub proof fn lemma_join_component(dir: Seq<u8>, name: Seq<u8>)
    requires
        name.len() > 0,
        !name.contains(SLASH),
        name != path::here_component() || dir.len() == 0,
    ensures
        path::components(path::join(dir, name)) == path::components(dir).push(name),
{
    assert(!path::rooted(name)) by {
        if path::rooted(name) {
            assert(name.contains(SLASH));
        }
    }
    if dir.len() == 0 {
        assert(dir + name =~= name);
        lemma_lone_component(name);
        assert(path::components(dir) =~= Seq::empty());
        assert(seq![name] =~= path::components(dir).push(name));
    } else if dir.last() == SLASH {
        lemma_component_after_slash(dir, name);
    } else {
        lemma_slash_at_end(dir);
        lemma_component_after_slash(dir.push(SLASH), name);
    }
}

proof fn lemma_parts_ordered(path: Seq<u8>, from: int)
    requires
        0 <= from,
    ensures
        forall|i: int, j: int|
            0 <= i < j < path::parts_from(path, from).len() ==> (#[trigger] path::parts_from(path, from)[i]).1
                < (#[trigger] path::parts_from(path, from)[j]).0,
        forall|i: int|
            0 <= i < path::parts_from(path, from).len() ==> (#[trigger] path::parts_from(path, from)[i]).1
                == path.len() || path[path::parts_from(path, from)[i].1] == SLASH,
        forall|i: int|
            0 <= i < path::parts_from(path, from).len() ==> (#[trigger] path::parts_from(path, from)[i]).0
                >= from && path[path::parts_from(path, from)[i].0] != SLASH,
        forall|i: int|
            0 <= i < path::parts_from(path, from).len() ==> path::names_something(
                path,
                (#[trigger] path::parts_from(path, from)[i]).0,
                path::parts_from(path, from)[i].1,
            ),
        forall|i: int, k: int|
            0 <= i < path::parts_from(path, from).len() && (#[trigger] path::parts_from(path, from)[i]).0 <= k
                < path::parts_from(path, from)[i].1 ==> #[trigger] path[k] != SLASH,
    decreases path.len() + 1 - from,
{
    path::lemma_next_slash(path, from);
    if from < path.len() {
        let to = path::next_slash(path, from);
        path::lemma_parts_from(path, to + 1);
        lemma_parts_ordered(path, to + 1);
        let rest = path::parts_from(path, to + 1);
        let all = path::parts_from(path, from);
        if path::names_something(path, from, to) {
            assert(all =~= seq![(from, to)] + rest);
            assert(all[0] == (from, to));
            assert forall|i: int| 1 <= i < all.len() implies #[trigger] all[i] == rest[i - 1] by {}
        } else {
            assert(all == rest);
        }
    }
}

/// Every component is the root, or holds no slash and is not empty; `.` is only
/// ever the first.
pub proof fn lemma_components_shape(path: Seq<u8>)
    ensures
        forall|i: int|
            0 <= i < path::components(path).len() ==> (#[trigger] path::components(path)[i]).len() > 0,
        forall|i: int|
            0 <= i < path::components(path).len() ==> (#[trigger] path::components(path)[i] == path::root_component())
                == (i == 0 && path::rooted(path)),
        forall|i: int|
            0 <= i < path::components(path).len() && #[trigger] path::components(path)[i] != path::root_component()
                ==> !path::components(path)[i].contains(SLASH),
        forall|i: int|
            0 <= i < path::components(path).len() && #[trigger] path::components(path)[i] == path::here_component()
                ==> i == 0,
{
    path::lemma_parts(path);
    path::lemma_parts_from(path, 0);
    lemma_parts_ordered(path, 0);
    let body = path::parts_from(path, 0);
    let shift: int = if path::rooted(path) {
        1
    } else {
        0
    };
    assert forall|i: int| 0 <= i < path::components(path).len() implies {
        &&& (#[trigger] path::components(path)[i]).len() > 0
        &&& (path::components(path)[i] == path::root_component()) == (i == 0 && path::rooted(path))
        &&& path::components(path)[i] != path::root_component() ==> !path::components(path)[i].contains(SLASH)
        &&& path::components(path)[i] == path::here_component() ==> i == 0
    } by {
        let part = path::parts(path)[i];
        let text = path::components(path)[i];
        assert(text == path.subrange(part.0, part.1));
        assert(text.len() == part.1 - part.0);
        assert(text[0] == path[part.0]);
        if i == 0 && path::rooted(path) {
            assert(part == (0int, 1int));
            assert(text =~= path::root_component());
            assert(path::root_component()[0] == SLASH && path::here_component()[0] == DOT);
        } else {
            assert(part == body[i - shift]);
            assert(path[part.0] != SLASH);
            assert(path::root_component()[0] == SLASH);
            assert forall|k: int| 0 <= k < text.len() implies text[k] != SLASH by {
                assert(text[k] == path[part.0 + k]);
            }
            if text == path::here_component() {
                assert(path::here_component().len() == 1 && path::here_component()[0] == DOT);
                assert(path::names_something(path, part.0, part.1));
                assert(part.0 == 0);
                if i - shift > 0 {
                    assert(body[0].1 < body[i - shift].0);
                }
                if path::rooted(path) {
                    assert(path[0] == SLASH);
                }
            }
        }
    }
}

/// Cutting a path at the end of a segment keeps the components before the cut.
proof fn lemma_parts_cut(path: Seq<u8>, cut: int, from: int)
    requires
        0 <= from <= cut <= path.len(),
        cut == path.len() || path[cut] == SLASH,
    ensures
        path::parts_from(path, from) == path::parts_from(path.take(cut), from) + path::parts_from(path, cut + 1),
    decreases cut - from,
{
    let kept = path.take(cut);
    path::lemma_next_slash(path, from);
    if from == cut {
        assert(path::parts_from(kept, from) =~= Seq::empty());
        if cut < path.len() {
            assert(path::next_slash(path, from) == from);
        } else {
            assert(path::parts_from(path, from) =~= Seq::empty());
            assert(path::parts_from(path, cut + 1) =~= Seq::empty());
        }
        assert(Seq::<(int, int)>::empty() + path::parts_from(path, cut + 1) =~= path::parts_from(
            path,
            cut + 1,
        ));
    } else {
        let to = path::next_slash(path, from);
        assert(to <= cut) by {
            if to > cut {
                assert(path[cut] != SLASH);
            }
        }
        lemma_same_next_slash(path, kept, from);
        assert(path::names_something(kept, from, to) == path::names_something(path, from, to));
        if to < cut {
            lemma_parts_cut(path, cut, to + 1);
        } else {
            assert(path::parts_from(kept, to + 1) =~= Seq::empty());
            assert(Seq::<(int, int)>::empty() + path::parts_from(path, cut + 1) =~= path::parts_from(
                path,
                cut + 1,
            ));
        }
        if path::names_something(path, from, to) {
            assert(seq![(from, to)] + (path::parts_from(kept, to + 1) + path::parts_from(path, cut + 1)) =~= (
            seq![(from, to)] + path::parts_from(kept, to + 1)) + path::parts_from(path, cut + 1));
        }
    }
}

/// The parent of a path has all its components but the last.
pub proof fn law_parent_drops_the_last_component(path: Seq<u8>)
    ensures
        path::parent(path) is Some <==> path::components(path).len() > 0 && path::components(path)
            != seq![path::root_component()],
        path::parent(path) matches Some(above) ==> path::components(above) == path::components(path).drop_last(),
{
    lemma_components_shape(path);
    let all = path::parts(path);
    let n = all.len() as int;
    assert(path::components(path).len() == n);
    if n == 0 {
    } else if path::components(path).last() == path::root_component() {
        assert(n == 1);
        assert(path::components(path) =~= seq![path::root_component()]);
    } else {
        if path::components(path) == seq![path::root_component()] {
            assert(path::components(path).last() == path::root_component());
        }
        if n == 1 {
            assert(path::components(Seq::<u8>::empty()) =~= Seq::empty());
            assert(path::components(path).drop_last() =~= Seq::empty());
        } else {
            let cut = all[n - 2].1;
            let kept = path.take(cut);
            path::lemma_parts(path);
            path::lemma_parts_from(path, 0);
            lemma_parts_ordered(path, 0);
            let body = path::parts_from(path, 0);
            if path::rooted(path) && n == 2 {
                assert(all[0] == (0int, 1int));
                assert(kept.len() == 1 && kept[0] == SLASH);
                path::lemma_next_slash(kept, 0);
                assert(path::next_slash(kept, 0) == 0);
                assert(path::parts_from(kept, 1) =~= Seq::empty());
                assert(path::parts_from(kept, 0) =~= Seq::empty());
                assert(path::parts(kept) =~= seq![(0int, 1int)]);
            } else {
                let shift: int = if path::rooted(path) {
                    1
                } else {
                    0
                };
                assert(all[n - 2] == body[n - 2 - shift]);
                assert(all[n - 1] == body[n - 1 - shift]);
                lemma_parts_cut(path, cut, 0);
                path::lemma_parts_from(kept, 0);
                path::lemma_parts_from(path, cut + 1);
                let front = path::parts_from(kept, 0);
                let back = path::parts_from(path, cut + 1);
                let m = body.len() as int;
                assert(body == front + back);
                // The last part lies beyond the cut, the one before it does not.
                if front.len() == m {
                    assert(front[m - 1] == body[m - 1]);
                    assert(body[m - 2].1 < body[m - 1].0);
                    assert(false);
                }
                if front.len() < m - 1 {
                    assert(body[m - 2] == back[m - 2 - front.len()]);
                    assert(false);
                }
                assert(front =~= body.take(m - 1));
                assert(path::rooted(kept) == path::rooted(path));
                assert(path::parts(kept) =~= all.take(n - 1));
            }
            assert(path::parts(kept) =~= all.take(n - 1));
            assert forall|i: int| 0 <= i < n - 1 implies path::components(kept)[i] == path::components(
                path,
            ).drop_last()[i] by {
                let part = all[i];
                assert(path::parts(kept)[i] == part);
                assert(part.1 <= cut) by {
                    path::lemma_parts(kept);
                }
                assert(kept.subrange(part.0, part.1) =~= path.subrange(part.0, part.1));
            }
            assert(path::components(kept) =~= path::components(path).drop_last());
        }
    }
}

/// An entry joined to a directory is named after itself and lies in that
/// directory.
pub proof fn law_joined_entry_lies_in_its_directory(dir: Seq<u8>, name: Seq<u8>)
    requires
        entry_name(name),
    ensures
        path::components(path::join(dir, name)) == path::components(dir).push(name),
        path::file_name(path::join(dir, name)) == Some(name),
        path::parent(path::join(dir, name)) is Some,
        path::components(path::parent(path::join(dir, name))->0) == path::components(dir),
{
    lemma_join_component(dir, name);
    let whole = path::join(dir, name);
    law_parent_drops_the_last_component(whole);
    assert(path::components(whole).last() == name);
    if name == path::root_component() {
        assert(name[0] == SLASH);
        assert(name.contains(SLASH));
    }
    assert(path::is_name(name));
    if path::components(whole) == seq![path::root_component()] {
        assert(path::components(whole).last() == path::root_component());
    }
    assert(path::components(dir).push(name).drop_last() =~= path::components(dir));
}

proof fn lemma_only_slashes(path: Seq<u8>, from: int)
    requires
        forall|i: int| 0 <= i < path.len() ==> path[i] == SLASH,
        0 <= from,
    ensures
        path::parts_from(path, from) == Seq::<(int, int)>::empty(),
    decreases path.len() - from,
{
    if from < path.len() {
        assert(path::next_slash(path, from) == from);
        lemma_only_slashes(path, from + 1);
    }
}

/// However many slashes it is written with, the root is one component; without any there is
/// none.
pub proof fn law_slashes_alone_are_the_root(path: Seq<u8>)
    requires
        forall|i: int| 0 <= i < path.len() ==> path[i] == 47u8,
    ensures
        path::components(path) == if path.len() == 0 {
            Seq::<Seq<u8>>::empty()
        } else {
            seq![seq![47u8]]
        },
{
    lemma_only_slashes(path, 0);
    if path.len() > 0 {
        assert(path::parts(path) =~= seq![(0int, 1int)]);
        assert(path.subrange(0, 1) =~= seq![47u8]);
        assert(path::components(path) =~= seq![seq![47u8]]);
    } else {
        assert(path::components(path) =~= Seq::empty());
    }
}

/// A slash at the end of a path that names something changes nothing of what it names.
pub proof fn law_a_slash_at_the_end_is_nothing(dir: Seq<u8>)
    requires
        dir.len() > 0,
    ensures
        path::components(dir.push(47u8)) == path::components(dir),
{
    lemma_slash_at_end(dir);
}

/// A path is named by its last component, unless that is the root, a dot or two dots.
pub proof fn law_what_a_path_is_named(path: Seq<u8>)
    ensures
        ({
            let all = path::components(path);
            path::file_name(path) == if all.len() > 0 && all.last() != seq![47u8] && all.last()
                != seq![46u8] && all.last() != seq![46u8, 46u8] {
                Some(all.last())
            } else {
                None
            }
        }),
{
}

/// What is rooted stays where it is, wherever it is joined to.
pub proof fn law_a_rooted_path_replaces(dir: Seq<u8>, below: Seq<u8>)
    requires
        below.len() > 0,
        below[0] == 47u8,
    ensures
        path::join(dir, below) == below,
{
}

/// A path is inside another exactly when its components begin with all of the other's.
pub proof fn law_what_lies_inside(path: Seq<u8>, base: Seq<u8>)
    ensures
        ({
            let all = path::components(path);
            let outer = path::components(base);
            let inside = outer.len() <= all.len() && forall|i: int|
                0 <= i < outer.len() ==> all[i] == #[trigger] outer[i];
            &&& path::starts_with(path, base) == inside
            &&& path::first_below(path, base) == if inside && outer.len() < all.len() {
                Some(all[outer.len() as int])
            } else {
                None
            }
        }),
{
    let all = path::components(path);
    let outer = path::components(base);
    if outer.len() <= all.len() {
        if path::starts_with(path, base) {
            assert forall|i: int| 0 <= i < outer.len() implies all[i] == #[trigger] outer[i] by {
                assert(all.take(outer.len() as int)[i] == all[i]);
            }
        } else if forall|i: int| 0 <= i < outer.len() ==> all[i] == #[trigger] outer[i] {
            assert(all.take(outer.len() as int) =~= outer);
        }
    }
}

proof fn lemma_last_dot(name: Seq<u8>, to: int)
    requires
        0 <= to <= name.len(),
    ensures
        -1 <= path::last_dot(name, to) < to || path::last_dot(name, to) == -1,
        path::last_dot(name, to) >= 0 ==> name[path::last_dot(name, to)] == path::DOT,
        forall|k: int| path::last_dot(name, to) < k < to && 0 <= k ==> name[k] != path::DOT,
    decreases to,
{
    if to > 0 && name[to - 1] != path::DOT {
        lemma_last_dot(name, to - 1);
    }
}

/// A name that is a stem, a dot and more without a dot has the latter as its extension; one
/// with no dot behind its first character has none.
pub proof fn law_what_the_extension_is(name: Seq<u8>, stem: Seq<u8>, ext: Seq<u8>)
    ensures
        stem.len() > 0 && !ext.contains(46u8) && name == stem + seq![46u8] + ext
            ==> path::extension_of_name(name) == Some(ext),
        (forall|k: int| 1 <= k < name.len() ==> name[k] != 46u8) ==> path::extension_of_name(name)
            is None,
{
    let at = path::last_dot(name, name.len() as int);
    lemma_last_dot(name, name.len() as int);
    if stem.len() > 0 && !ext.contains(46u8) && name == stem + seq![46u8] + ext {
        let dot = stem.len() as int;
        assert(name[dot] == 46u8);
        assert(at >= dot);
        if at > dot {
            assert(ext[at - dot - 1] == name[at]);
            assert(ext.contains(46u8));
        }
        assert(name.skip(at + 1) =~= ext);
    }
}

/// Names sort by the first byte they differ in, the smaller one first; one that the other
/// goes on from sorts before it. Nothing sorts before itself.
pub proof fn law_how_bytes_sort(
    start: Seq<u8>,
    x: u8,
    y: u8,
    one: Seq<u8>,
    other: Seq<u8>,
)
    ensures
        x < y ==> path::bytes_before(start + seq![x] + one, start + seq![y] + other),
        x < y ==> !path::bytes_before(start + seq![y] + other, start + seq![x] + one),
        other.len() > 0 ==> path::bytes_before(start, start + other),
        other.len() > 0 ==> !path::bytes_before(start + other, start),
        !path::bytes_before(start, start),
{
    let n = start.len() as int;
    let a = start + seq![x] + one;
    let b = start + seq![y] + other;
    if x < y {
        assert(a[n] == x && b[n] == y);
        assert(path::shares(a, b, n));
        path::lemma_bytes_before_strict(a, b);
    }
    if other.len() > 0 {
        assert(path::shares(start, start + other, n));
        path::lemma_bytes_before_strict(start, start + other);
    }
    if path::bytes_before(start, start) {
        path::lemma_bytes_before_strict(start, start);
    }
}

/// The place of a kind of component in the order: the root, then a dot, then two dots, then
/// names.
pub open spec fn kind_rank(component: Seq<u8>) -> int {
    if component == seq![47u8] {
        0
    } else if component == seq![46u8] {
        1
    } else if component == seq![46u8, 46u8] {
        2
    } else {
        3
    }
}

/// Paths sort by the first component they differ in: by its kind, and names by their bytes.
/// A directory sorts before what is in it.
pub proof fn law_how_paths_sort(a: Seq<u8>, b: Seq<u8>, at: int)
    requires
        0 <= at <= path::components(a).len(),
        at <= path::components(b).len(),
        forall|k: int|
            0 <= k < at ==> #[trigger] path::components(a)[k] == path::components(b)[k],
    ensures
        at == path::components(a).len() && at < path::components(b).len() ==> path::path_before(
            a,
            b,
        ) && !path::path_before(b, a),
        at < path::components(a).len() && at < path::components(b).len() && kind_rank(
            path::components(a)[at],
        ) < kind_rank(path::components(b)[at]) ==> path::path_before(a, b) && !path::path_before(
            b,
            a,
        ),
        at < path::components(a).len() && at < path::components(b).len() && kind_rank(
            path::components(a)[at],
        ) == kind_rank(path::components(b)[at]) && path::bytes_before(
            path::components(a)[at],
            path::components(b)[at],
        ) ==> path::path_before(a, b) && !path::path_before(b, a),
        at == path::components(a).len() && at == path::components(b).len() ==> !path::path_before(
            a,
            b,
        ),
{
    let all_a = path::components(a);
    let all_b = path::components(b);
    assert(path::shares_components(all_a, all_b, at));
    if path::components_before(all_a, all_b) {
        path::lemma_components_before_strict(all_a, all_b);
    }
    if at == all_a.len() && at == all_b.len() {
        assert(all_a =~= all_b);
    }
}

} // verus!
