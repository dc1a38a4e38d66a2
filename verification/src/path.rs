//! Slash-separated paths.
//!
//! A path is a sequence of bytes. What it names is the sequence of its
//! components: the root, then the names between the slashes. Repeated slashes, a
//! slash at the end, and `.` anywhere but at the start name nothing.
use crate::text::{self, lossy};
use vstd::prelude::*;

verus! {

broadcast use {vstd::seq::group_seq_axioms, vstd::seq_lib::group_seq_properties};

/// The separator.
pub const SLASH: u8 = 47;

/// The dot of `.`, `..` and extensions.
pub const DOT: u8 = 46;

/// Where the segment that starts at `from` ends: at the next slash, or at the end.
pub open spec fn next_slash(path: Seq<u8>, from: int) -> int
    decreases path.len() - from,
{
    if from < 0 || from >= path.len() || path[from] == SLASH {
        from
    } else {
        next_slash(path, from + 1)
    }
}

/// Whether the segment `path[from..to]` is a component: it is not empty, and it
/// is not a `.` after the start of the path.
pub open spec fn names_something(path: Seq<u8>, from: int, to: int) -> bool {
    from < to && !(to == from + 1 && path[from] == DOT && from > 0)
}

/// The components from position `from` on, as ranges of the path.
pub open spec fn parts_from(path: Seq<u8>, from: int) -> Seq<(int, int)>
    decreases path.len() + 1 - from,
    when from >= 0
    via parts_from_terminates
{
    if from >= path.len() {
        Seq::empty()
    } else {
        let to = next_slash(path, from);
        if names_something(path, from, to) {
            seq![(from, to)] + parts_from(path, to + 1)
        } else {
            parts_from(path, to + 1)
        }
    }
}

#[via_fn]
proof fn parts_from_terminates(path: Seq<u8>, from: int) {
    lemma_next_slash(path, from);
}

pub proof fn lemma_next_slash(path: Seq<u8>, from: int)
    requires
        0 <= from,
    ensures
        from <= path.len() ==> from <= next_slash(path, from) <= path.len(),
        from > path.len() ==> next_slash(path, from) == from,
        forall|k: int| from <= k < next_slash(path, from) ==> path[k] != SLASH,
        next_slash(path, from) < path.len() ==> path[next_slash(path, from)] == SLASH,
    decreases path.len() - from,
{
    if from < path.len() && path[from] != SLASH {
        lemma_next_slash(path, from + 1);
    }
}

/// Whether the path starts at the root.
pub open spec fn rooted(path: Seq<u8>) -> bool {
    path.len() > 0 && path[0] == SLASH
}

/// The components as ranges of the path, the root among them.
pub open spec fn parts(path: Seq<u8>) -> Seq<(int, int)> {
    if rooted(path) {
        seq![(0int, 1int)] + parts_from(path, 0)
    } else {
        parts_from(path, 0)
    }
}

/// The components of the path: what it names, whatever way it is written.
pub open spec fn components(path: Seq<u8>) -> Seq<Seq<u8>> {
    Seq::new(parts(path).len(), |i: int| path.subrange(parts(path)[i].0, parts(path)[i].1))
}

/// The component that stands for the root.
pub open spec fn root_component() -> Seq<u8> {
    seq![SLASH]
}

/// The component `.`, which only the start of a relative path has.
pub open spec fn here_component() -> Seq<u8> {
    seq![DOT]
}

/// The component `..`.
pub open spec fn up_component() -> Seq<u8> {
    seq![DOT, DOT]
}

/// Whether the component is a name, rather than the root, `.` or `..`.
pub open spec fn is_name(component: Seq<u8>) -> bool {
    component != root_component() && component != here_component() && component != up_component()
}

/// The last component, when it is a name.
pub open spec fn file_name(path: Seq<u8>) -> Option<Seq<u8>> {
    let all = components(path);
    if all.len() > 0 && is_name(all.last()) {
        Some(all.last())
    } else {
        None
    }
}

/// The path without its last component, written as this path writes it. The
/// root and the empty path have none.
pub open spec fn parent(path: Seq<u8>) -> Option<Seq<u8>> {
    let all = parts(path);
    if all.len() == 0 || components(path).last() == root_component() {
        None
    } else if all.len() == 1 {
        Some(Seq::empty())
    } else {
        Some(path.take(all[all.len() - 2].1))
    }
}

/// `below` inside `path`; a rooted `below` replaces `path`.
pub open spec fn join(path: Seq<u8>, below: Seq<u8>) -> Seq<u8> {
    if rooted(below) {
        below
    } else if path.len() == 0 || path.last() == SLASH {
        path + below
    } else {
        path.push(SLASH) + below
    }
}

/// Whether the components of `path` begin with all those of `base`.
pub open spec fn starts_with(path: Seq<u8>, base: Seq<u8>) -> bool {
    components(base).is_prefix_of(components(path))
}

/// The component of `path` just below `base`, when `path` is inside `base`.
pub open spec fn first_below(path: Seq<u8>, base: Seq<u8>) -> Option<Seq<u8>> {
    if starts_with(path, base) && components(base).len() < components(path).len() {
        Some(components(path)[components(base).len() as int])
    } else {
        None
    }
}

/// What follows the last dot of a name, unless that dot is its first character.
pub open spec fn extension_of_name(name: Seq<u8>) -> Option<Seq<u8>> {
    let at = last_dot(name, name.len() as int);
    if at > 0 {
        Some(name.skip(at + 1))
    } else {
        None
    }
}

/// The position of the last dot before `to`, or -1.
pub open spec fn last_dot(name: Seq<u8>, to: int) -> int
    decreases to,
{
    if to <= 0 {
        -1
    } else if name[to - 1] == DOT {
        to - 1
    } else {
        last_dot(name, to - 1)
    }
}

/// The extension of the last component, when that is a name that has one.
pub open spec fn extension(path: Seq<u8>) -> Option<Seq<u8>> {
    match file_name(path) {
        Some(name) => extension_of_name(name),
        None => None,
    }
}

/// The last component if it is a name, else the whole path.
pub open spec fn name_bytes(path: Seq<u8>) -> Seq<u8> {
    match file_name(path) {
        Some(name) => name,
        None => path,
    }
}

/// `a` sorts before `b`, byte by byte, the shorter first.
pub open spec fn bytes_before(a: Seq<u8>, b: Seq<u8>) -> bool {
    exists|i: int|
        {
            &&& #[trigger] shares(a, b, i)
            &&& (i == a.len() && i < b.len()) || (i < a.len() && i < b.len() && a[i] < b[i])
        }
}

/// `a` and `b` agree on their first `count` bytes.
pub open spec fn shares(a: Seq<u8>, b: Seq<u8>, count: int) -> bool {
    &&& 0 <= count <= a.len()
    &&& count <= b.len()
    &&& forall|k: int| 0 <= k < count ==> a[k] == b[k]
}

/// Which kind of component sorts first: the root, `.`, `..`, then names.
pub open spec fn component_rank(component: Seq<u8>) -> int {
    if component == root_component() {
        0
    } else if component == here_component() {
        1
    } else if component == up_component() {
        2
    } else {
        3
    }
}

/// Component `a` sorts before component `b`.
pub open spec fn component_before(a: Seq<u8>, b: Seq<u8>) -> bool {
    component_rank(a) < component_rank(b) || (component_rank(a) == component_rank(b)
        && bytes_before(a, b))
}

/// `a` and `b` agree on their first `count` components.
pub open spec fn shares_components(a: Seq<Seq<u8>>, b: Seq<Seq<u8>>, count: int) -> bool {
    &&& 0 <= count <= a.len()
    &&& count <= b.len()
    &&& forall|k: int| 0 <= k < count ==> a[k] == b[k]
}

/// The components `a` sort before the components `b`, one by one, a prefix first.
pub open spec fn components_before(a: Seq<Seq<u8>>, b: Seq<Seq<u8>>) -> bool {
    exists|i: int|
        {
            &&& #[trigger] shares_components(a, b, i)
            &&& (i == a.len() && i < b.len()) || (i < a.len() && i < b.len() && component_before(
                a[i],
                b[i],
            ))
        }
}

/// Path `a` sorts before path `b`.
pub open spec fn path_before(a: Seq<u8>, b: Seq<u8>) -> bool {
    components_before(components(a), components(b))
}

/// How two things sort.
#[derive(Debug, Clone, Copy, PartialEq, Eq, Structural)]
pub enum Sorted {
    Before,
    Same,
    After,
}

/// Compares byte by byte.
pub fn sort_bytes(a: &[u8], b: &[u8]) -> (sorted: Sorted)
    ensures
        sorted == Sorted::Before ==> bytes_before(a@, b@),
        sorted == Sorted::Same <==> a@ == b@,
        sorted == Sorted::After ==> bytes_before(b@, a@),
{
    let mut i: usize = 0;
    while i < a.len() && i < b.len() && a[i] == b[i]
        invariant
            i <= a@.len(),
            i <= b@.len(),
            shares(a@, b@, i as int),
        decreases a.len() - i,
    {
        i = i + 1;
    }
    proof {
        assert(shares(a@, b@, i as int));
        assert(shares(b@, a@, i as int));
    }
    if i < a.len() {
        if i < b.len() {
            if a[i] < b[i] {
                Sorted::Before
            } else {
                Sorted::After
            }
        } else {
            Sorted::After
        }
    } else if i < b.len() {
        Sorted::Before
    } else {
        proof {
            assert(a@ =~= b@);
        }
        Sorted::Same
    }
}

/// Sorting before is never mutual, and nothing sorts before itself.
pub proof fn lemma_bytes_before_strict(a: Seq<u8>, b: Seq<u8>)
    requires
        bytes_before(a, b),
    ensures
        a != b,
        !bytes_before(b, a),
{
    let i = choose|i: int|
        {
            &&& #[trigger] shares(a, b, i)
            &&& (i == a.len() && i < b.len()) || (i < a.len() && i < b.len() && a[i] < b[i])
        };
    if bytes_before(b, a) {
        let j = choose|j: int|
            {
                &&& #[trigger] shares(b, a, j)
                &&& (j == b.len() && j < a.len()) || (j < b.len() && j < a.len() && b[j] < a[j])
            };
        if i < j {
            assert(b[i] == a[i]);
        } else if j < i {
            assert(a[j] == b[j]);
        }
        assert(false);
    }
}

/// Sorting before is transitive.
pub proof fn lemma_bytes_before_transitive(a: Seq<u8>, b: Seq<u8>, c: Seq<u8>)
    requires
        bytes_before(a, b),
        bytes_before(b, c),
    ensures
        bytes_before(a, c),
{
    let i = choose|i: int|
        {
            &&& #[trigger] shares(a, b, i)
            &&& (i == a.len() && i < b.len()) || (i < a.len() && i < b.len() && a[i] < b[i])
        };
    let j = choose|j: int|
        {
            &&& #[trigger] shares(b, c, j)
            &&& (j == b.len() && j < c.len()) || (j < b.len() && j < c.len() && b[j] < c[j])
        };
    let k = if i < j {
        i
    } else {
        j
    };
    assert(shares(a, c, k)) by {
        assert forall|m: int| 0 <= m < k implies a[m] == c[m] by {
            assert(a[m] == b[m]);
            assert(b[m] == c[m]);
        }
    }
    if i < j {
        assert(b[i] == c[i]);
    } else if j < i {
        assert(a[j] == b[j]);
    }
}

/// Component order is transitive.
pub proof fn lemma_component_before_transitive(a: Seq<u8>, b: Seq<u8>, c: Seq<u8>)
    requires
        component_before(a, b),
        component_before(b, c),
    ensures
        component_before(a, c),
{
    if component_rank(a) == component_rank(b) && component_rank(b) == component_rank(c) {
        lemma_bytes_before_transitive(a, b, c);
    }
}

/// Component order is strict.
pub proof fn lemma_component_before_strict(a: Seq<u8>, b: Seq<u8>)
    requires
        component_before(a, b),
    ensures
        a != b,
        !component_before(b, a),
{
    if component_rank(a) == component_rank(b) {
        lemma_bytes_before_strict(a, b);
    }
}

/// The order of lists of components is transitive.
pub proof fn lemma_components_before_transitive(
    a: Seq<Seq<u8>>,
    b: Seq<Seq<u8>>,
    c: Seq<Seq<u8>>,
)
    requires
        components_before(a, b),
        components_before(b, c),
    ensures
        components_before(a, c),
{
    let i = choose|i: int|
        {
            &&& #[trigger] shares_components(a, b, i)
            &&& (i == a.len() && i < b.len()) || (i < a.len() && i < b.len() && component_before(
                a[i],
                b[i],
            ))
        };
    let j = choose|j: int|
        {
            &&& #[trigger] shares_components(b, c, j)
            &&& (j == b.len() && j < c.len()) || (j < b.len() && j < c.len() && component_before(
                b[j],
                c[j],
            ))
        };
    let k = if i < j {
        i
    } else {
        j
    };
    assert(shares_components(a, c, k)) by {
        assert forall|m: int| 0 <= m < k implies a[m] == c[m] by {
            assert(a[m] == b[m]);
            assert(b[m] == c[m]);
        }
    }
    if i < j {
        assert(b[i] == c[i]);
    } else if j < i {
        assert(a[j] == b[j]);
    } else if i < a.len() {
        lemma_component_before_transitive(a[i], b[i], c[i]);
    }
}

/// Of two different byte strings one sorts before the other.
pub proof fn lemma_bytes_before_total(a: Seq<u8>, b: Seq<u8>, from: int)
    requires
        a != b,
        shares(a, b, from),
    ensures
        bytes_before(a, b) || bytes_before(b, a),
    decreases a.len() - from,
{
    assert(shares(b, a, from));
    if from < a.len() && from < b.len() && a[from] == b[from] {
        lemma_bytes_before_total(a, b, from + 1);
    } else if from == a.len() && from == b.len() {
        assert(a =~= b);
    }
}

/// Of two different lists of components one sorts before the other.
pub proof fn lemma_components_before_total(a: Seq<Seq<u8>>, b: Seq<Seq<u8>>, from: int)
    requires
        a != b,
        shares_components(a, b, from),
    ensures
        components_before(a, b) || components_before(b, a),
    decreases a.len() - from,
{
    assert(shares_components(b, a, from));
    if from < a.len() && from < b.len() {
        if a[from] == b[from] {
            lemma_components_before_total(a, b, from + 1);
        } else {
            lemma_bytes_before_total(a[from], b[from], 0);
        }
    } else if from == a.len() && from == b.len() {
        assert(a =~= b);
    }
}

/// The order of lists of components is strict.
pub proof fn lemma_components_before_strict(a: Seq<Seq<u8>>, b: Seq<Seq<u8>>)
    requires
        components_before(a, b),
    ensures
        a != b,
        !components_before(b, a),
{
    let i = choose|i: int|
        {
            &&& #[trigger] shares_components(a, b, i)
            &&& (i == a.len() && i < b.len()) || (i < a.len() && i < b.len() && component_before(
                a[i],
                b[i],
            ))
        };
    if i < a.len() {
        lemma_component_before_strict(a[i], b[i]);
    }
    if components_before(b, a) {
        let j = choose|j: int|
            {
                &&& #[trigger] shares_components(b, a, j)
                &&& (j == b.len() && j < a.len()) || (j < b.len() && j < a.len()
                    && component_before(b[j], a[j]))
            };
        if i < j {
            assert(b[i] == a[i]);
        } else if j < i {
            assert(a[j] == b[j]);
            lemma_component_before_strict(b[j], a[j]);
        }
        assert(false);
    }
}

/// Every component lies inside the path and is not empty, and they do not overlap.
pub proof fn lemma_parts_from(path: Seq<u8>, from: int)
    requires
        0 <= from,
    ensures
        forall|i: int|
            0 <= i < parts_from(path, from).len() ==> from <= (#[trigger] parts_from(path, from)[i]).0
                < parts_from(path, from)[i].1 <= path.len(),
    decreases path.len() + 1 - from,
{
    lemma_next_slash(path, from);
    if from < path.len() {
        let to = next_slash(path, from);
        lemma_parts_from(path, to + 1);
        let rest = parts_from(path, to + 1);
        if names_something(path, from, to) {
            let all = parts_from(path, from);
            assert forall|i: int| 0 <= i < all.len() implies from <= (#[trigger] all[i]).0
                < all[i].1 <= path.len() by {
                if i > 0 {
                    assert(all[i] == rest[i - 1]);
                }
            }
        }
    }
}

/// Every component lies inside the path and is not empty.
pub proof fn lemma_parts(path: Seq<u8>)
    ensures
        forall|i: int|
            0 <= i < parts(path).len() ==> 0 <= (#[trigger] parts(path)[i]).0 < parts(path)[i].1
                <= path.len(),
{
    lemma_parts_from(path, 0);
    if rooted(path) {
        let rest = parts_from(path, 0);
        assert forall|i: int| 0 <= i < parts(path).len() implies 0 <= (#[trigger] parts(path)[i]).0
            < parts(path)[i].1 <= path.len() by {
            if i > 0 {
                assert(parts(path)[i] == rest[i - 1]);
            }
        }
    }
}

/// The ranges as mathematical integers.
pub open spec fn ranges(found: Seq<(usize, usize)>) -> Seq<(int, int)> {
    Seq::new(found.len(), |i: int| (found[i].0 as int, found[i].1 as int))
}

/// Byte strings as sequences.
pub open spec fn byte_views(found: Seq<Vec<u8>>) -> Seq<Seq<u8>> {
    Seq::new(found.len(), |i: int| found[i]@)
}

/// The components of `path` as ranges of it.
fn find_parts(path: &Vec<u8>) -> (found: Vec<(usize, usize)>)
    ensures
        ranges(found@) == parts(path@),
        forall|i: int|
            0 <= i < found@.len() ==> (#[trigger] found@[i]).0 < found@[i].1 <= path@.len(),
{
    let mut found: Vec<(usize, usize)> = Vec::new();
    if path.len() > 0 && path[0] == SLASH {
        found.push((0, 1));
    }
    let mut from: usize = 0;
    proof {
        assert(ranges(found@) + parts_from(path@, 0) =~= parts(path@));
    }
    while from < path.len()
        invariant
            from <= path@.len(),
            ranges(found@) + parts_from(path@, from as int) == parts(path@),
        decreases path.len() - from,
    {
        let mut to: usize = from;
        while to < path.len() && path[to] != SLASH
            invariant
                from <= to <= path@.len(),
                next_slash(path@, to as int) == next_slash(path@, from as int),
            decreases path.len() - to,
        {
            to = to + 1;
        }
        proof {
            lemma_next_slash(path@, from as int);
        }
        let ghost before = ranges(found@);
        if from < to && !(to - from == 1 && path[from] == DOT && from > 0) {
            found.push((from, to));
            proof {
                assert(ranges(found@) =~= before.push((from as int, to as int)));
                assert(before + (seq![(from as int, to as int)] + parts_from(path@, to as int + 1))
                    =~= before.push((from as int, to as int)) + parts_from(path@, to as int + 1));
            }
        }
        if to < path.len() {
            from = to + 1;
        } else {
            proof {
                assert(parts_from(path@, to as int + 1) =~= parts_from(path@, to as int));
            }
            from = to;
        }
    }
    proof {
        assert(ranges(found@) + Seq::<(int, int)>::empty() =~= ranges(found@));
        lemma_parts(path@);
        assert forall|i: int| 0 <= i < found@.len() implies (#[trigger] found@[i]).0 < found@[i].1
            <= path@.len() by {
            assert(ranges(found@)[i] == (found@[i].0 as int, found@[i].1 as int));
        }
    }
    found
}

/// `bytes[from..to]`.
pub fn slice_of(bytes: &Vec<u8>, from: usize, to: usize) -> (part: Vec<u8>)
    requires
        from <= to <= bytes@.len(),
    ensures
        part@ == bytes@.subrange(from as int, to as int),
{
    let mut part: Vec<u8> = Vec::new();
    let mut i: usize = from;
    while i < to
        invariant
            from <= i <= to <= bytes@.len(),
            part@ == bytes@.subrange(from as int, i as int),
        decreases to - i,
    {
        part.push(bytes[i]);
        proof {
            assert(bytes@.subrange(from as int, i as int + 1) =~= bytes@.subrange(
                from as int,
                i as int,
            ).push(bytes@[i as int]));
        }
        i = i + 1;
    }
    part
}

fn rank(component: &Vec<u8>) -> (found: u8)
    ensures
        found as int == component_rank(component@),
{
    proof {
        assert(component@.len() == 1 ==> component@ =~= seq![component@[0]]);
        assert(component@.len() == 2 ==> component@ =~= seq![component@[0], component@[1]]);
        assert(root_component()[0] == SLASH);
        assert(here_component()[0] == DOT);
        assert(up_component()[0] == DOT && up_component()[1] == DOT);
    }
    if component.len() == 1 && component[0] == SLASH {
        0
    } else if component.len() == 1 && component[0] == DOT {
        1
    } else if component.len() == 2 && component[0] == DOT && component[1] == DOT {
        2
    } else {
        3
    }
}

fn sort_component(a: &Vec<u8>, b: &Vec<u8>) -> (sorted: Sorted)
    ensures
        sorted == Sorted::Before ==> component_before(a@, b@),
        sorted == Sorted::Same <==> a@ == b@,
        sorted == Sorted::After ==> component_before(b@, a@),
{
    let rank_a: u8 = rank(a);
    let rank_b: u8 = rank(b);
    if rank_a < rank_b {
        Sorted::Before
    } else if rank_b < rank_a {
        Sorted::After
    } else {
        sort_bytes(a.as_slice(), b.as_slice())
    }
}

/// A path.
#[derive(Debug)]
pub struct FilePath {
    pub bytes: Vec<u8>,
}

impl View for FilePath {
    type V = Seq<u8>;

    open spec fn view(&self) -> Seq<u8> {
        self.bytes@
    }
}

impl Clone for FilePath {
    fn clone(&self) -> (copy: Self)
        ensures
            copy@ == self@,
    {
        FilePath { bytes: self.bytes.clone() }
    }
}

impl PartialEq for FilePath {
    /// Two paths are equal when they name the same thing, however they are written.
    fn eq(&self, other: &Self) -> (same: bool) {
        self.same(other)
    }
}

impl vstd::std_specs::cmp::PartialEqSpecImpl for FilePath {
    open spec fn obeys_eq_spec() -> bool {
        true
    }

    open spec fn eq_spec(&self, other: &Self) -> bool {
        components(self@) == components(other@)
    }
}

impl FilePath {
    /// The path written as `text`.
    pub fn new(text: &str) -> (path: Self)
        ensures
            path@ == vstd::utf8::encode_utf8(text@),
    {
        FilePath { bytes: text.as_bytes_vec() }
    }

    /// The path made of these bytes.
    pub fn from_bytes(bytes: Vec<u8>) -> (path: Self)
        ensures
            path@ == bytes@,
    {
        FilePath { bytes }
    }

    /// The path as text.
    pub fn display(&self) -> (text: String)
        ensures
            text@ == text::lossy_text(self@),
    {
        lossy(self.bytes.as_slice())
    }

    /// The components of this path.
    pub fn components(&self) -> (found: Vec<Vec<u8>>)
        ensures
            byte_views(found@) == components(self@),
    {
        let ranges_found = find_parts(&self.bytes);
        let mut found: Vec<Vec<u8>> = Vec::new();
        let mut i: usize = 0;
        while i < ranges_found.len()
            invariant
                i <= ranges_found@.len(),
                ranges(ranges_found@) == parts(self@),
                forall|k: int|
                    0 <= k < ranges_found@.len() ==> (#[trigger] ranges_found@[k]).0
                        < ranges_found@[k].1 <= self@.len(),
                found@.len() == i,
                forall|k: int| 0 <= k < i ==> (#[trigger] found@[k])@ == components(self@)[k],
            decreases ranges_found.len() - i,
        {
            let (from, to) = ranges_found[i];
            proof {
                assert(ranges(ranges_found@)[i as int] == (from as int, to as int));
            }
            found.push(slice_of(&self.bytes, from, to));
            i = i + 1;
        }
        proof {
            assert(ranges(ranges_found@).len() == parts(self@).len());
            assert(byte_views(found@) =~= components(self@));
        }
        found
    }

    /// How this path sorts against `other`.
    pub fn sort(&self, other: &Self) -> (sorted: Sorted)
        ensures
            sorted == Sorted::Before ==> path_before(self@, other@),
            sorted == Sorted::Same <==> components(self@) == components(other@),
            sorted == Sorted::After ==> path_before(other@, self@),
    {
        let a = self.components();
        let b = other.components();
        let ghost av = components(self@);
        let ghost bv = components(other@);
        let mut i: usize = 0;
        while i < a.len() && i < b.len()
            invariant
                i <= a@.len(),
                i <= b@.len(),
                byte_views(a@) == av,
                byte_views(b@) == bv,
                av == components(self@),
                bv == components(other@),
                shares_components(av, bv, i as int),
            decreases a.len() - i,
        {
            proof {
                assert(av[i as int] == a@[i as int]@);
                assert(bv[i as int] == b@[i as int]@);
            }
            let sorted = sort_component(&a[i], &b[i]);
            match sorted {
                Sorted::Same => {},
                Sorted::Before => {
                    return Sorted::Before;
                },
                Sorted::After => {
                    proof {
                        assert(shares_components(bv, av, i as int));
                    }
                    return Sorted::After;
                },
            }
            i = i + 1;
        }
        proof {
            assert(av.len() == a@.len() && bv.len() == b@.len());
            assert(shares_components(av, bv, i as int));
            assert(shares_components(bv, av, i as int));
        }
        if i < a.len() {
            Sorted::After
        } else if i < b.len() {
            Sorted::Before
        } else {
            proof {
                assert(av =~= bv);
            }
            Sorted::Same
        }
    }

    /// Whether both paths name the same thing.
    pub fn same(&self, other: &Self) -> (same: bool)
        ensures
            same == (components(self@) == components(other@)),
    {
        match self.sort(other) {
            Sorted::Same => true,
            _ => false,
        }
    }

    /// Whether this path starts at the root.
    pub fn is_absolute(&self) -> (absolute: bool)
        ensures
            absolute == rooted(self@),
    {
        self.bytes.len() > 0 && self.bytes[0] == SLASH
    }

    /// The path without its last component.
    pub fn parent(&self) -> (found: Option<FilePath>)
        ensures
            match found {
                Some(above) => parent(self@) == Some(above@),
                None => parent(self@) is None,
            },
    {
        let all = find_parts(&self.bytes);
        let ghost pv = parts(self@);
        if all.len() == 0 {
            return None;
        }
        let (from, to) = all[all.len() - 1];
        proof {
            assert(pv.len() == all@.len());
            assert(ranges(all@)[all@.len() - 1] == (from as int, to as int));
            let last = components(self@).last();
            assert(last == self@.subrange(from as int, to as int));
            assert(last.len() == to - from);
            assert(last[0] == self@[from as int]);
            assert(to - from == 1 && self@[from as int] == SLASH ==> last =~= root_component());
            assert(last == root_component() ==> last.len() == 1 && last[0] == SLASH);
        }
        if to - from == 1 && self.bytes[from] == SLASH {
            return None;
        }
        if all.len() == 1 {
            let empty: Vec<u8> = Vec::new();
            proof {
                assert(empty@ =~= Seq::empty());
            }
            return Some(FilePath { bytes: empty });
        }
        let (above_from, above_to) = all[all.len() - 2];
        proof {
            assert(ranges(all@)[all@.len() - 2] == (above_from as int, above_to as int));
            assert(self@.subrange(0, above_to as int) =~= self@.take(above_to as int));
        }
        Some(FilePath { bytes: slice_of(&self.bytes, 0, above_to) })
    }

    /// The last component, when it is a name.
    pub fn file_name(&self) -> (found: Option<Vec<u8>>)
        ensures
            match found {
                Some(name) => file_name(self@) == Some(name@),
                None => file_name(self@) is None,
            },
    {
        let mut all = self.components();
        proof {
            assert(byte_views(all@).len() == all@.len());
        }
        let last = all.pop();
        match last {
            None => None,
            Some(last) => {
                proof {
                    assert(components(self@).last() == last@);
                }
                if rank(&last) == 3 {
                    Some(last)
                } else {
                    None
                }
            },
        }
    }

    /// The extension of the last component.
    pub fn extension(&self) -> (found: Option<Vec<u8>>)
        ensures
            match found {
                Some(ext) => extension(self@) == Some(ext@),
                None => extension(self@) is None,
            },
    {
        match self.file_name() {
            None => None,
            Some(name) => {
                let mut to: usize = name.len();
                while to > 0 && name[to - 1] != DOT
                    invariant
                        to <= name@.len(),
                        last_dot(name@, to as int) == last_dot(name@, name@.len() as int),
                    decreases to,
                {
                    to = to - 1;
                }
                if to > 1 {
                    proof {
                        assert(name@.subrange(to as int, name@.len() as int) =~= name@.skip(
                            to as int,
                        ));
                    }
                    Some(slice_of(&name, to, name.len()))
                } else {
                    None
                }
            },
        }
    }

    /// The last component if it is a name, else the whole path, as text.
    pub fn name_of(&self) -> (text: String)
        ensures
            text@ == text::lossy_text(name_bytes(self@)),
    {
        match self.file_name() {
            Some(name) => lossy(name.as_slice()),
            None => self.display(),
        }
    }

    /// `below` inside this path.
    pub fn join_bytes(&self, below: &[u8]) -> (joined: FilePath)
        ensures
            joined@ == join(self@, below@),
    {
        let mut bytes: Vec<u8> = Vec::new();
        if below.len() > 0 && below[0] == SLASH {
            bytes.extend_from_slice(below);
            proof {
                assert(bytes@ =~= below@);
            }
            return FilePath { bytes };
        }
        bytes.extend_from_slice(self.bytes.as_slice());
        proof {
            assert(bytes@ =~= self@);
        }
        if bytes.len() > 0 && bytes[bytes.len() - 1] != SLASH {
            bytes.push(SLASH);
        }
        let ghost before = bytes@;
        bytes.extend_from_slice(below);
        proof {
            assert(bytes@ =~= before + below@);
        }
        FilePath { bytes }
    }

    /// The entry called `name` inside this path.
    pub fn join(&self, name: &str) -> (joined: FilePath)
        ensures
            joined@ == join(self@, vstd::utf8::encode_utf8(name@)),
    {
        self.join_bytes(name.as_bytes())
    }

    /// Whether this path is `base` or inside it.
    pub fn starts_with(&self, base: &FilePath) -> (inside: bool)
        ensures
            inside == starts_with(self@, base@),
    {
        let mine = self.components();
        let theirs = base.components();
        components_start_with(&mine, &theirs)
    }

    /// The component just below `base` on the way to this path.
    pub fn first_below(&self, base: &FilePath) -> (found: Option<Vec<u8>>)
        ensures
            match found {
                Some(name) => first_below(self@, base@) == Some(name@),
                None => first_below(self@, base@) is None,
            },
    {
        let mine = self.components();
        let theirs = base.components();
        proof {
            assert(byte_views(mine@).len() == mine@.len());
            assert(byte_views(theirs@).len() == theirs@.len());
        }
        if theirs.len() < mine.len() && components_start_with(&mine, &theirs) {
            let name = mine[theirs.len()].clone();
            proof {
                assert(components(self@)[theirs@.len() as int] == name@);
            }
            Some(name)
        } else {
            None
        }
    }
}

fn components_start_with(all: &Vec<Vec<u8>>, start: &Vec<Vec<u8>>) -> (starts: bool)
    ensures
        starts == byte_views(start@).is_prefix_of(byte_views(all@)),
{
    if start.len() > all.len() {
        return false;
    }
    let mut i: usize = 0;
    while i < start.len()
        invariant
            i <= start@.len() <= all@.len(),
            forall|k: int| 0 <= k < i ==> (#[trigger] start@[k])@ == all@[k]@,
        decreases start.len() - i,
    {
        match sort_bytes(start[i].as_slice(), all[i].as_slice()) {
            Sorted::Same => {},
            _ => {
                proof {
                    assert(byte_views(start@)[i as int] != byte_views(all@)[i as int]);
                    assert(byte_views(start@).is_prefix_of(byte_views(all@)) ==> byte_views(
                        all@,
                    ).subrange(0, start@.len() as int)[i as int] == byte_views(start@)[i as int]);
                }
                return false;
            },
        }
        i = i + 1;
    }
    proof {
        assert(byte_views(start@) =~= byte_views(all@).subrange(0, start@.len() as int));
    }
    true
}

} // verus!
