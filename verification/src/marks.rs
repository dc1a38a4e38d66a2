//! The set of entries the user has selected for bulk operations.
use crate::path::{self, FilePath, Sorted};
use crate::plan;
use vstd::prelude::*;

verus! {

broadcast use {vstd::seq::group_seq_axioms, vstd::seq_lib::group_seq_properties};

/// Paths selected across every directory visited this session.
///
/// Paths are absolute so a mark survives navigating elsewhere, and they are kept
/// ordered so bulk operations are staged in a predictable order.
#[derive(Debug)]
pub struct Marks {
    paths: Vec<FilePath>,
}

impl View for Marks {
    type V = Seq<Seq<u8>>;

    closed spec fn view(&self) -> Seq<Seq<u8>> {
        path_views(self.paths@)
    }
}

/// The bytes of each path.
pub open spec fn path_views(paths: Seq<FilePath>) -> Seq<Seq<u8>> {
    Seq::new(paths.len(), |i: int| paths[i]@)
}

/// Whether the paths are in order, which leaves no room for one to occur twice.
pub open spec fn in_order(paths: Seq<Seq<u8>>) -> bool {
    forall|i: int, j: int|
        0 <= i < j < paths.len() ==> path::path_before(#[trigger] paths[i], #[trigger] paths[j])
}

/// Whether `path` is among `paths`.
pub open spec fn holds(paths: Seq<Seq<u8>>, path: Seq<u8>) -> bool {
    exists|i: int| 0 <= i < paths.len() && plan::same_path(#[trigger] paths[i], path)
}

/// `paths` with `path` taken out where it is among them, and put in its place in
/// the order where it is not.
pub open spec fn toggled(paths: Seq<Seq<u8>>, path: Seq<u8>) -> Seq<Seq<u8>>
    decreases paths.len(),
{
    if paths.len() == 0 {
        seq![path]
    } else if plan::same_path(paths[0], path) {
        paths.drop_first()
    } else if path::path_before(path, paths[0]) {
        seq![path] + paths
    } else {
        seq![paths[0]] + toggled(paths.drop_first(), path)
    }
}

/// Whether `path` lies directly in `dir`.
pub open spec fn lies_in(path: Seq<u8>, dir: Seq<u8>) -> bool {
    match path::parent(path) {
        Some(above) => plan::same_path(above, dir),
        None => false,
    }
}

/// How many of `paths` do not lie directly in `dir`.
pub open spec fn outside(paths: Seq<Seq<u8>>, dir: Seq<u8>) -> nat
    decreases paths.len(),
{
    if paths.len() == 0 {
        0
    } else {
        outside(paths.drop_last(), dir) + if lies_in(paths.last(), dir) {
            0nat
        } else {
            1nat
        }
    }
}

/// What stands before a path in the order also stands before all that follows it.
proof fn lemma_before_all(paths: Seq<Seq<u8>>, path: Seq<u8>)
    requires
        in_order(paths),
        paths.len() > 0,
        path::path_before(path, paths[0]),
    ensures
        forall|i: int| 0 <= i < paths.len() ==> path::path_before(path, #[trigger] paths[i]),
{
    assert forall|i: int| 0 <= i < paths.len() implies path::path_before(
        path,
        #[trigger] paths[i],
    ) by {
        if i > 0 {
            assert(path::path_before(paths[0], paths[i]));
            path::lemma_components_before_transitive(
                path::components(path),
                path::components(paths[0]),
                path::components(paths[i]),
            );
        }
    }
}

/// Toggling keeps the order. What it changes is whether `path` is marked, and
/// nothing else: every other path is marked afterwards as it was before.
pub proof fn law_toggle_changes_one_mark(paths: Seq<Seq<u8>>, path: Seq<u8>)
    requires
        in_order(paths),
    ensures
        in_order(toggled(paths, path)),
        holds(toggled(paths, path), path) == !holds(paths, path),
        forall|other: Seq<u8>|
            !plan::same_path(other, path) ==> (#[trigger] holds(toggled(paths, path), other)
                == holds(paths, other)),
        toggled(paths, path).len() == if holds(paths, path) {
            paths.len() - 1
        } else {
            paths.len() + 1int
        },
    decreases paths.len(),
{
    let after = toggled(paths, path);
    if paths.len() == 0 {
        assert(plan::same_path(after[0], path));
        assert forall|other: Seq<u8>| !plan::same_path(other, path) implies #[trigger] holds(
            after,
            other,
        ) == holds(paths, other) by {
            if holds(after, other) {
                let i = choose|i: int|
                    0 <= i < after.len() && plan::same_path(#[trigger] after[i], other);
                assert(after[i] == path);
            }
        }
    } else if plan::same_path(paths[0], path) {
        assert(holds(paths, path));
        assert(in_order(after)) by {
            assert forall|i: int, j: int| 0 <= i < j < after.len() implies path::path_before(
                #[trigger] after[i],
                #[trigger] after[j],
            ) by {
                assert(after[i] == paths[i + 1] && after[j] == paths[j + 1]);
            }
        }
        assert(!holds(after, path)) by {
            if holds(after, path) {
                let i = choose|i: int|
                    0 <= i < after.len() && plan::same_path(#[trigger] after[i], path);
                assert(path::path_before(paths[0], paths[i + 1]));
                path::lemma_components_before_strict(
                    path::components(paths[0]),
                    path::components(paths[i + 1]),
                );
            }
        }
        assert forall|other: Seq<u8>| !plan::same_path(other, path) implies #[trigger] holds(
            after,
            other,
        ) == holds(paths, other) by {
            if holds(paths, other) {
                let i = choose|i: int|
                    0 <= i < paths.len() && plan::same_path(#[trigger] paths[i], other);
                assert(after[i - 1] == paths[i]);
            }
            if holds(after, other) {
                let i = choose|i: int|
                    0 <= i < after.len() && plan::same_path(#[trigger] after[i], other);
                assert(after[i] == paths[i + 1]);
            }
        }
    } else if path::path_before(path, paths[0]) {
        lemma_before_all(paths, path);
        assert(after[0] == path);
        assert(forall|i: int| 0 < i < after.len() ==> #[trigger] after[i] == paths[i - 1]);
        assert(!holds(paths, path)) by {
            if holds(paths, path) {
                let i = choose|i: int|
                    0 <= i < paths.len() && plan::same_path(#[trigger] paths[i], path);
                path::lemma_components_before_strict(
                    path::components(path),
                    path::components(paths[i]),
                );
            }
        }
        assert(plan::same_path(after[0], path));
        assert forall|other: Seq<u8>| !plan::same_path(other, path) implies #[trigger] holds(
            after,
            other,
        ) == holds(paths, other) by {
            if holds(paths, other) {
                let i = choose|i: int|
                    0 <= i < paths.len() && plan::same_path(#[trigger] paths[i], other);
                assert(after[i + 1] == paths[i]);
            }
            if holds(after, other) {
                let i = choose|i: int|
                    0 <= i < after.len() && plan::same_path(#[trigger] after[i], other);
                assert(i > 0);
            }
        }
    } else {
        let rest = paths.drop_first();
        let changed = toggled(rest, path);
        assert(forall|i: int| 0 <= i < rest.len() ==> #[trigger] rest[i] == paths[i + 1]);
        assert(in_order(rest));
        law_toggle_changes_one_mark(rest, path);
        assert(forall|i: int| 0 < i < after.len() ==> #[trigger] after[i] == changed[i - 1]);
        assert(after[0] == paths[0]);
        assert forall|other: Seq<u8>| #[trigger]
            holds(paths, other) == (plan::same_path(paths[0], other) || holds(rest, other)) by {
            if holds(paths, other) {
                let i = choose|i: int|
                    0 <= i < paths.len() && plan::same_path(#[trigger] paths[i], other);
                if i > 0 {
                    assert(rest[i - 1] == paths[i]);
                }
            }
            if holds(rest, other) {
                let i = choose|i: int|
                    0 <= i < rest.len() && plan::same_path(#[trigger] rest[i], other);
                assert(paths[i + 1] == rest[i]);
            }
        }
        assert forall|other: Seq<u8>| #[trigger]
            holds(after, other) == (plan::same_path(paths[0], other) || holds(changed, other)) by {
            if holds(after, other) {
                let i = choose|i: int|
                    0 <= i < after.len() && plan::same_path(#[trigger] after[i], other);
                if i > 0 {
                    assert(changed[i - 1] == after[i]);
                }
            }
            if holds(changed, other) {
                let i = choose|i: int|
                    0 <= i < changed.len() && plan::same_path(#[trigger] changed[i], other);
                assert(after[i + 1] == changed[i]);
            }
            if plan::same_path(paths[0], other) {
                assert(plan::same_path(after[0], other));
            }
        }
        assert forall|i: int, j: int| 0 <= i < j < after.len() implies path::path_before(
            #[trigger] after[i],
            #[trigger] after[j],
        ) by {
            assert(after[j] == changed[j - 1]);
            if i == 0 {
                lemma_after_first(paths, path, changed[j - 1]);
            } else {
                assert(after[i] == changed[i - 1]);
            }
        }
    }
}

/// What the toggled rest of the marks holds stands after the first mark.
proof fn lemma_after_first(paths: Seq<Seq<u8>>, path: Seq<u8>, one: Seq<u8>)
    requires
        in_order(paths),
        paths.len() > 0,
        !plan::same_path(paths[0], path),
        !path::path_before(path, paths[0]),
        toggled(paths.drop_first(), path).contains(one),
    ensures
        path::path_before(paths[0], one),
{
    path::lemma_components_before_total(path::components(path), path::components(paths[0]), 0);
    lemma_toggled_holds_only(paths.drop_first(), path, one);
    if paths.drop_first().contains(one) {
        let i = choose|i: int|
            0 <= i < paths.drop_first().len() && #[trigger] paths.drop_first()[i] == one;
        assert(paths[i + 1] == one);
    }
}

/// Toggling brings in nothing but `path` itself.
proof fn lemma_toggled_holds_only(paths: Seq<Seq<u8>>, path: Seq<u8>, one: Seq<u8>)
    requires
        toggled(paths, path).contains(one),
    ensures
        one == path || paths.contains(one),
    decreases paths.len(),
{
    let after = toggled(paths, path);
    let i = choose|i: int| 0 <= i < after.len() && #[trigger] after[i] == one;
    if paths.len() == 0 {
    } else if plan::same_path(paths[0], path) {
        assert(paths[i + 1] == one);
    } else if path::path_before(path, paths[0]) {
        if i > 0 {
            assert(paths[i - 1] == one);
        }
    } else if i == 0 {
        assert(paths[0] == one);
    } else {
        let rest = paths.drop_first();
        assert(toggled(rest, path)[i - 1] == one);
        lemma_toggled_holds_only(rest, path, one);
        if rest.contains(one) {
            let k = choose|k: int| 0 <= k < rest.len() && #[trigger] rest[k] == one;
            assert(paths[k + 1] == one);
        }
    }
}

/// Marking a path and unmarking it again leaves the marks as they were.
pub proof fn law_toggle_undoes_itself(paths: Seq<Seq<u8>>, path: Seq<u8>)
    requires
        in_order(paths),
        !holds(paths, path),
    ensures
        toggled(toggled(paths, path), path) == paths,
    decreases paths.len(),
{
    let after = toggled(paths, path);
    if paths.len() == 0 {
        assert(after.drop_first() =~= paths);
    } else if plan::same_path(paths[0], path) {
        assert(holds(paths, path));
    } else if path::path_before(path, paths[0]) {
        assert(after[0] == path);
        assert(after.drop_first() =~= paths);
    } else {
        let rest = paths.drop_first();
        assert(in_order(rest)) by {
            assert(forall|i: int| 0 <= i < rest.len() ==> #[trigger] rest[i] == paths[i + 1]);
        }
        assert(!holds(rest, path)) by {
            if holds(rest, path) {
                let i = choose|i: int|
                    0 <= i < rest.len() && plan::same_path(#[trigger] rest[i], path);
                assert(plan::same_path(paths[i + 1], path));
            }
        }
        law_toggle_undoes_itself(rest, path);
        assert(after[0] == paths[0]);
        assert(after.drop_first() =~= toggled(rest, path));
        assert(seq![paths[0]] + rest =~= paths);
    }
}

impl Default for Marks {
    fn default() -> (marks: Self)
        ensures
            marks@ == Seq::<Seq<u8>>::empty(),
            marks.wf(),
    {
        let marks = Marks { paths: Vec::new() };
        proof {
            assert(marks@ =~= Seq::empty());
        }
        marks
    }
}

impl Marks {
    /// The marks are in order.
    pub open spec fn wf(&self) -> bool {
        in_order(self@)
    }

    /// Adds `path` if it is not marked, removes it if it is. Returns the new state.
    pub fn toggle(&mut self, path: &FilePath) -> (marked: bool)
        requires
            old(self).wf(),
        ensures
            final(self).wf(),
            final(self)@ == toggled(old(self)@, path@),
            marked == !holds(old(self)@, path@),
    {
        let ghost before = self@;
        proof {
            law_toggle_changes_one_mark(before, path@);
            assert(before.skip(0) =~= before);
            assert(before.take(0) =~= Seq::empty());
            assert(Seq::empty() + toggled(before, path@) =~= toggled(before, path@));
        }
        let mut i: usize = 0;
        while i < self.paths.len()
            invariant
                i <= self.paths@.len(),
                *self == *old(self),
                before == self@,
                before.len() == self.paths@.len(),
                in_order(before),
                before.take(i as int) + toggled(before.skip(i as int), path@) == toggled(
                    before,
                    path@,
                ),
                in_order(toggled(before, path@)),
                forall|k: int| 0 <= k < i ==> !plan::same_path(#[trigger] before[k], path@),
            decreases self.paths.len() - i,
        {
            let ghost rest = before.skip(i as int);
            proof {
                assert(rest[0] == before[i as int]);
            }
            match self.paths[i].sort(path) {
                Sorted::Same => {
                    self.paths.remove(i);
                    proof {
                        assert(plan::same_path(before[i as int], path@));
                        assert(self@ =~= before.take(i as int) + rest.drop_first());
                    }
                    return false;
                },
                Sorted::After => {
                    proof {
                        path::lemma_components_before_strict(
                            path::components(path@),
                            path::components(before[i as int]),
                        );
                        assert(!holds(before, path@)) by {
                            if holds(before, path@) {
                                let k = choose|k: int|
                                    0 <= k < before.len() && plan::same_path(
                                        #[trigger] before[k],
                                        path@,
                                    );
                                assert(in_order(rest)) by {
                                    assert(forall|n: int|
                                        0 <= n < rest.len() ==> #[trigger] rest[n] == before[n
                                            + i]);
                                }
                                lemma_before_all(rest, path@);
                                assert(rest[k - i] == before[k]);
                                path::lemma_components_before_strict(
                                    path::components(path@),
                                    path::components(before[k]),
                                );
                            }
                        }
                    }
                    self.paths.insert(i, path.clone());
                    proof {
                        assert(self@ =~= before.take(i as int) + (seq![path@] + rest));
                    }
                    return true;
                },
                Sorted::Before => {
                    proof {
                        path::lemma_components_before_strict(
                            path::components(before[i as int]),
                            path::components(path@),
                        );
                        assert(rest.drop_first() =~= before.skip(i as int + 1));
                        assert(before.take(i as int) + (seq![rest[0]] + toggled(
                            before.skip(i as int + 1),
                            path@,
                        )) =~= before.take(i as int + 1) + toggled(
                            before.skip(i as int + 1),
                            path@,
                        ));
                    }
                },
            }
            i = i + 1;
        }
        proof {
            assert(before.skip(i as int) =~= Seq::empty());
        }
        self.paths.push(path.clone());
        proof {
            assert(self@ =~= before.take(i as int) + seq![path@]);
        }
        true
    }

    pub fn contains(&self, path: &FilePath) -> (marked: bool)
        ensures
            marked == holds(self@, path@),
    {
        let mut i: usize = 0;
        while i < self.paths.len()
            invariant
                i <= self.paths@.len(),
                forall|k: int| 0 <= k < i ==> !plan::same_path(#[trigger] self@[k], path@),
            decreases self.paths.len() - i,
        {
            if self.paths[i].same(path) {
                proof {
                    assert(plan::same_path(self@[i as int], path@));
                }
                return true;
            }
            i = i + 1;
        }
        false
    }

    pub fn is_empty(&self) -> (empty: bool)
        ensures
            empty == (self@.len() == 0),
    {
        self.paths.len() == 0
    }

    pub fn len(&self) -> (count: usize)
        ensures
            count == self@.len(),
    {
        self.paths.len()
    }

    pub fn clear(&mut self)
        ensures
            final(self)@ == Seq::<Seq<u8>>::empty(),
            final(self).wf(),
    {
        self.paths.clear();
        proof {
            assert(self@ =~= Seq::empty());
        }
    }

    /// The marked paths in order.
    pub fn iter(&self) -> (all: &Vec<FilePath>)
        ensures
            path_views(all@) == self@,
    {
        &self.paths
    }

    /// How many marks live outside `dir`, and so cannot be seen from it.
    pub fn count_outside(&self, dir: &FilePath) -> (count: usize)
        ensures
            count == outside(self@, dir@),
    {
        let mut count: usize = 0;
        let mut i: usize = 0;
        while i < self.paths.len()
            invariant
                i <= self.paths@.len() == self@.len(),
                count <= i,
                count == outside(self@.take(i as int), dir@),
            decreases self.paths.len() - i,
        {
            proof {
                assert(self@.take(i as int + 1).drop_last() =~= self@.take(i as int));
                assert(self@[i as int] == self.paths@[i as int]@);
            }
            let inside = match self.paths[i].parent() {
                Some(above) => above.same(dir),
                None => false,
            };
            if !inside {
                count = count + 1;
            }
            i = i + 1;
        }
        proof {
            assert(self@.take(i as int) =~= self@);
        }
        count
    }
}

} // verus!
