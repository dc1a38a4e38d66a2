//! What the navigator remembers about places it has already been.
use crate::path::{self, FilePath};
use crate::plan;
use vstd::prelude::*;
use vstd::string::StringExecFns;

verus! {

broadcast use {vstd::seq::group_seq_axioms, vstd::seq_lib::group_seq_properties};

/// Where the cursor was left in each directory visited this session.
///
/// Positions are stored as entry names rather than row numbers: a directory's
/// contents can change between two visits, and a row number would then quietly
/// point at the wrong file.
///
/// Nothing here outlives the process. The navigator is launched per invocation
/// and exits when a file is opened, so remembering across runs would be a
/// separate feature with its own storage and staleness questions.
#[derive(Debug)]
pub struct Memory {
    /// Directories with the entry last under the cursor, no directory twice.
    cursor: Vec<(FilePath, String)>,
}

/// Whether row `i` of `cursor` is about the directory with these components.
pub open spec fn is_about(cursor: Seq<(FilePath, String)>, i: int, dir: Seq<Seq<u8>>) -> bool {
    0 <= i < cursor.len() && path::components(cursor[i].0@) == dir
}

/// The rows as a map from a directory's components to the entry's name.
pub open spec fn as_map(cursor: Seq<(FilePath, String)>) -> Map<Seq<Seq<u8>>, Seq<char>> {
    Map::new(
        |dir: Seq<Seq<u8>>| exists|i: int| #[trigger] is_about(cursor, i, dir),
        |dir: Seq<Seq<u8>>| cursor[choose|i: int| #[trigger] is_about(cursor, i, dir)].1@,
    )
}

/// No two rows are about the same directory.
pub open spec fn distinct(cursor: Seq<(FilePath, String)>) -> bool {
    forall|i: int, j: int|
        0 <= i < j < cursor.len() ==> !plan::same_path(
            #[trigger] cursor[i].0@,
            #[trigger] cursor[j].0@,
        )
}

impl View for Memory {
    type V = Map<Seq<Seq<u8>>, Seq<char>>;

    closed spec fn view(&self) -> Map<Seq<Seq<u8>>, Seq<char>> {
        as_map(self.cursor@)
    }
}

impl Default for Memory {
    fn default() -> (memory: Self)
        ensures
            memory@ == Map::<Seq<Seq<u8>>, Seq<char>>::empty(),
            memory.wf(),
    {
        let memory = Memory { cursor: Vec::new() };
        proof {
            assert(memory@ =~= Map::empty());
        }
        memory
    }
}

impl Memory {
    /// Every directory is remembered once.
    pub closed spec fn wf(&self) -> bool {
        distinct(self.cursor@)
    }

    /// Records that `entry` was under the cursor in `dir`.
    pub fn remember(&mut self, dir: &FilePath, entry: &str)
        requires
            old(self).wf(),
        ensures
            final(self).wf(),
            final(self)@ == old(self)@.insert(path::components(dir@), entry@),
    {
        let ghost before = self.cursor@;
        let ghost key = path::components(dir@);
        let mut i: usize = 0;
        while i < self.cursor.len()
            invariant
                i <= self.cursor@.len(),
                self.cursor@ == before,
                *self == *old(self),
                key == path::components(dir@),
                distinct(before),
                forall|k: int| 0 <= k < i ==> !plan::same_path(#[trigger] before[k].0@, dir@),
            decreases self.cursor.len() - i,
        {
            if self.cursor[i].0.same(dir) {
                self.cursor.set(i, (dir.clone(), entry.to_owned()));
                proof {
                    lemma_replaced(before, self.cursor@, i as int);
                }
                return ;
            }
            i = i + 1;
        }
        self.cursor.push((dir.clone(), entry.to_owned()));
        proof {
            lemma_added(before, self.cursor@);
        }
    }

    /// The entry last under the cursor in `dir`, if it has been visited.
    pub fn recall(&self, dir: &FilePath) -> (entry: Option<&str>)
        requires
            self.wf(),
        ensures
            match entry {
                Some(entry) => {
                    &&& self@.dom().contains(path::components(dir@))
                    &&& self@[path::components(dir@)] == entry@
                },
                None => !self@.dom().contains(path::components(dir@)),
            },
    {
        let ghost key = path::components(dir@);
        let mut i: usize = 0;
        while i < self.cursor.len()
            invariant
                i <= self.cursor@.len(),
                self.wf(),
                key == path::components(dir@),
                forall|k: int| 0 <= k < i ==> !plan::same_path(#[trigger] self.cursor@[k].0@, dir@),
            decreases self.cursor.len() - i,
        {
            if self.cursor[i].0.same(dir) {
                proof {
                    assert(is_about(self.cursor@, i as int, key));
                    lemma_about(self.cursor@, i as int, key);
                }
                return Some(self.cursor[i].1.as_str());
            }
            i = i + 1;
        }
        proof {
            assert forall|k: int| !#[trigger] is_about(self.cursor@, k, key) by {
                if is_about(self.cursor@, k, key) {
                    assert(plan::same_path(self.cursor@[k].0@, dir@));
                }
            }
        }
        None
    }
}

/// The map gives a directory the name in its row.
proof fn lemma_about(cursor: Seq<(FilePath, String)>, i: int, dir: Seq<Seq<u8>>)
    requires
        distinct(cursor),
        is_about(cursor, i, dir),
    ensures
        as_map(cursor).dom().contains(dir),
        as_map(cursor)[dir] == cursor[i].1@,
{
    let k = choose|k: int| #[trigger] is_about(cursor, k, dir);
    assert(is_about(cursor, k, dir));
    if k < i {
        assert(!plan::same_path(cursor[k].0@, cursor[i].0@));
    } else if i < k {
        assert(!plan::same_path(cursor[i].0@, cursor[k].0@));
    }
}

proof fn lemma_replaced(
    before: Seq<(FilePath, String)>,
    after: Seq<(FilePath, String)>,
    at: int,
)
    requires
        distinct(before),
        0 <= at < before.len(),
        after == before.update(at, after[at]),
        plan::same_path(before[at].0@, after[at].0@),
    ensures
        distinct(after),
        as_map(after) == as_map(before).insert(path::components(after[at].0@), after[at].1@),
{
    let key = path::components(after[at].0@);
    assert forall|i: int, j: int| 0 <= i < j < after.len() implies !plan::same_path(
        #[trigger] after[i].0@,
        #[trigger] after[j].0@,
    ) by {
        assert(!plan::same_path(before[i].0@, before[j].0@));
    }
    assert forall|i: int, dir: Seq<Seq<u8>>| #[trigger]
        is_about(after, i, dir) == is_about(before, i, dir) by {}
    assert(is_about(before, at, key));
    assert(is_about(after, at, key));
    let expected = as_map(before).insert(key, after[at].1@);
    assert forall|dir: Seq<Seq<u8>>| #[trigger]
        as_map(after).dom().contains(dir) == expected.dom().contains(dir) by {
        if as_map(after).dom().contains(dir) {
            let i = choose|i: int| #[trigger] is_about(after, i, dir);
            assert(is_about(before, i, dir));
        }
        if as_map(before).dom().contains(dir) {
            let i = choose|i: int| #[trigger] is_about(before, i, dir);
            assert(is_about(after, i, dir));
        }
    }
    assert forall|dir: Seq<Seq<u8>>| #[trigger]
        as_map(after).dom().contains(dir) implies as_map(after)[dir] == expected[dir] by {
        let i = choose|i: int| #[trigger] is_about(after, i, dir);
        lemma_about(after, i, dir);
        assert(is_about(before, i, dir));
        lemma_about(before, i, dir);
        if dir == key {
            lemma_about(after, at, dir);
        } else {
            assert(i != at);
        }
    }
    assert(as_map(after) =~= expected);
}

proof fn lemma_added(before: Seq<(FilePath, String)>, after: Seq<(FilePath, String)>)
    requires
        distinct(before),
        after.len() == before.len() + 1,
        after == before.push(after.last()),
        forall|k: int|
            0 <= k < before.len() ==> !plan::same_path(
                #[trigger] before[k].0@,
                after.last().0@,
            ),
    ensures
        distinct(after),
        as_map(after) == as_map(before).insert(
            path::components(after.last().0@),
            after.last().1@,
        ),
{
    let at = before.len() as int;
    let key = path::components(after[at].0@);
    assert forall|i: int, j: int| 0 <= i < j < after.len() implies !plan::same_path(
        #[trigger] after[i].0@,
        #[trigger] after[j].0@,
    ) by {
        assert(after[i] == before[i]);
        if j < at {
            assert(after[j] == before[j]);
        }
    }
    assert(is_about(after, at, key));
    let expected = as_map(before).insert(key, after[at].1@);
    assert forall|dir: Seq<Seq<u8>>| #[trigger]
        as_map(after).dom().contains(dir) == expected.dom().contains(dir) by {
        if as_map(after).dom().contains(dir) {
            let i = choose|i: int| #[trigger] is_about(after, i, dir);
            if i < at {
                assert(is_about(before, i, dir));
            }
        }
        if as_map(before).dom().contains(dir) {
            let i = choose|i: int| #[trigger] is_about(before, i, dir);
            assert(is_about(after, i, dir));
        }
    }
    assert forall|dir: Seq<Seq<u8>>| #[trigger]
        as_map(after).dom().contains(dir) implies as_map(after)[dir] == expected[dir] by {
        let i = choose|i: int| #[trigger] is_about(after, i, dir);
        lemma_about(after, i, dir);
        if dir == key {
            lemma_about(after, at, dir);
        } else {
            assert(is_about(before, i, dir));
            lemma_about(before, i, dir);
        }
    }
    assert(as_map(after) =~= expected);
}

} // verus!
