//! What holds of the key map however tall the screen is.
use crate::navigator::help;
use crate::screen::LineView;
use vstd::prelude::*;

verus! {

broadcast use {vstd::seq::group_seq_axioms, vstd::seq_lib::group_seq_properties};

/// Every column has a row, and at most `height` of them.
pub open spec fn all_fit(columns: Seq<Seq<LineView>>, height: nat) -> bool {
    forall|i: int| 0 <= i < columns.len() ==> 0 < (#[trigger] columns[i]).len() <= height
}

proof fn lemma_cut_fits(lines: Seq<LineView>, height: nat)
    requires
        height > 0,
    ensures
        all_fit(help::cut(lines, height).0, height),
        help::cut(lines, height).1.len() <= height,
    decreases lines.len(),
{
    if lines.len() > height {
        let (columns, rest) = help::cut(lines.skip(height as int), height);
        lemma_cut_fits(lines.skip(height as int), height);
        let all = seq![lines.take(height as int)] + columns;
        assert forall|i: int| 0 <= i < all.len() implies 0 < (#[trigger] all[i]).len()
            <= height by {
            if i > 0 {
                assert(all[i] == columns[i - 1]);
            }
        }
    }
}

proof fn lemma_packed_fits(sections: Seq<Seq<LineView>>, height: nat)
    requires
        height > 0,
    ensures
        all_fit(help::packed(sections, height).0, height),
        help::packed(sections, height).1.len() <= height,
    decreases sections.len(),
{
    if sections.len() > 0 {
        lemma_packed_fits(sections.drop_last(), height);
        let (columns, current) = help::packed(sections.drop_last(), height);
        let lines = sections.last();
        let below = current.len() + 1 + lines.len() <= height;
        let full = if current.len() > 0 && !below {
            columns.push(current)
        } else {
            columns
        };
        let start = if current.len() == 0 || !below {
            Seq::empty()
        } else {
            current.push(help::blank())
        };
        lemma_cut_fits(start + lines, height);
        let more = help::cut(start + lines, height).0;
        let all = full + more;
        assert forall|i: int| 0 <= i < all.len() implies 0 < (#[trigger] all[i]).len()
            <= height by {
            if i < full.len() {
                assert(all[i] == full[i]);
                if i < columns.len() {
                    assert(full[i] == columns[i]);
                }
            } else {
                assert(all[i] == more[i - full.len()]);
            }
        }
    }
}

/// However many rows there are, no column of the help is taller than that, so
/// nothing of it is cut off, and none is empty.
pub proof fn law_help_fits_the_screen(sections: Seq<Seq<LineView>>, height: nat)
    ensures
        all_fit(help::columns_of(sections, height), help::usable(height)),
{
    lemma_packed_fits(sections, help::usable(height));
}

/// How many rows sections take one below the other, with a blank row below each.
pub open spec fn rows_below(sections: Seq<Seq<LineView>>) -> nat
    decreases sections.len(),
{
    if sections.len() == 0 {
        0
    } else {
        rows_below(sections.drop_last()) + sections.last().len() + 1
    }
}

/// How many columns there are, the one being filled included where it has a row.
spec fn started(columns: (Seq<Seq<LineView>>, Seq<LineView>)) -> nat {
    columns.0.len() + if columns.1.len() > 0 {
        1nat
    } else {
        0
    }
}

proof fn lemma_cut_few(lines: Seq<LineView>, height: nat)
    requires
        height > 0,
    ensures
        started(help::cut(lines, height)) <= lines.len(),
    decreases lines.len(),
{
    if lines.len() > height {
        lemma_cut_few(lines.skip(height as int), height);
    }
}

proof fn lemma_packed_few(sections: Seq<Seq<LineView>>, height: nat)
    requires
        height > 0,
    ensures
        started(help::packed(sections, height)) <= rows_below(sections),
    decreases sections.len(),
{
    if sections.len() > 0 {
        lemma_packed_few(sections.drop_last(), height);
        let current = help::packed(sections.drop_last(), height).1;
        let lines = sections.last();
        if current.len() == 0 || current.len() + 1 + lines.len() > height {
            assert(Seq::<LineView>::empty() + lines =~= lines);
            lemma_cut_few(lines, height);
        }
    }
}

/// However few rows there are, the keys take fewer than a hundred columns, and at least
/// one.
pub proof fn law_the_keys_take_few_columns(height: nat)
    ensures
        0 < help::columns_of(help::all_sections(help::key_map()), height).len() < 100,
{
    reveal(help::key_map);
    let map = help::key_map();
    let sections = help::all_sections(map);
    assert(sections.len() == 5);
    assert(sections[0].len() == 10);
    assert(sections[1].len() == 3);
    assert(sections[2].len() == 7);
    assert(sections[3].len() == 7);
    assert(sections[4].len() == 4);
    reveal_with_fuel(rows_below, 6);
    lemma_packed_few(sections, help::usable(height));
    if help::columns_of(sections, height).len() == 0 {
        let before = help::packed(sections.drop_last(), help::usable(height));
        let start = if before.1.len() == 0 || before.1.len() + 1 + sections[4].len()
            > help::usable(height) {
            Seq::empty()
        } else {
            before.1.push(help::blank())
        };
        lemma_cut_keeps(start + sections[4], help::usable(height));
    }
}

/// Lines less the blank ones.
pub open spec fn written(lines: Seq<LineView>) -> Seq<LineView>
    decreases lines.len(),
{
    if lines.len() == 0 {
        Seq::empty()
    } else if lines.last() == help::blank() {
        written(lines.drop_last())
    } else {
        written(lines.drop_last()).push(lines.last())
    }
}

/// All lines of all columns, one column after the other.
pub open spec fn all_lines(columns: Seq<Seq<LineView>>) -> Seq<LineView>
    decreases columns.len(),
{
    if columns.len() == 0 {
        Seq::empty()
    } else {
        all_lines(columns.drop_last()) + columns.last()
    }
}

proof fn lemma_written_add(a: Seq<LineView>, b: Seq<LineView>)
    ensures
        written(a + b) == written(a) + written(b),
    decreases b.len(),
{
    if b.len() == 0 {
        assert(a + b =~= a);
        assert(written(a) + written(b) =~= written(a));
    } else {
        assert((a + b).drop_last() =~= a + b.drop_last());
        lemma_written_add(a, b.drop_last());
        if b.last() != help::blank() {
            assert((written(a) + written(b.drop_last())).push(b.last()) =~= written(a)
                + written(b));
        }
    }
}

proof fn lemma_all_lines_add(a: Seq<Seq<LineView>>, b: Seq<Seq<LineView>>)
    ensures
        all_lines(a + b) == all_lines(a) + all_lines(b),
    decreases b.len(),
{
    if b.len() == 0 {
        assert(a + b =~= a);
        assert(all_lines(a) + all_lines(b) =~= all_lines(a));
    } else {
        assert((a + b).drop_last() =~= a + b.drop_last());
        lemma_all_lines_add(a, b.drop_last());
        assert((all_lines(a) + all_lines(b.drop_last())) + b.last() =~= all_lines(a) + (
        all_lines(b.drop_last()) + b.last()));
    }
}

proof fn lemma_one_column(column: Seq<LineView>)
    ensures
        all_lines(seq![column]) == column,
{
    assert(seq![column].drop_last() =~= Seq::empty());
    assert(all_lines(Seq::empty()) + column =~= column);
}

proof fn lemma_cut_keeps(lines: Seq<LineView>, height: nat)
    requires
        height > 0,
    ensures
        all_lines(help::cut(lines, height).0) + help::cut(lines, height).1 == lines,
    decreases lines.len(),
{
    if lines.len() > height {
        let top = lines.take(height as int);
        let below = lines.skip(height as int);
        let (columns, rest) = help::cut(below, height);
        lemma_cut_keeps(below, height);
        lemma_all_lines_add(seq![top], columns);
        lemma_one_column(top);
        assert((top + all_lines(columns)) + rest =~= top + (all_lines(columns) + rest));
        assert(top + below =~= lines);
    } else {
        assert(all_lines(Seq::empty()) + lines =~= lines);
    }
}

proof fn lemma_packed_keeps(sections: Seq<Seq<LineView>>, height: nat)
    requires
        height > 0,
    ensures
        written(all_lines(help::packed(sections, height).0) + help::packed(sections, height).1)
            == written(all_lines(sections)),
    decreases sections.len(),
{
    if sections.len() == 0 {
        assert(all_lines(Seq::<Seq<LineView>>::empty()) + Seq::<LineView>::empty()
            =~= Seq::empty());
    } else {
        let (columns, current) = help::packed(sections.drop_last(), height);
        let lines = sections.last();
        lemma_packed_keeps(sections.drop_last(), height);
        let below = current.len() + 1 + lines.len() <= height;
        let full = if current.len() > 0 && !below {
            columns.push(current)
        } else {
            columns
        };
        let start = if current.len() == 0 || !below {
            Seq::empty()
        } else {
            current.push(help::blank())
        };
        let (more, rest) = help::cut(start + lines, height);
        lemma_cut_keeps(start + lines, height);
        lemma_all_lines_add(full, more);
        assert((all_lines(full) + all_lines(more)) + rest =~= all_lines(full) + (all_lines(more)
            + rest));
        assert(all_lines(full) + (start + lines) =~= (all_lines(full) + start) + lines);
        lemma_written_add(all_lines(full) + start, lines);
        lemma_written_add(all_lines(full), start);
        lemma_written_add(all_lines(columns), current);
        lemma_written_add(all_lines(sections.drop_last()), lines);
        if current.len() == 0 {
            assert(all_lines(columns) + current =~= all_lines(columns));
            assert(all_lines(full) + start =~= all_lines(columns));
        } else if !below {
            assert(columns.push(current).drop_last() =~= columns);
            assert(all_lines(full) + start =~= all_lines(columns) + current);
        } else {
            assert(current.push(help::blank()).drop_last() =~= current);
            assert(written(start) == written(current));
        }
    }
}

/// The columns hold every line of every section, in order, with nothing but blank
/// lines added.
pub proof fn law_help_leaves_nothing_out(sections: Seq<Seq<LineView>>, height: nat)
    ensures
        written(all_lines(help::columns_of(sections, height))) == written(all_lines(sections)),
{
    let (columns, current) = help::packed(sections, help::usable(height));
    lemma_packed_keeps(sections, help::usable(height));
    if current.len() > 0 {
        assert(columns.push(current).drop_last() =~= columns);
    } else {
        assert(all_lines(columns) + current =~= all_lines(columns));
    }
}

/// Whether `lines` stand together in `column`.
pub open spec fn stands_in(column: Seq<LineView>, lines: Seq<LineView>) -> bool {
    exists|at: int|
        0 <= at && at + lines.len() <= column.len() && #[trigger] column.subrange(
            at,
            at + lines.len(),
        ) == lines
}

/// Whether `lines` stand together in one of the columns.
pub open spec fn stands_whole(columns: Seq<Seq<LineView>>, lines: Seq<LineView>) -> bool {
    exists|i: int| 0 <= i < columns.len() && stands_in(#[trigger] columns[i], lines)
}

proof fn lemma_stands_longer(column: Seq<LineView>, more: Seq<LineView>, lines: Seq<LineView>)
    requires
        stands_in(column, lines),
    ensures
        stands_in(column + more, lines),
{
    let at = choose|at: int|
        0 <= at && at + lines.len() <= column.len() && #[trigger] column.subrange(
            at,
            at + lines.len(),
        ) == lines;
    assert((column + more).subrange(at, at + lines.len()) =~= lines);
}

proof fn lemma_packed_whole(sections: Seq<Seq<LineView>>, height: nat, k: int)
    requires
        height > 0,
        0 <= k < sections.len(),
        sections[k].len() <= height,
    ensures
        stands_whole(help::packed(sections, height).0, sections[k]) || stands_in(
            help::packed(sections, height).1,
            sections[k],
        ),
    decreases sections.len(),
{
    let (columns, current) = help::packed(sections.drop_last(), height);
    let lines = sections.last();
    let section = sections[k];
    let below = current.len() + 1 + lines.len() <= height;
    let full = if current.len() > 0 && !below {
        columns.push(current)
    } else {
        columns
    };
    let start = if current.len() == 0 || !below {
        Seq::empty()
    } else {
        current.push(help::blank())
    };
    let (more, rest) = help::cut(start + lines, height);
    let all = full + more;
    lemma_packed_fits(sections.drop_last(), height);
    if k == sections.len() - 1 {
        // The section is put into a column that has room for all of it.
        assert((start + lines).len() <= height);
        assert(rest == start + lines);
        let at = start.len() as int;
        assert(rest.subrange(at, at + lines.len()) =~= lines);
    } else {
        assert(sections.drop_last()[k] == section);
        lemma_packed_whole(sections.drop_last(), height, k);
        if stands_whole(columns, section) {
            let i = choose|i: int|
                0 <= i < columns.len() && stands_in(#[trigger] columns[i], section);
            assert(all[i] == columns[i]);
        } else if current.len() == 0 {
            // Only a section without lines stands in a column without lines.
            assert(section.len() == 0);
            assert(rest.subrange(0, 0) =~= section);
        } else if !below {
            assert(all[columns.len() as int] == current);
        } else {
            assert((start + lines).len() <= height);
            assert(rest == start + lines);
            assert(start + lines =~= current + (seq![help::blank()] + lines));
            lemma_stands_longer(current, seq![help::blank()] + lines, section);
        }
    }
}

/// A section that fits on the screen stands whole in one column: no group of keys
/// is torn apart.
pub proof fn law_a_section_is_not_torn_apart(sections: Seq<Seq<LineView>>, height: nat, k: int)
    requires
        0 <= k < sections.len(),
        0 < sections[k].len() <= help::usable(height),
    ensures
        stands_whole(help::columns_of(sections, height), sections[k]),
{
    let (columns, current) = help::packed(sections, help::usable(height));
    let all = help::columns_of(sections, height);
    lemma_packed_whole(sections, help::usable(height), k);
    if stands_whole(columns, sections[k]) {
        let i = choose|i: int|
            0 <= i < columns.len() && stands_in(#[trigger] columns[i], sections[k]);
        assert(all[i] == columns[i]);
    } else {
        assert(current.len() > 0);
        assert(all[columns.len() as int] == current);
    }
}

} // verus!
