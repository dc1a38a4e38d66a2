//! Searching a listing by name.
use crate::io::dir::{self, DirEntry, EntryView};
use crate::text::{self, byte_offsets, chars_of, is_uppercase, lowercase_char};
use vstd::prelude::*;

verus! {

broadcast use {vstd::seq::group_seq_axioms, vstd::seq_lib::group_seq_properties};

/// Whether `query` stands in `text` at `at`.
pub open spec fn stands_at(text: Seq<char>, query: Seq<char>, at: int) -> bool {
    0 <= at && at + query.len() <= text.len() && text.subrange(at, at + query.len()) == query
}

/// The first place from `from` on where `query` stands in `text`.
pub open spec fn next_place(text: Seq<char>, query: Seq<char>, from: int) -> Option<int>
    decreases text.len() - from,
{
    if from < 0 || from + query.len() > text.len() {
        None
    } else if stands_at(text, query, from) {
        Some(from)
    } else if from >= text.len() {
        None
    } else {
        next_place(text, query, from + 1)
    }
}

/// The places where `query` stands in `text` from `from` on, none overlapping the
/// one before it.
pub open spec fn places(text: Seq<char>, query: Seq<char>, from: int) -> Seq<int>
    decreases text.len() + 1 - from,
    when query.len() > 0
    via places_terminates
{
    match next_place(text, query, from) {
        Some(at) => seq![at] + places(text, query, at + query.len()),
        None => Seq::empty(),
    }
}

#[via_fn]
proof fn places_terminates(text: Seq<char>, query: Seq<char>, from: int) {
    lemma_next_place(text, query, from);
}

proof fn lemma_next_place(text: Seq<char>, query: Seq<char>, from: int)
    ensures
        next_place(text, query, from) matches Some(at) ==> from <= at && at + query.len()
            <= text.len() && 0 <= at && stands_at(text, query, at),
    decreases text.len() - from,
{
    if from < 0 || from + query.len() > text.len() || stands_at(text, query, from) || from
        >= text.len() {
    } else {
        lemma_next_place(text, query, from + 1);
    }
}

/// Whether a text holds a capital.
pub open spec fn has_capital(text: Seq<char>) -> bool {
    exists|i: int| 0 <= i < text.len() && text::uppercase_char(#[trigger] text[i])
}

/// `name` lowered character by character.
pub open spec fn lowered(name: Seq<char>) -> Seq<char>
    decreases name.len(),
{
    if name.len() == 0 {
        Seq::empty()
    } else {
        lowered(name.drop_last()) + text::lowercase_of(name.last())
    }
}

/// For each character of the lowered name, the character of the name it came from.
pub open spec fn origins(name: Seq<char>) -> Seq<int>
    decreases name.len(),
{
    if name.len() == 0 {
        Seq::empty()
    } else {
        origins(name.drop_last()) + Seq::new(
            text::lowercase_of(name.last()).len(),
            |i: int| name.len() - 1,
        )
    }
}

/// Every place `query` occurs in `name`, as ranges of characters: as it stands when
/// the query has a capital in it, and ignoring case otherwise. A match that covers
/// any part of what a character lowers to covers the whole character.
pub open spec fn char_ranges_of(name: Seq<char>, query: Seq<char>) -> Seq<(int, int)> {
    if query.len() == 0 {
        Seq::empty()
    } else if has_capital(query) {
        let found = places(name, query, 0);
        Seq::new(found.len(), |i: int| (found[i], found[i] + query.len()))
    } else {
        let found = places(lowered(name), query, 0);
        Seq::new(
            found.len(),
            |i: int|
                (origins(name)[found[i]], origins(name)[found[i] + query.len() - 1] + 1),
        )
    }
}

/// Every place `query` occurs in `name`, as ranges of bytes of `name`.
pub open spec fn ranges_of(name: Seq<char>, query: Seq<char>) -> Seq<(int, int)> {
    let found = char_ranges_of(name, query);
    Seq::new(
        found.len(),
        |i: int| (text::byte_offset(name, found[i].0), text::byte_offset(name, found[i].1)),
    )
}

/// Whether a text holds an ASCII capital.
pub open spec fn has_ascii_capital(text: Seq<char>) -> bool {
    exists|i: int| 0 <= i < text.len() && 'A' <= #[trigger] text[i] <= 'Z'
}

/// Every place `query` occurs in `name` where both are ASCII, as ranges of bytes.
pub open spec fn ascii_ranges(name: Seq<char>, query: Seq<char>) -> Seq<(int, int)> {
    if query.len() == 0 {
        Seq::empty()
    } else {
        let shown = if has_ascii_capital(query) {
            name
        } else {
            text::ascii_lowered(name)
        };
        let found = places(shown, query, 0);
        Seq::new(found.len(), |i: int| (found[i], found[i] + query.len()))
    }
}

/// Whether `name` contains `query`, ignoring case until the query has a capital in
/// it.
pub open spec fn matching(name: Seq<char>, query: Seq<char>) -> bool {
    ranges_of(name, query).len() > 0
}

/// The ranges as numbers.
pub open spec fn range_views(found: Seq<(usize, usize)>) -> Seq<(int, int)> {
    Seq::new(found.len(), |i: int| (found[i].0 as int, found[i].1 as int))
}

/// The places as numbers.
pub open spec fn place_views(found: Seq<usize>) -> Seq<int> {
    Seq::new(found.len(), |i: int| found[i] as int)
}

/// Every row of a `len`-row listing once, from `from` and wrapping around the end.
pub open spec fn rows_from(len: nat, from: int) -> Seq<int> {
    Seq::new(len, |offset: int| (from + offset) % len as int)
}

/// The first row in `order` whose name matches.
pub open spec fn first_match(entries: Seq<EntryView>, query: Seq<char>, order: Seq<int>) -> Option<
    int,
>
    decreases order.len(),
{
    if order.len() == 0 {
        None
    } else if matching(entries[order[0]].name, query) {
        Some(order[0])
    } else {
        first_match(entries, query, order.drop_first())
    }
}

/// Where the cursor goes when `order` is searched: to the first row that matches,
/// or nowhere when none does or nothing is searched for.
pub open spec fn row_found(
    entries: Seq<EntryView>,
    query: Seq<char>,
    order: Seq<int>,
    selected: int,
) -> int {
    if query.len() == 0 {
        selected
    } else {
        match first_match(entries, query, order) {
            Some(row) => row,
            None => selected,
        }
    }
}

/// Whether `query` stands in `text` at `at`.
fn is_at(text: &Vec<char>, query: &Vec<char>, at: usize) -> (is: bool)
    ensures
        is == stands_at(text@, query@, at as int),
{
    if at > text.len() || query.len() > text.len() - at {
        return false;
    }
    let size: usize = text.len();
    let mut i: usize = 0;
    while i < query.len()
        invariant
            size == text@.len(),
            at <= text@.len(),
            query@.len() <= text@.len() - at,
            i <= query@.len(),
            forall|k: int| 0 <= k < i ==> query@[k] == text@[at + k],
        decreases query.len() - i,
    {
        if text[at + i] != query[i] {
            proof {
                assert(text@.subrange(at as int, at + query@.len())[i as int] != query@[i as int]);
            }
            return false;
        }
        i = i + 1;
    }
    proof {
        assert(text@.subrange(at as int, at + query@.len()) =~= query@);
    }
    true
}

/// The places where `query` stands in `text`, none overlapping the one before it.
fn find_places(text: &Vec<char>, query: &Vec<char>) -> (found: Vec<usize>)
    requires
        query@.len() > 0,
    ensures
        place_views(found@) == places(text@, query@, 0),
        forall|i: int|
            0 <= i < found@.len() ==> #[trigger] found@[i] + query@.len() <= text@.len(),
{
    let mut found: Vec<usize> = Vec::new();
    let mut at: usize = 0;
    proof {
        assert(place_views(found@) =~= Seq::empty());
        assert(Seq::empty() + places(text@, query@, 0) =~= places(text@, query@, 0));
    }
    while query.len() <= text.len() && at <= text.len() - query.len()
        invariant
            query@.len() > 0,
            at <= text@.len(),
            place_views(found@) + places(text@, query@, at as int) == places(text@, query@, 0),
            forall|i: int|
                0 <= i < found@.len() ==> #[trigger] found@[i] + query@.len() <= text@.len(),
        decreases text.len() - at,
    {
        if is_at(text, query, at) {
            let ghost before = place_views(found@);
            found.push(at);
            proof {
                assert(next_place(text@, query@, at as int) == Some(at as int));
                let rest = places(text@, query@, at + query@.len());
                assert(place_views(found@) =~= before.push(at as int));
                assert(before + (seq![at as int] + rest) =~= before.push(at as int) + rest);
            }
            at = at + query.len();
        } else {
            proof {
                assert(next_place(text@, query@, at as int) == next_place(
                    text@,
                    query@,
                    at as int + 1,
                ));
                assert(places(text@, query@, at as int) == places(text@, query@, at as int + 1));
            }
            at = at + 1;
        }
    }
    proof {
        assert(places(text@, query@, at as int) =~= Seq::empty());
        assert(place_views(found@) + Seq::<int>::empty() =~= place_views(found@));
    }
    found
}

/// The lowered name has one origin for each of its characters, in order.
proof fn lemma_origins(name: Seq<char>)
    requires
        lowers_to_something(name),
    ensures
        origins(name).len() == lowered(name).len(),
        forall|i: int|
            0 <= i < origins(name).len() ==> 0 <= #[trigger] origins(name)[i] < name.len(),
        forall|i: int, j: int|
            0 <= i <= j < origins(name).len() ==> #[trigger] origins(name)[i]
                <= #[trigger] origins(name)[j],
    decreases name.len(),
{
    if name.len() > 0 {
        let start = name.drop_last();
        assert(forall|i: int| 0 <= i < start.len() ==> #[trigger] start[i] == name[i]);
        lemma_origins(start);
    }
}

/// The name lowered, and for each character of that where it came from.
fn lower_name(name: &Vec<char>) -> (both: (Vec<char>, Vec<usize>))
    ensures
        both.0@ == lowered(name@),
        place_views(both.1@) == origins(name@),
        both.1@.len() == both.0@.len(),
        forall|i: int| 0 <= i < both.1@.len() ==> #[trigger] both.1@[i] < name@.len(),
        forall|i: int| 0 <= i < name@.len() ==> text::lowercase_of(#[trigger] name@[i]).len() > 0,
        text::all_ascii(name@) ==> both.0@ == text::ascii_lowered(name@) && forall|i: int|
            0 <= i < both.1@.len() ==> #[trigger] both.1@[i] == i,
{
    let mut low: Vec<char> = Vec::new();
    let mut from: Vec<usize> = Vec::new();
    let mut i: usize = 0;
    proof {
        assert(place_views(from@) =~= origins(name@.take(0)));
    }
    while i < name.len()
        invariant
            i <= name@.len(),
            low@ == lowered(name@.take(i as int)),
            place_views(from@) == origins(name@.take(i as int)),
            from@.len() == low@.len(),
            forall|k: int| 0 <= k < from@.len() ==> #[trigger] from@[k] < name@.len(),
            forall|k: int| 0 <= k < i ==> text::lowercase_of(#[trigger] name@[k]).len() > 0,
            text::all_ascii(name@) ==> low@ == text::ascii_lowered(name@.take(i as int))
                && forall|k: int| 0 <= k < from@.len() ==> #[trigger] from@[k] == k,
        decreases name.len() - i,
    {
        let ghost given = from@;
        let mut more = lowercase_char(name[i]);
        let ghost added = more@;
        let ghost start = name@.take(i as int + 1);
        proof {
            assert(start.drop_last() =~= name@.take(i as int));
            assert(start.last() == name@[i as int]);
        }
        let count: usize = more.len();
        let ghost low_before = low@;
        let ghost from_before = place_views(from@);
        low.append(&mut more);
        let mut k: usize = 0;
        proof {
            assert(place_views(from@) =~= from_before + Seq::new(0, |n: int| i as int));
        }
        while k < count
            invariant
                k <= count,
                i < name@.len(),
                from@.len() == low_before.len() + k,
                given.len() == low_before.len(),
                forall|n: int| 0 <= n < given.len() ==> #[trigger] from@[n] == given[n],
                forall|n: int| given.len() <= n < from@.len() ==> #[trigger] from@[n] == i,
                place_views(from@) == from_before + Seq::new(k as nat, |n: int| i as int),
                forall|n: int| 0 <= n < from@.len() ==> #[trigger] from@[n] < name@.len(),
            decreases count - k,
        {
            let ghost before = place_views(from@);
            from.push(i);
            proof {
                assert(place_views(from@) =~= before.push(i as int));
                assert(place_views(from@) =~= from_before + Seq::new(
                    (k + 1) as nat,
                    |n: int| i as int,
                ));
            }
            k = k + 1;
        }
        proof {
            assert(place_views(from@) =~= origins(start));
            if text::all_ascii(name@) {
                assert((name@[i as int] as u32) < 128);
                assert(text::ascii_lowered(start) =~= text::ascii_lowered(
                    name@.take(i as int),
                ).push(text::ascii_lower(name@[i as int])));
                assert(low@ =~= text::ascii_lowered(start));
                assert(low_before.len() == i);
            }
        }
        i = i + 1;
    }
    proof {
        assert(name@.take(i as int) =~= name@);
    }
    (low, from)
}

/// Whether a text holds a capital.
fn any_capital(text: &Vec<char>) -> (any: bool)
    ensures
        any == has_capital(text@),
        text::all_ascii(text@) ==> any == has_ascii_capital(text@),
{
    let mut i: usize = 0;
    while i < text.len()
        invariant
            i <= text@.len(),
            forall|k: int| 0 <= k < i ==> !text::uppercase_char(#[trigger] text@[k]),
            text::all_ascii(text@) ==> forall|k: int|
                0 <= k < i ==> !('A' <= #[trigger] text@[k] <= 'Z'),
        decreases text.len() - i,
    {
        if is_uppercase(text[i]) {
            proof {
                assert(text::uppercase_char(text@[i as int]));
            }
            return true;
        }
        i = i + 1;
    }
    false
}

/// Every place `query` occurs in `name`, as ranges of characters of `name`.
fn find_ranges(name: &str, query: &str) -> (found: Vec<(usize, usize)>)
    ensures
        range_views(found@) == char_ranges_of(name@, query@),
        ranges_fit(char_ranges_of(name@, query@), name@.len() as int),
        text::all_ascii(name@) && text::all_ascii(query@) ==> range_views(found@) == ascii_ranges(
            name@,
            query@,
        ),
{
    let mut found: Vec<(usize, usize)> = Vec::new();
    let name = chars_of(name);
    let query = chars_of(query);
    if query.len() == 0 {
        proof {
            assert(range_views(found@) =~= char_ranges_of(name@, query@));
        }
        return found;
    }
    if any_capital(&query) {
        let starts = find_places(&name, &query);
        proof {
            lemma_places(name@, query@, 0);
            assert(place_views(starts@) == places(name@, query@, 0));
        }
        let size: usize = name.len();
        let mut i: usize = 0;
        while i < starts.len()
            invariant
                i <= starts@.len(),
                found@.len() == i,
                size == name@.len(),
                query@.len() > 0,
                forall|k: int|
                    0 <= k < starts@.len() ==> #[trigger] starts@[k] + query@.len() <= name@.len(),
                forall|k: int|
                    0 <= k < i ==> (#[trigger] found@[k]).0 == starts@[k] && found@[k].1
                        == starts@[k] + query@.len(),
            decreases starts.len() - i,
        {
            found.push((starts[i], starts[i] + query.len()));
            i = i + 1;
        }
        proof {
            assert forall|k: int| 0 <= k < starts@.len() implies #[trigger] starts@[k]
                == place_views(starts@)[k] by {}
            assert(range_views(found@) =~= char_ranges_of(name@, query@));
            lemma_ranges_fit(name@, query@);
            if text::all_ascii(name@) && text::all_ascii(query@) {
                assert(range_views(found@) =~= ascii_ranges(name@, query@));
            }
        }
        return found;
    }
    // The query has no capitals to fold, so only the name needs lowering. But one
    // character can lower to two ("\u{130}" lowers to an i and a combining dot), so
    // where a match lands in the lowered copy is not where it lands in the name.
    let (low, from) = lower_name(&name);
    let starts = find_places(&low, &query);
    proof {
        lemma_places(low@, query@, 0);
        lemma_origins(name@);
        assert forall|k: int| 0 <= k < starts@.len() implies #[trigger] starts@[k]
            == place_views(starts@)[k] by {}
        assert forall|k: int| 0 <= k < from@.len() implies #[trigger] from@[k] == origins(
            name@,
        )[k] by {
            assert(place_views(from@)[k] == from@[k]);
        }
    }
    let size: usize = name.len();
    let wide: usize = low.len();
    let mut i: usize = 0;
    while i < starts.len()
        invariant
            i <= starts@.len(),
            found@.len() == i,
            size == name@.len(),
            wide == low@.len(),
            query@.len() > 0,
            from@.len() == low@.len(),
            forall|k: int|
                0 <= k < starts@.len() ==> #[trigger] starts@[k] + query@.len() <= low@.len(),
            forall|k: int| 0 <= k < from@.len() ==> #[trigger] from@[k] < name@.len(),
            forall|k: int|
                0 <= k < i ==> (#[trigger] found@[k]).0 == from@[starts@[k] as int]
                    && found@[k].1 == from@[starts@[k] + query@.len() - 1] + 1,
        decreases starts.len() - i,
    {
        let first: usize = starts[i];
        let last: usize = first + (query.len() - 1);
        found.push((from[first], from[last] + 1));
        i = i + 1;
    }
    proof {
        assert(range_views(found@) =~= char_ranges_of(name@, query@));
        lemma_ranges_fit(name@, query@);
        if text::all_ascii(name@) && text::all_ascii(query@) {
            assert(range_views(found@) =~= ascii_ranges(name@, query@));
        }
    }
    found
}

/// Every place `query` occurs in `name`, as byte ranges into `name`.
///
/// The cursor and the highlight both read this, so a row can never be jumped to
/// without lighting up, or lit up without being findable.
pub fn match_ranges(name: &str, query: &str) -> (found: Vec<(usize, usize)>)
    ensures
        range_views(found@) == ranges_of(name@, query@),
        ranges_fit(char_ranges_of(name@, query@), name@.len() as int),
        text::all_ascii(name@) && text::all_ascii(query@) ==> range_views(found@) == ascii_ranges(
            name@,
            query@,
        ),
{
    let characters = find_ranges(name, query);
    let offsets = byte_offsets(name);
    let ghost given = char_ranges_of(name@, query@);
    let mut found: Vec<(usize, usize)> = Vec::new();
    let mut i: usize = 0;
    while i < characters.len()
        invariant
            range_views(characters@) == given,
            ranges_fit(given, name@.len() as int),
            offsets@.len() == name@.len() + 1,
            forall|k: int|
                0 <= k <= name@.len() ==> #[trigger] offsets@[k] == text::byte_offset(name@, k),
            i <= characters@.len(),
            found@.len() == i,
            forall|k: int|
                0 <= k < i ==> (#[trigger] found@[k]).0 == text::byte_offset(name@, given[k].0)
                    && found@[k].1 == text::byte_offset(name@, given[k].1),
        decreases characters.len() - i,
    {
        proof {
            assert(given[i as int] == range_views(characters@)[i as int]);
        }
        found.push((offsets[characters[i].0], offsets[characters[i].1]));
        i = i + 1;
    }
    proof {
        assert(range_views(found@) =~= ranges_of(name@, query@));
        if text::all_ascii(name@) && text::all_ascii(query@) {
            assert forall|k: int| 0 <= k < given.len() implies #[trigger] range_views(found@)[k]
                == given[k] by {
                text::lemma_byte_offset_ascii(name@, given[k].0);
                text::lemma_byte_offset_ascii(name@, given[k].1);
            }
            assert(range_views(found@) =~= given);
        }
    }
    found
}

/// Which character starts at `byte`, or how many there are where `byte` is the end.
fn character_at(offsets: &Vec<usize>, byte: usize) -> (at: usize)
    requires
        exists|k: int| 0 <= k < offsets@.len() && #[trigger] offsets@[k] == byte,
    ensures
        at < offsets@.len(),
        offsets@[at as int] == byte,
{
    let size: usize = offsets.len();
    let mut at: usize = 0;
    while offsets[at] != byte
        invariant
            size == offsets@.len(),
            at < offsets@.len(),
            exists|k: int| at <= k < offsets@.len() && #[trigger] offsets@[k] == byte,
        decreases offsets@.len() - at,
    {
        at = at + 1;
    }
    at
}

/// The byte ranges of [`match_ranges`] as ranges of characters.
pub(crate) fn in_characters(name: &str, query: &str, found: &Vec<(usize, usize)>) -> (ranges: Vec<
    (usize, usize),
>)
    requires
        range_views(found@) == ranges_of(name@, query@),
        ranges_fit(char_ranges_of(name@, query@), name@.len() as int),
    ensures
        range_views(ranges@) == char_ranges_of(name@, query@),
{
    let offsets = byte_offsets(name);
    let ghost given = char_ranges_of(name@, query@);
    let mut ranges: Vec<(usize, usize)> = Vec::new();
    let mut i: usize = 0;
    proof {
        assert(range_views(found@).len() == found@.len());
    }
    while i < found.len()
        invariant
            range_views(found@) == ranges_of(name@, query@),
            given == char_ranges_of(name@, query@),
            ranges_fit(given, name@.len() as int),
            offsets@.len() == name@.len() + 1,
            forall|k: int|
                0 <= k <= name@.len() ==> #[trigger] offsets@[k] == text::byte_offset(name@, k),
            found@.len() == given.len(),
            i <= found@.len(),
            ranges@.len() == i,
            forall|k: int|
                0 <= k < i ==> (#[trigger] ranges@[k]).0 == given[k].0 && ranges@[k].1
                    == given[k].1,
        decreases found.len() - i,
    {
        let ghost (first, last) = given[i as int];
        proof {
            assert(range_views(found@)[i as int] == ranges_of(name@, query@)[i as int]);
            assert(offsets@[first] == found@[i as int].0);
            assert(offsets@[last] == found@[i as int].1);
        }
        let start: usize = character_at(&offsets, found[i].0);
        let end: usize = character_at(&offsets, found[i].1);
        proof {
            lemma_same_offset(name@, start as int, first);
            lemma_same_offset(name@, end as int, last);
        }
        ranges.push((start, end));
        i = i + 1;
    }
    proof {
        assert(range_views(ranges@) =~= given);
    }
    ranges
}

/// No two characters start at the same byte.
proof fn lemma_same_offset(name: Seq<char>, a: int, b: int)
    requires
        0 <= a <= name.len(),
        0 <= b <= name.len(),
        text::byte_offset(name, a) == text::byte_offset(name, b),
    ensures
        a == b,
{
    if a < b {
        text::lemma_byte_offset_grows(name, a, b);
    } else if b < a {
        text::lemma_byte_offset_grows(name, b, a);
    }
}

/// The places where a query stands follow one another.
proof fn lemma_places(text: Seq<char>, query: Seq<char>, from: int)
    requires
        query.len() > 0,
        0 <= from,
    ensures
        forall|i: int|
            0 <= i < places(text, query, from).len() ==> from <= #[trigger] places(
                text,
                query,
                from,
            )[i] && places(text, query, from)[i] + query.len() <= text.len(),
        forall|i: int, j: int|
            0 <= i < j < places(text, query, from).len() ==> #[trigger] places(
                text,
                query,
                from,
            )[i] + query.len() <= #[trigger] places(text, query, from)[j],
    decreases text.len() + 1 - from,
{
    lemma_next_place(text, query, from);
    match next_place(text, query, from) {
        Some(at) => {
            let all = places(text, query, from);
            let rest = places(text, query, at + query.len());
            lemma_places(text, query, at + query.len());
            assert forall|i: int| 0 < i < all.len() implies #[trigger] all[i] == rest[i - 1] by {}
        },
        None => {},
    }
}

/// Whether `name` contains `query`, ignoring case until the query has a capital
/// in it: vim's smartcase, and the same reflex applied to a listing.
pub fn matches(name: &str, query: &str) -> (does: bool)
    ensures
        does == matching(name@, query@),
{
    let found = match_ranges(name, query);
    proof {
        assert(range_views(found@).len() == found@.len());
    }
    found.len() > 0
}

/// Every row of a `len`-row listing once, from `from` and wrapping around the
/// end: the order a search walks it in, and reversed, the order `N` walks it.
pub fn indices_from(len: usize, from: usize) -> (rows: Vec<usize>)
    ensures
        place_views(rows@) == rows_from(len as nat, from as int),
        forall|i: int| 0 <= i < rows@.len() ==> #[trigger] rows@[i] < len,
{
    let mut rows: Vec<usize> = Vec::new();
    if len == 0 {
        proof {
            assert(place_views(rows@) =~= rows_from(0, from as int));
        }
        return rows;
    }
    let start: usize = from % len;
    let mut offset: usize = 0;
    while offset < len
        invariant
            0 < len,
            start == from % len,
            start < len,
            offset <= len,
            rows@.len() == offset,
            forall|i: int|
                0 <= i < offset ==> #[trigger] rows@[i] == (from + i) % len as int && rows@[i]
                    < len,
        decreases len - offset,
    {
        let row: usize = if offset < len - start {
            start + offset
        } else {
            offset - (len - start)
        };
        proof {
            lemma_wraps(len as int, from as int, offset as int);
        }
        rows.push(row);
        offset = offset + 1;
    }
    proof {
        assert(place_views(rows@) =~= rows_from(len as nat, from as int));
    }
    rows
}

/// The row `offset` after `from`, counted round the end.
proof fn lemma_wraps(len: int, from: int, offset: int)
    requires
        0 < len,
        0 <= from,
        0 <= offset < len,
    ensures
        (from + offset) % len == if offset < len - from % len {
            from % len + offset
        } else {
            offset - (len - from % len)
        },
{
    let start = from % len;
    vstd::arithmetic::div_mod::lemma_add_mod_noop_right(offset, from, len);
    assert((offset + start) % len == (offset + from) % len);
    if offset < len - start {
        vstd::arithmetic::div_mod::lemma_small_mod((offset + start) as nat, len as nat);
    } else {
        vstd::arithmetic::div_mod::lemma_mod_sub_multiples_vanish(offset + start, len);
        vstd::arithmetic::div_mod::lemma_small_mod((offset + start - len) as nat, len as nat);
    }
}

/// The search walks every row of the listing, and none of them twice.
pub proof fn law_every_row_is_searched_once(len: nat, from: int, row: int)
    requires
        0 <= from,
        0 <= row < len,
    ensures
        rows_from(len, from).contains(row),
        rows_from(len, from).no_duplicates(),
        rows_from(len, from).len() == len,
{
    let rows = rows_from(len, from);
    let start = from % len as int;
    let offset = if row >= start {
        row - start
    } else {
        row + len - start
    };
    lemma_wraps(len as int, from, offset);
    assert(rows[offset] == row);
    assert forall|i: int, j: int| 0 <= i < rows.len() && 0 <= j < rows.len() && i != j implies rows[i]
        != rows[j] by {
        lemma_wraps(len as int, from, i);
        lemma_wraps(len as int, from, j);
    }
}

/// The first row in `order` whose name matches.
pub fn find_match(entries: &Vec<DirEntry>, query: &str, order: &Vec<usize>) -> (row: Option<usize>)
    requires
        forall|i: int| 0 <= i < order@.len() ==> #[trigger] order@[i] < entries@.len(),
    ensures
        match row {
            Some(row) => row < entries@.len() && first_match(
                dir::entry_views(entries@),
                query@,
                place_views(order@),
            ) == Some(row as int),
            None => first_match(dir::entry_views(entries@), query@, place_views(order@)) is None,
        },
{
    let ghost listed = dir::entry_views(entries@);
    let ghost rows = place_views(order@);
    let mut i: usize = 0;
    proof {
        assert(rows.skip(0) =~= rows);
    }
    while i < order.len()
        invariant
            i <= order@.len(),
            listed == dir::entry_views(entries@),
            rows == place_views(order@),
            forall|k: int| 0 <= k < order@.len() ==> #[trigger] order@[k] < entries@.len(),
            first_match(listed, query@, rows) == first_match(listed, query@, rows.skip(i as int)),
        decreases order.len() - i,
    {
        let row: usize = order[i];
        proof {
            assert(rows.skip(i as int)[0] == row);
            assert(rows.skip(i as int).drop_first() =~= rows.skip(i as int + 1));
            assert(listed[row as int].name == entries@[row as int].name@);
        }
        if matches(entries[row].name.as_str(), query) {
            return Some(row);
        }
        i = i + 1;
    }
    None
}

/// Every character of `name` lowers to at least one character, as every character
/// does.
pub open spec fn lowers_to_something(name: Seq<char>) -> bool {
    forall|i: int| 0 <= i < name.len() ==> text::lowercase_of(#[trigger] name[i]).len() > 0
}

/// Ranges that lie in a name and end one after the other.
pub open spec fn ranges_fit(ranges: Seq<(int, int)>, length: int) -> bool {
    &&& forall|i: int|
        0 <= i < ranges.len() ==> 0 <= (#[trigger] ranges[i]).0 < ranges[i].1 <= length
    &&& forall|i: int, j: int|
        0 <= i < j < ranges.len() ==> (#[trigger] ranges[i]).1 <= (#[trigger] ranges[j]).1
}

/// Every match lies in the name and covers at least one character of it, and no
/// match ends before the one ahead of it.
pub proof fn lemma_ranges_fit(name: Seq<char>, query: Seq<char>)
    requires
        has_capital(query) || lowers_to_something(name),
    ensures
        ranges_fit(char_ranges_of(name, query), name.len() as int),
{
    if query.len() > 0 {
        let found = char_ranges_of(name, query);
        if has_capital(query) {
            lemma_places(name, query, 0);
            let starts = places(name, query, 0);
            assert forall|i: int| 0 <= i < found.len() implies 0 <= (#[trigger] found[i]).0
                < found[i].1 <= name.len() by {
                assert(starts[i] >= 0);
            }
            assert forall|i: int, j: int| 0 <= i < j < found.len() implies (#[trigger] found[i]).1
                <= (#[trigger] found[j]).1 by {
                assert(starts[i] + query.len() <= starts[j]);
            }
        } else {
            lemma_places(lowered(name), query, 0);
            lemma_origins(name);
            let starts = places(lowered(name), query, 0);
            let n = query.len() as int;
            assert forall|i: int| 0 <= i < found.len() implies 0 <= (#[trigger] found[i]).0
                < found[i].1 <= name.len() by {
                let at = starts[i];
                assert(origins(name)[at] <= origins(name)[at + n - 1]);
            }
            assert forall|i: int, j: int| 0 <= i < j < found.len() implies (#[trigger] found[i]).1
                <= (#[trigger] found[j]).1 by {
                assert(starts[i] + n <= starts[j]);
                assert(origins(name)[starts[i] + n - 1] <= origins(name)[starts[j] + n - 1]);
            }
        }
    }
}

} // verus!
