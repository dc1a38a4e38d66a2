//! Where a search takes the cursor.
use crate::io::dir::EntryView;
use crate::navigator::laws;
use crate::navigator::model::{self, ActionView, ModeView, NavView, NextView, PromptView};
use crate::navigator::search;
use crate::navigator::staging_laws;
use crate::navigator::{KeyCode, KeyEvent, Outcome};
use crate::text;
use vstd::prelude::*;

verus! {

broadcast use vstd::seq::group_seq_axioms;

/// Whether the entry at `row` matches what is searched for.
pub open spec fn hit(entries: Seq<EntryView>, query: Seq<char>, row: int) -> bool {
    0 <= row < entries.len() && search::matching(entries[row].name, query)
}

/// Whether `row` is the first hit after `from`, or the first of all where there is none
/// after it. Where there is no hit at all it is `from`.
pub open spec fn next_hit(entries: Seq<EntryView>, query: Seq<char>, from: int, row: int) -> bool {
    if exists|k: int| k > from && #[trigger] hit(entries, query, k) {
        row > from && hit(entries, query, row) && forall|k: int|
            from < k < row ==> !#[trigger] hit(entries, query, k)
    } else if exists|k: int| #[trigger] hit(entries, query, k) {
        hit(entries, query, row) && forall|k: int| k < row ==> !#[trigger] hit(entries, query, k)
    } else {
        row == from
    }
}

/// Whether `row` is the last hit before `from`, or the last of all where there is none
/// before it. Where there is no hit at all it is `from`.
pub open spec fn last_hit(entries: Seq<EntryView>, query: Seq<char>, from: int, row: int) -> bool {
    if exists|k: int| k < from && #[trigger] hit(entries, query, k) {
        row < from && hit(entries, query, row) && forall|k: int|
            row < k < from ==> !#[trigger] hit(entries, query, k)
    } else if exists|k: int| #[trigger] hit(entries, query, k) {
        hit(entries, query, row) && forall|k: int| k > row ==> !#[trigger] hit(entries, query, k)
    } else {
        row == from
    }
}

proof fn lemma_row(len: int, from: int, k: int)
    requires
        0 <= from <= len,
        0 <= k < len,
    ensures
        (from + k) % len == if from + k < len {
            from + k
        } else {
            from + k - len
        },
{
    if from + k < len {
        vstd::arithmetic::div_mod::lemma_small_mod((from + k) as nat, len as nat);
    } else {
        vstd::arithmetic::div_mod::lemma_mod_sub_multiples_vanish(from + k, len);
        vstd::arithmetic::div_mod::lemma_small_mod((from + k - len) as nat, len as nat);
    }
}

/// Walking on from `from` ends on the first hit from there on, around the end.
proof fn lemma_walk_on(entries: Seq<EntryView>, query: Seq<char>, from: int, selected: int)
    requires
        0 <= from <= entries.len(),
        query.len() > 0,
    ensures
        ({
            let row = search::row_found(
                entries,
                query,
                search::rows_from(entries.len(), from),
                selected,
            );
            if exists|k: int| k >= from && #[trigger] hit(entries, query, k) {
                row >= from && hit(entries, query, row) && forall|k: int|
                    from <= k < row ==> !#[trigger] hit(entries, query, k)
            } else if exists|k: int| #[trigger] hit(entries, query, k) {
                hit(entries, query, row) && forall|k: int|
                    k < row ==> !#[trigger] hit(entries, query, k)
            } else {
                row == selected
            }
        }),
{
    let len = entries.len() as int;
    let order = search::rows_from(entries.len(), from);
    laws::law_a_search_stops_at_the_first_match(entries, query, order);
    assert forall|k: int| 0 <= k < len implies order[k] == if from + k < len {
        from + k
    } else {
        from + k - len
    } by {
        lemma_row(len, from, k);
    }
    match search::first_match(entries, query, order) {
        Some(row) => {
            let at = choose|at: int|
                {
                    &&& 0 <= at < order.len()
                    &&& #[trigger] order[at] == row
                    &&& search::matching(entries[row].name, query)
                    &&& forall|j: int|
                        0 <= j < at ==> !search::matching(
                            entries[#[trigger] order[j]].name,
                            query,
                        )
                };
            assert(hit(entries, query, row));
            assert forall|k: int| from <= k && (row < from || k < row) implies !#[trigger] hit(
                entries,
                query,
                k,
            ) by {
                if k < len {
                    assert(order[k - from] == k);
                }
            }
            assert forall|k: int| row < from && k < row implies !#[trigger] hit(
                entries,
                query,
                k,
            ) by {
                if 0 <= k {
                    assert(order[k + len - from] == k);
                }
            }
        },
        None => {
            assert forall|k: int| !#[trigger] hit(entries, query, k) by {
                if 0 <= k < len {
                    let at = if k >= from {
                        k - from
                    } else {
                        k + len - from
                    };
                    assert(order[at] == k);
                }
            }
        },
    }
}

/// Walking back from `from` ends on the last hit before it, around the start.
proof fn lemma_walk_back(entries: Seq<EntryView>, query: Seq<char>, from: int)
    requires
        0 <= from < entries.len(),
        query.len() > 0,
    ensures
        last_hit(
            entries,
            query,
            from,
            search::row_found(
                entries,
                query,
                search::rows_from(entries.len(), from).reverse(),
                from,
            ),
        ),
{
    let len = entries.len() as int;
    let rows = search::rows_from(entries.len(), from);
    let order = rows.reverse();
    laws::law_a_search_stops_at_the_first_match(entries, query, order);
    assert forall|k: int| 0 <= k < len implies order[k] == if k < from {
        from - 1 - k
    } else {
        len + from - 1 - k
    } by {
        assert(order[k] == rows[len - 1 - k]);
        lemma_row(len, from, len - 1 - k);
    }
    match search::first_match(entries, query, order) {
        Some(row) => {
            let at = choose|at: int|
                {
                    &&& 0 <= at < order.len()
                    &&& #[trigger] order[at] == row
                    &&& search::matching(entries[row].name, query)
                    &&& forall|j: int|
                        0 <= j < at ==> !search::matching(
                            entries[#[trigger] order[j]].name,
                            query,
                        )
                };
            assert(hit(entries, query, row));
            assert forall|k: int| k < from && (row >= from || row < k) implies !#[trigger] hit(
                entries,
                query,
                k,
            ) by {
                if 0 <= k {
                    assert(order[from - 1 - k] == k);
                }
            }
            assert forall|k: int| row >= from && row < k implies !#[trigger] hit(
                entries,
                query,
                k,
            ) by {
                if k < len {
                    assert(order[len + from - 1 - k] == k);
                }
            }
        },
        None => {
            assert forall|k: int| !#[trigger] hit(entries, query, k) by {
                if 0 <= k < len {
                    let at = if k < from {
                        from - 1 - k
                    } else {
                        len + from - 1 - k
                    };
                    assert(order[at] == k);
                }
            }
        },
    }
}

/// `n` takes the cursor to the next match below it, and from the last one to the first.
/// Nothing else changes.
pub proof fn law_n_goes_to_the_next_match(s: NavView, key: KeyEvent, log_len: Option<int>)
    requires
        staging_laws::letter(s, key, 'n'),
        0 <= s.selected < s.entries.len(),
        s.search.len() > 0,
    ensures
        ({
            let after = model::pressed(s, key, log_len).0;
            &&& after == (NavView { selected: after.selected, ..s })
            &&& next_hit(s.entries, s.search, s.selected, after.selected)
        }),
{
    lemma_walk_on(s.entries, s.search, s.selected + 1, s.selected);
}

/// `N` takes the cursor to the nearest match above it, and from the first one to the last.
/// Nothing else changes.
pub proof fn law_capital_n_goes_to_the_match_before(
    s: NavView,
    key: KeyEvent,
    log_len: Option<int>,
)
    requires
        staging_laws::letter(s, key, 'N'),
        0 <= s.selected < s.entries.len(),
        s.search.len() > 0,
    ensures
        ({
            let after = model::pressed(s, key, log_len).0;
            &&& after == (NavView { selected: after.selected, ..s })
            &&& last_hit(s.entries, s.search, s.selected, after.selected)
        }),
{
    lemma_walk_back(s.entries, s.search, s.selected);
}

/// From a match, `N` takes back what `n` did, and `n` what `N` did.
pub proof fn law_n_and_capital_n_undo_each_other(
    s: NavView,
    on: KeyEvent,
    back: KeyEvent,
    log_len: Option<int>,
)
    requires
        staging_laws::letter(s, on, 'n'),
        staging_laws::letter(s, back, 'N'),
        0 <= s.selected < s.entries.len(),
        s.search.len() > 0,
        hit(s.entries, s.search, s.selected),
    ensures
        model::pressed(model::pressed(s, on, log_len).0, back, log_len).0 == s,
        model::pressed(model::pressed(s, back, log_len).0, on, log_len).0 == s,
{
    law_n_goes_to_the_next_match(s, on, log_len);
    law_capital_n_goes_to_the_match_before(s, back, log_len);
    let ahead = model::pressed(s, on, log_len).0;
    let behind = model::pressed(s, back, log_len).0;
    assert(hit(s.entries, s.search, ahead.selected));
    assert(hit(s.entries, s.search, behind.selected));
    law_capital_n_goes_to_the_match_before(ahead, back, log_len);
    law_n_goes_to_the_next_match(behind, on, log_len);
    let again = model::pressed(ahead, back, log_len).0.selected;
    let once_more = model::pressed(behind, on, log_len).0.selected;
    assert(hit(s.entries, s.search, again));
    assert(hit(s.entries, s.search, once_more));
    assert(again == s.selected);
    assert(once_more == s.selected);
}

/// Without a search, `n` and `N` do nothing.
pub proof fn law_without_a_search_there_is_no_next(
    s: NavView,
    key: KeyEvent,
    log_len: Option<int>,
)
    requires
        staging_laws::letter(s, key, 'n') || staging_laws::letter(s, key, 'N'),
        s.search.len() == 0,
    ensures
        model::pressed(s, key, log_len).0 == s,
{
}

/// What a search shows once `input` is typed, having begun on `origin`: the cursor is on
/// the first match from there on, around the end, or where it began.
pub open spec fn sought(entries: Seq<EntryView>, input: Seq<char>, origin: int, row: int) -> bool {
    if input.len() == 0 {
        row == origin
    } else if exists|k: int| k >= origin && #[trigger] hit(entries, input, k) {
        row >= origin && hit(entries, input, row) && forall|k: int|
            origin <= k < row ==> !#[trigger] hit(entries, input, k)
    } else if exists|k: int| #[trigger] hit(entries, input, k) {
        hit(entries, input, row) && forall|k: int| k < row ==> !#[trigger] hit(entries, input, k)
    } else {
        row == origin
    }
}

/// A slash opens a search from where the cursor is, with nothing typed yet.
pub proof fn law_a_slash_begins_a_search(s: NavView, key: KeyEvent, log_len: Option<int>)
    requires
        staging_laws::letter(s, key, '/'),
    ensures
        ({
            let after = model::pressed(s, key, log_len).0;
            &&& after == (NavView { mode: after.mode, ..s })
            &&& after.mode matches ModeView::Prompt(prompt) && prompt.input.len() == 0
                && prompt.action == (ActionView::Search { origin: s.selected })
        }),
{
}

/// Each key typed at a search is added to it, and the cursor goes to the first match of
/// all that is typed so far, from where the search began.
pub proof fn law_a_search_follows_what_is_typed(
    s: NavView,
    prompt: PromptView,
    origin: int,
    key: KeyEvent,
    log_len: Option<int>,
    c: char,
)
    requires
        s.mode == ModeView::Prompt(prompt),
        prompt.action == (ActionView::Search { origin }),
        0 <= origin <= s.entries.len(),
        key.code == KeyCode::Backspace || (key.code == KeyCode::Char(c) && !key.modifiers.control
            && !key.modifiers.alt && !key.modifiers.super_key && !key.modifiers.hyper
            && !key.modifiers.meta),
    ensures
        ({
            let after = model::pressed(s, key, log_len).0;
            let input = if key.code == KeyCode::Char(c) {
                prompt.input.push(c)
            } else if prompt.input.len() > 0 {
                prompt.input.drop_last()
            } else {
                prompt.input
            };
            &&& after.search == input
            &&& after.mode matches ModeView::Prompt(now) && now.input == input && now.action
                == prompt.action
            &&& sought(s.entries, input, origin, after.selected)
        }),
{
    let input = if key.code == KeyCode::Char(c) {
        prompt.input.push(c)
    } else if prompt.input.len() > 0 {
        prompt.input.drop_last()
    } else {
        prompt.input
    };
    if input.len() > 0 {
        lemma_walk_on(s.entries, input, origin, origin);
    }
}

/// Confirming a search keeps it, and the cursor where it took it.
pub proof fn law_a_confirmed_search_stays(
    s: NavView,
    prompt: PromptView,
    origin: int,
    key: KeyEvent,
    log_len: Option<int>,
)
    requires
        s.mode == ModeView::Prompt(prompt),
        prompt.action == (ActionView::Search { origin }),
        key.code == KeyCode::Enter,
    ensures
        model::pressed(s, key, log_len).0 == (NavView { mode: ModeView::Normal, ..s }),
        model::pressed(s, key, log_len).1.next == NextView::Done(Outcome::Stay),
{
}

/// Whether `query` stands somewhere in `text`, as it is.
pub open spec fn occurs(text: Seq<char>, query: Seq<char>) -> bool {
    exists|at: int|
        0 <= at && at + query.len() <= text.len() && #[trigger] text.subrange(
            at,
            at + query.len(),
        ) == query
}

/// Whether any character of a text is an uppercase letter.
pub open spec fn holds_a_capital(text: Seq<char>) -> bool {
    exists|i: int| 0 <= i < text.len() && text::uppercase_char(#[trigger] text[i])
}

/// A text with every character in its place put in lowercase.
pub open spec fn all_lowered(text: Seq<char>) -> Seq<char> {
    text.map_values(|c: char| text::lowercase_of(c)).flatten()
}

proof fn lemma_all_lowered(name: Seq<char>)
    ensures
        search::lowered(name) == all_lowered(name),
    decreases name.len(),
{
    let f = |c: char| text::lowercase_of(c);
    let mapped = name.map_values(f);
    mapped.lemma_flatten_and_flatten_alt_are_equivalent();
    if name.len() > 0 {
        let front = name.drop_last();
        lemma_all_lowered(front);
        front.map_values(f).lemma_flatten_and_flatten_alt_are_equivalent();
        assert(mapped.drop_last() =~= front.map_values(f));
        assert(mapped.last() == text::lowercase_of(name.last()));
    }
}

/// There is a first place from `from` on exactly where the query stands somewhere there.
proof fn lemma_next_place_found(text: Seq<char>, query: Seq<char>, from: int)
    requires
        0 <= from,
    ensures
        match search::next_place(text, query, from) {
            Some(at) => from <= at && search::stands_at(text, query, at) && forall|k: int|
                from <= k < at ==> !#[trigger] search::stands_at(text, query, k),
            None => forall|k: int| from <= k ==> !#[trigger] search::stands_at(text, query, k),
        },
    decreases text.len() - from,
{
    if from + query.len() <= text.len() && !search::stands_at(text, query, from) && from
        < text.len() {
        lemma_next_place_found(text, query, from + 1);
    }
}

/// Whether `all` are places from `from` on where the query stands, one after the other,
/// such that each place where it stands overlaps one of them, or is one.
spec fn covers(text: Seq<char>, query: Seq<char>, from: int, all: Seq<int>) -> bool {
    &&& forall|i: int|
        0 <= i < all.len() ==> search::stands_at(text, query, #[trigger] all[i]) && all[i] >= from
    &&& forall|i: int, j: int|
        0 <= i < j < all.len() ==> #[trigger] all[i] + query.len() <= #[trigger] all[j]
    &&& forall|k: int|
        from <= k && #[trigger] search::stands_at(text, query, k) ==> covered(query, all, k)
}

/// Whether `k` lies in one of the places.
#[verifier::opaque]
spec fn covered(query: Seq<char>, all: Seq<int>, k: int) -> bool {
    exists|i: int| 0 <= i < all.len() && #[trigger] all[i] <= k < all[i] + query.len()
}

proof fn lemma_covers_more(
    text: Seq<char>,
    query: Seq<char>,
    from: int,
    at: int,
    rest: Seq<int>,
)
    requires
        from <= at,
        search::stands_at(text, query, at),
        forall|k: int| from <= k < at ==> !#[trigger] search::stands_at(text, query, k),
        covers(text, query, at + query.len(), rest),
    ensures
        covers(text, query, from, seq![at] + rest),
{
    let all = seq![at] + rest;
    assert(all[0] == at);
    assert forall|i: int| 0 < i < all.len() implies #[trigger] all[i] == rest[i - 1] by {}
    assert forall|i: int| 0 <= i < all.len() implies search::stands_at(
        text,
        query,
        #[trigger] all[i],
    ) && all[i] >= from by {
        if i > 0 {
            assert(search::stands_at(text, query, rest[i - 1]));
        }
    }
    assert forall|i: int, j: int| 0 <= i < j < all.len() implies #[trigger] all[i] + query.len()
        <= #[trigger] all[j] by {
        assert(rest[j - 1] >= at + query.len());
        if i > 0 {
            assert(rest[i - 1] + query.len() <= rest[j - 1]);
        }
    }
    assert forall|k: int| from <= k && #[trigger] search::stands_at(text, query, k) implies covered(
        query,
        all,
        k,
    ) by {
        reveal(covered);
        if k < at + query.len() {
            assert(all[0] <= k < all[0] + query.len());
        } else {
            assert(covered(query, rest, k));
            let i = choose|i: int|
                0 <= i < rest.len() && #[trigger] rest[i] <= k < rest[i] + query.len();
            assert(all[i + 1] == rest[i]);
        }
    }
}

proof fn lemma_places_found(text: Seq<char>, query: Seq<char>, from: int)
    requires
        query.len() > 0,
        0 <= from,
    ensures
        covers(text, query, from, search::places(text, query, from)),
    decreases text.len() + 1 - from,
{
    lemma_next_place_found(text, query, from);
    match search::next_place(text, query, from) {
        Some(at) => {
            let next = at + query.len();
            lemma_places_found(text, query, next);
            lemma_covers_more(text, query, from, at, search::places(text, query, next));
        },
        None => {},
    }
}

proof fn lemma_occurs(text: Seq<char>, query: Seq<char>)
    requires
        query.len() > 0,
    ensures
        occurs(text, query) <==> search::places(text, query, 0).len() > 0,
{
    lemma_places_found(text, query, 0);
    let all = search::places(text, query, 0);
    if occurs(text, query) {
        let at = choose|at: int|
            0 <= at && at + query.len() <= text.len() && #[trigger] text.subrange(
                at,
                at + query.len(),
            ) == query;
        assert(search::stands_at(text, query, at));
        assert(covered(query, all, at)) by {
            assert(search::stands_at(text, query, at));
        }
        reveal(covered);
    }
    if all.len() > 0 {
        let at = all[0];
        assert(search::stands_at(text, query, at));
        assert(text.subrange(at, at + query.len()) == query);
    }
}

/// A name matches exactly when the query stands in it: as it is written where the query
/// has a capital, and in the lowered name where it has none. Nothing matches nothing.
pub proof fn law_what_matches(name: Seq<char>, query: Seq<char>)
    ensures
        search::matching(name, query) <==> query.len() > 0 && if holds_a_capital(query) {
            occurs(name, query)
        } else {
            occurs(all_lowered(name), query)
        },
{
    lemma_all_lowered(name);
    if query.len() > 0 {
        lemma_occurs(name, query);
        lemma_occurs(search::lowered(name), query);
        assert(holds_a_capital(query) == search::has_capital(query));
    }
}

/// Whether `query` stands in `name` at `at`: as it is written where it has a capital, and
/// each character lowered where it has none.
pub open spec fn found_at(name: Seq<char>, query: Seq<char>, at: int) -> bool {
    &&& 0 <= at
    &&& at + query.len() <= name.len()
    &&& forall|k: int|
        0 <= k < query.len() ==> if holds_a_capital(query) {
            #[trigger] name[at + k] == query[k]
        } else {
            text::lowercase_of(name[at + k]) == seq![query[k]]
        }
}

/// Whether every character of a name lowers to a single one.
pub open spec fn lowers_one_to_one(name: Seq<char>) -> bool {
    forall|i: int| 0 <= i < name.len() ==> text::lowercase_of(#[trigger] name[i]).len() == 1
}

proof fn lemma_one_to_one(name: Seq<char>)
    requires
        lowers_one_to_one(name),
    ensures
        search::lowered(name).len() == name.len(),
        search::origins(name).len() == name.len(),
        forall|i: int|
            0 <= i < name.len() ==> text::lowercase_of(#[trigger] name[i]) == seq![
                search::lowered(name)[i],
            ],
        forall|i: int| 0 <= i < name.len() ==> #[trigger] search::origins(name)[i] == i,
    decreases name.len(),
{
    if name.len() > 0 {
        let front = name.drop_last();
        assert forall|i: int| 0 <= i < front.len() implies text::lowercase_of(
            #[trigger] front[i],
        ).len() == 1 by {
            assert(front[i] == name[i]);
        }
        lemma_one_to_one(front);
        let low = search::lowered(name);
        assert forall|i: int| 0 <= i < name.len() implies text::lowercase_of(#[trigger] name[i])
            == seq![low[i]] by {
            if i < front.len() {
                assert(front[i] == name[i]);
                assert(low[i] == search::lowered(front)[i]);
            } else {
                assert(low[i] == text::lowercase_of(name[i])[0]);
                assert(text::lowercase_of(name[i]) =~= seq![low[i]]);
            }
        }
        assert forall|i: int| 0 <= i < name.len() implies #[trigger] search::origins(name)[i]
            == i by {
            if i < front.len() {
                assert(search::origins(name)[i] == search::origins(front)[i]);
            }
        }
    }
}

proof fn lemma_found_at(name: Seq<char>, query: Seq<char>, at: int)
    requires
        holds_a_capital(query) || lowers_one_to_one(name),
        query.len() > 0,
    ensures
        found_at(name, query, at) <==> search::stands_at(
            if search::has_capital(query) {
                name
            } else {
                search::lowered(name)
            },
            query,
            at,
        ),
{
    assert(holds_a_capital(query) == search::has_capital(query));
    let text = if search::has_capital(query) {
        name
    } else {
        lemma_one_to_one(name);
        search::lowered(name)
    };
    if found_at(name, query, at) {
        assert forall|k: int| 0 <= k < query.len() implies text[at + k] == query[k] by {
            assert(name[at + k] == name[at + k]);
            if !search::has_capital(query) {
                assert(text::lowercase_of(name[at + k]) == seq![query[k]]);
                assert(text::lowercase_of(name[at + k]) == seq![text[at + k]]);
                assert(text::lowercase_of(name[at + k])[0] == query[k]);
            }
        }
        assert(text.subrange(at, at + query.len()) =~= query);
    }
    if search::stands_at(text, query, at) {
        assert forall|k: int| 0 <= k < query.len() implies if holds_a_capital(query) {
            #[trigger] name[at + k] == query[k]
        } else {
            text::lowercase_of(name[at + k]) == seq![query[k]]
        } by {
            assert(text.subrange(at, at + query.len())[k] == query[k]);
        }
    }
}

/// What is lit of a name: each range covers one place where the query is found, the ranges
/// do not overlap and come in order, and no place is left out but for one that overlaps a
/// range.
pub proof fn law_what_is_found_of_a_name(name: Seq<char>, query: Seq<char>)
    requires
        query.len() > 0,
        holds_a_capital(query) || lowers_one_to_one(name),
    ensures
        ({
            let found = search::char_ranges_of(name, query);
            &&& forall|i: int|
                0 <= i < found.len() ==> (#[trigger] found[i]).1 == found[i].0 + query.len()
                    && found_at(name, query, found[i].0)
            &&& forall|i: int, j: int|
                0 <= i < j < found.len() ==> (#[trigger] found[i]).1 <= (#[trigger] found[j]).0
            &&& forall|at: int| #[trigger]
                found_at(name, query, at) ==> exists|i: int|
                    0 <= i < found.len() && (#[trigger] found[i]).0 <= at < found[i].1
        }),
{
    assert(holds_a_capital(query) == search::has_capital(query));
    let text = if search::has_capital(query) {
        name
    } else {
        lemma_one_to_one(name);
        search::lowered(name)
    };
    let found = search::char_ranges_of(name, query);
    let places = search::places(text, query, 0);
    lemma_places_found(text, query, 0);
    assert forall|i: int| 0 <= i < found.len() implies (#[trigger] found[i]).1 == found[i].0
        + query.len() && found[i].0 == places[i] && found_at(name, query, found[i].0) by {
        assert(search::stands_at(text, query, places[i]));
        assert(found[i].0 == places[i]);
        lemma_found_at(name, query, places[i]);
    }
    assert forall|i: int, j: int| 0 <= i < j < found.len() implies (#[trigger] found[i]).1 <= (
    #[trigger] found[j]).0 by {
        assert(places[i] + query.len() <= places[j]);
    }
    assert forall|at: int| #[trigger] found_at(name, query, at) implies exists|i: int|
        0 <= i < found.len() && (#[trigger] found[i]).0 <= at < found[i].1 by {
        lemma_found_at(name, query, at);
        assert(covered(query, places, at));
        reveal(covered);
        let i = choose|i: int|
            0 <= i < places.len() && #[trigger] places[i] <= at < places[i] + query.len();
        assert(found[i].0 == places[i]);
    }
}

/// The ranges in bytes are those in characters, each edge as many bytes from the start as
/// the characters before it take.
pub proof fn law_ranges_in_bytes(name: Seq<char>, query: Seq<char>, i: int)
    requires
        0 <= i < search::ranges_of(name, query).len(),
    ensures
        search::ranges_of(name, query).len() == search::char_ranges_of(name, query).len(),
        search::ranges_of(name, query)[i].0 == vstd::utf8::encode_utf8(
            name.take(search::char_ranges_of(name, query)[i].0),
        ).len(),
        search::ranges_of(name, query)[i].1 == vstd::utf8::encode_utf8(
            name.take(search::char_ranges_of(name, query)[i].1),
        ).len(),
{
}

} // verus!
