//! What a listing and a preview show of what was read.
use crate::error::FaultView;
use crate::io::dir::{self, EntryView, RawView};
use crate::io::file::{self, HeadFaultView};
use crate::path;
use crate::text;
use crate::text_laws;
use vstd::prelude::*;

verus! {

broadcast use {
    vstd::seq::group_seq_axioms,
    vstd::seq_lib::group_seq_properties,
    vstd::seq_lib::group_to_multiset_ensures,
    vstd::multiset::group_multiset_axioms,
};

/// Whether `entry` is how a directory's entry is listed: under its name, and as a directory
/// when it is one or is a link that leads to one.
pub open spec fn lists_as(raw: RawView, entry: EntryView) -> bool {
    &&& entry.name == text::lossy_text(raw.name)
    &&& match raw.file_type {
        Some(file_type) => entry.is_dir == ((file_type.symlink && raw.leads_to_dir) || (
        !file_type.symlink && file_type.dir)),
        None => !entry.is_dir,
    }
}

/// How many entries could be read.
pub open spec fn readable_count(found: Seq<Option<RawView>>) -> nat
    decreases found.len(),
{
    if found.len() == 0 {
        0
    } else {
        readable_count(found.drop_last()) + if found.last() is Some {
            1nat
        } else {
            0nat
        }
    }
}

proof fn lemma_readable(found: Seq<Option<RawView>>, entry: EntryView)
    ensures
        dir::readable(found).len() == readable_count(found),
        dir::readable(found).contains(entry) <==> exists|i: int|
            0 <= i < found.len() && (#[trigger] found[i] matches Some(raw) && lists_as(
                raw,
                entry,
            )),
    decreases found.len(),
{
    if found.len() > 0 {
        let front = found.drop_last();
        let rest = dir::readable(front);
        let all = dir::readable(found);
        lemma_readable(front, entry);
        let last = found.len() - 1;
        if rest.contains(entry) {
            let i = choose|i: int|
                0 <= i < front.len() && (#[trigger] front[i] matches Some(raw) && lists_as(
                    raw,
                    entry,
                ));
            assert(found[i] == front[i]);
            let k = choose|k: int| 0 <= k < rest.len() && rest[k] == entry;
            assert(all[k] == entry);
        }
        match found.last() {
            Some(raw) => {
                let shown = EntryView {
                    name: text::lossy_text(raw.name),
                    is_dir: dir::leads_to_dir(raw),
                };
                assert(all == rest.push(shown));
                assert(all[rest.len() as int] == shown);
                assert(lists_as(raw, shown));
                if lists_as(raw, entry) {
                    assert(entry == shown);
                }
                if all.contains(entry) && !rest.contains(entry) {
                    let k = choose|k: int| 0 <= k < all.len() && all[k] == entry;
                    if k < rest.len() {
                        assert(rest[k] == entry);
                    }
                    assert(found[last] == Some(raw));
                }
            },
            None => {},
        }
        assert forall|i: int|
            0 <= i < found.len() && (#[trigger] found[i] matches Some(raw) && lists_as(
                raw,
                entry,
            )) implies all.contains(entry) by {
            if i < last {
                assert(front[i] == found[i]);
            }
        }
    }
}

/// A listing holds every entry that could be read, and nothing else.
pub proof fn law_a_listing_holds_what_could_be_read(
    path: Seq<u8>,
    found: Seq<Option<RawView>>,
    entry: EntryView,
)
    ensures
        dir::listing(path, Ok(found)) matches Ok(listed) && listed.len() == readable_count(found)
            && (listed.contains(entry) <==> exists|i: int|
            0 <= i < found.len() && (#[trigger] found[i] matches Some(raw) && lists_as(
                raw,
                entry,
            ))),
{
    let all = dir::readable(found);
    let order = dir::listing_order();
    let listed = all.sort_by(order);
    dir::lemma_listing_order();
    all.lemma_sort_by_ensures(order);
    lemma_readable(found, entry);
    assert(all.to_multiset().len() == all.len());
    assert(listed.to_multiset().len() == listed.len());
    assert(all.contains(entry) <==> all.to_multiset().count(entry) > 0);
    assert(listed.contains(entry) <==> listed.to_multiset().count(entry) > 0);
}

/// Directories are listed before everything else, and within each group the names are in
/// the order of their bytes.
pub proof fn law_a_listing_is_in_order(
    path: Seq<u8>,
    found: Seq<Option<RawView>>,
    i: int,
    j: int,
)
    requires
        dir::listing(path, Ok(found)) is Ok,
        0 <= i < j < dir::listing(path, Ok(found))->Ok_0.len(),
    ensures
        ({
            let listed = dir::listing(path, Ok(found))->Ok_0;
            &&& listed[j].is_dir ==> listed[i].is_dir
            &&& listed[i].is_dir == listed[j].is_dir ==> listed[i].name == listed[j].name
                || path::bytes_before(
                vstd::utf8::encode_utf8(listed[i].name),
                vstd::utf8::encode_utf8(listed[j].name),
            )
        }),
{
    let all = dir::readable(found);
    let order = dir::listing_order();
    let listed = all.sort_by(order);
    dir::lemma_listing_order();
    all.lemma_sort_by_ensures(order);
    assert(order(listed[i], listed[j]));
}

/// A directory that could not be read has no listing.
pub proof fn law_an_unreadable_directory_has_no_listing(path: Seq<u8>, fault: FaultView)
    ensures
        dir::listing(path, Err(fault)) is Err,
{
}

/// A byte is one that text holds exactly when it is no control byte, or is a tab, a newline
/// or a carriage return.
pub proof fn law_which_bytes_are_text(byte: u8)
    ensures
        file::text_byte(byte) <==> !(byte < 32 || byte == 127) || byte == 9 || byte == 10 || byte
            == 13,
{
}

/// What is UTF-8 and holds no control bytes but those is text; what holds one is not,
/// wherever it stands.
pub proof fn law_what_is_text(head: Seq<u8>)
    ensures
        vstd::utf8::valid_utf8(head) && (forall|i: int|
            0 <= i < head.len() ==> file::text_byte(#[trigger] head[i])) ==> file::is_text(head),
        (exists|i: int| 0 <= i < head.len() && !file::text_byte(#[trigger] head[i]))
            ==> !file::is_text(head),
{
}

proof fn lemma_written_prefix(lines: Seq<Seq<char>>, count: int)
    requires
        0 <= count <= lines.len(),
    ensures
        text_laws::written(lines.take(count)).len() <= text_laws::written(lines).len(),
        text_laws::written(lines).take(text_laws::written(lines.take(count)).len() as int)
            == text_laws::written(lines.take(count)),
    decreases lines.len(),
{
    let all = text_laws::written(lines);
    let some = text_laws::written(lines.take(count));
    if count == 0 {
        assert(lines.take(0) =~= Seq::empty());
        assert(all.take(0) =~= Seq::empty());
    } else {
        let rest = lines.drop_first();
        lemma_written_prefix(rest, count - 1);
        assert(lines.take(count).drop_first() =~= rest.take(count - 1));
        assert(lines.take(count)[0] == lines[0]);
        let head = lines[0].push('\n');
        let below = text_laws::written(rest.take(count - 1));
        assert(all == head + text_laws::written(rest));
        assert(some == head + below);
        assert(all.take(some.len() as int) =~= head + text_laws::written(rest).take(
            below.len() as int,
        ));
    }
}

/// The preview of a text without carriage returns is the start of it: its first lines, as
/// many as there is room for, or all of them.
pub proof fn law_a_preview_is_the_start_of_the_text(head: Seq<u8>, max_lines: int)
    requires
        vstd::utf8::valid_utf8(head),
        file::is_text(head),
        !vstd::utf8::decode_utf8(head).contains('\r'),
        max_lines > 0,
        head.len() > 0,
    ensures
        ({
            let whole = vstd::utf8::decode_utf8(head);
            let lines = text::lines_of(whole);
            let count = if max_lines < lines.len() {
                max_lines
            } else {
                lines.len() as int
            };
            file::preview_of(head, max_lines) matches Some(shown) && shown.len() <= whole.len()
                && whole.take(shown.len() as int) == shown && shown.push('\n')
                == text_laws::written(lines.take(count))
        }),
{
    let whole = vstd::utf8::decode_utf8(head);
    let lines = text::lines_of(whole);
    let count = if max_lines < lines.len() {
        max_lines
    } else {
        lines.len() as int
    };
    vstd::utf8::decode_utf8_encode_utf8(head);
    if whole.len() == 0 {
        assert(vstd::utf8::encode_utf8(whole) =~= Seq::empty());
    }
    assert(lines.len() > 0);
    let some = lines.take(count);
    reveal_strlit("\n");
    assert("\n"@ =~= seq!['\n']);
    text_laws::law_joining_keeps_the_pieces(some);
    text_laws::law_lines_make_up_the_text(whole);
    lemma_written_prefix(lines, count);
    let shown = text::joined(some, seq!['\n']);
    assert(file::preview_of(head, max_lines) == Some(shown));
    let all = text_laws::written(lines);
    let size = shown.len() as int;
    assert(all.take(size + 1) == shown.push('\n'));
    assert forall|i: int| 0 <= i < size implies whole[i] == shown[i] by {
        assert(all.take(size + 1)[i] == shown.push('\n')[i]);
    }
    assert(whole.take(size) =~= shown);
}

/// What is shown for a file: where it could not be read or is not text, that is said
/// instead. Only its first 8192 bytes count.
pub proof fn law_what_is_shown_for_a_file(
    path: Seq<u8>,
    answer: Result<Seq<u8>, HeadFaultView>,
    max_lines: int,
)
    ensures
        answer is Err ==> file::shown_preview(path, answer, max_lines)
            == "(cannot read file)"@,
        answer matches Ok(bytes) ==> ({
            let head = if bytes.len() > 8192 {
                bytes.take(8192)
            } else {
                bytes
            };
            &&& !file::is_text(head) ==> file::shown_preview(path, answer, max_lines)
                == "(binary file)"@
            &&& file::is_text(head) ==> file::preview_of(head, max_lines) == Some(
                file::shown_preview(path, answer, max_lines),
            )
        }),
{
}

proof fn lemma_cut_is_not_whole(c: char, count: int)
    requires
        0 < count < vstd::utf8::encode_utf8(seq![c]).len(),
    ensures
        !vstd::utf8::valid_utf8(vstd::utf8::encode_utf8(seq![c]).take(count)),
{
    let whole = vstd::utf8::encode_utf8(seq![c]);
    let cut = whole.take(count);
    vstd::utf8::encode_utf8_valid_utf8(seq![c]);
    vstd::utf8::encode_utf8_first_scalar(seq![c]);
    vstd::utf8::char_is_scalar(c);
    assert(seq![c].drop_first() =~= Seq::empty());
    assert(vstd::utf8::encode_utf8(seq![c].drop_first()) =~= Seq::empty());
    assert(whole =~= vstd::utf8::encode_scalar(c as u32));
    assert(cut[0] == whole[0]);
    assert(vstd::utf8::length_of_first_scalar(whole) == whole.len());
}

proof fn lemma_ends_there(before: Seq<char>, rest: Seq<u8>)
    requires
        forall|more: int|
            0 < more <= rest.len() ==> !#[trigger] vstd::utf8::valid_utf8(rest.take(more)),
    ensures
        file::valid_up_to(
            vstd::utf8::encode_utf8(before) + rest,
            vstd::utf8::encode_utf8(before).len() as int,
        ),
{
    let bytes = vstd::utf8::encode_utf8(before);
    let head = bytes + rest;
    let length = bytes.len() as int;
    vstd::utf8::encode_utf8_valid_utf8(before);
    assert(head.take(length) =~= bytes);
    assert forall|more: int| length < more <= head.len() implies !#[trigger] vstd::utf8::valid_utf8(
        head.take(more),
    ) by {
        let some = head.take(more);
        assert(some.subrange(0, length) =~= bytes);
        assert(some.subrange(length, some.len() as int) =~= rest.take(more - length));
        vstd::utf8::partial_valid_partial_invalid_utf8(some, length);
    }
}

/// Where the bytes that were read end in the middle of a character, the text is what stands
/// before that character.
pub proof fn law_a_character_cut_short_is_left_out(before: Seq<char>, c: char, count: int)
    requires
        0 < count < vstd::utf8::encode_utf8(seq![c]).len(),
    ensures
        file::text_in(
            vstd::utf8::encode_utf8(before) + vstd::utf8::encode_utf8(seq![c]).take(count),
        ) == Some(before),
{
    let whole = vstd::utf8::encode_utf8(seq![c]);
    let rest = whole.take(count);
    let bytes = vstd::utf8::encode_utf8(before);
    let head = bytes + rest;
    assert forall|more: int| 0 < more <= rest.len() implies !#[trigger] vstd::utf8::valid_utf8(
        rest.take(more),
    ) by {
        assert(rest.take(more) =~= whole.take(more));
        lemma_cut_is_not_whole(c, more);
    }
    lemma_ends_there(before, rest);
    file::lemma_valid_up_to(head, bytes.len() as int);
    assert(head.take(head.len() as int) =~= head);
    assert(!vstd::utf8::valid_utf8(head.take(head.len() as int)));
    assert(head.skip(bytes.len() as int) =~= rest);
    assert(head.take(bytes.len() as int) =~= bytes);
    assert(file::cut_character(rest));
    vstd::utf8::encode_utf8_decode_utf8(before);
}

proof fn lemma_no_start(bytes: Seq<u8>)
    requires
        bytes.len() > 0,
        128 <= bytes[0] < 192,
    ensures
        !vstd::utf8::valid_first_scalar(bytes),
{
    vstd::utf8::utf8_byte_ranges_bitwise(bytes[0]);
}

/// A byte that only ever goes on a character, where none was begun, makes what was read no
/// text, whatever follows it.
pub proof fn law_a_stray_byte_is_no_text(before: Seq<char>, stray: u8, more: Seq<u8>)
    requires
        128 <= stray < 192,
    ensures
        file::text_in(vstd::utf8::encode_utf8(before) + (seq![stray] + more)) is None,
        !file::is_text(vstd::utf8::encode_utf8(before) + (seq![stray] + more)),
{
    let rest = seq![stray] + more;
    let bytes = vstd::utf8::encode_utf8(before);
    let head = bytes + rest;
    assert forall|some: int| 0 < some <= rest.len() implies !#[trigger] vstd::utf8::valid_utf8(
        rest.take(some),
    ) by {
        lemma_no_start(rest.take(some));
    }
    lemma_ends_there(before, rest);
    file::lemma_valid_up_to(head, bytes.len() as int);
    assert(head.take(head.len() as int) =~= head);
    assert(!vstd::utf8::valid_utf8(head.take(head.len() as int)));
    assert(head.skip(bytes.len() as int) =~= rest);
    if file::cut_character(rest) {
        let c = choose|c: char|
            {
                let whole = #[trigger] vstd::utf8::encode_utf8(seq![c]);
                0 < rest.len() < whole.len() && rest == whole.take(rest.len() as int)
            };
        let whole = vstd::utf8::encode_utf8(seq![c]);
        assert(whole[0] == rest[0]);
        vstd::utf8::encode_utf8_first_scalar(seq![c]);
        lemma_no_start(whole);
    }
}

} // verus!
