//! The start of a text file.
use crate::io::file::{self, decoded, PREVIEW_BYTES};
use crate::text::{self, join_first, lines};
use vstd::prelude::*;

verus! {

broadcast use {vstd::seq::group_seq_axioms, vstd::seq_lib::group_seq_properties};

/// Whether a byte is one that only binary files hold: anything below the tab.
pub open spec fn binary_byte(byte: u8) -> bool {
    byte < 9
}

/// Whether any byte is one that only binary files hold.
pub open spec fn looks_binary(bytes: Seq<u8>) -> bool {
    exists|i: int| 0 <= i < bytes.len() && binary_byte(#[trigger] bytes[i])
}

/// What is shown for the start of a file.
pub open spec fn shown_text(head: Option<Seq<u8>>, max_lines: int) -> Seq<char> {
    match head {
        None => "(cannot read file)"@,
        Some(head) => {
            let bytes = file::cut(head, PREVIEW_BYTES as int);
            if looks_binary(bytes) || !vstd::utf8::valid_utf8(bytes) {
                "(binary file)"@
            } else {
                file::first_lines(vstd::utf8::decode_utf8(bytes), max_lines)
            }
        },
    }
}

/// The first lines of a file, or a short message saying why not. `head` is what came
/// back when its start was read, if it could be read.
pub fn read_text_file_preview(head: Option<Vec<u8>>, max_lines: usize) -> (shown: String)
    ensures
        shown@ == shown_text(
            match head {
                Some(head) => Some(head@),
                None => None,
            },
            max_lines as int,
        ),
{
    let mut buffer = match head {
        Some(head) => head,
        None => {
            return "(cannot read file)".to_owned();
        },
    };
    let ghost given = buffer@;
    buffer.truncate(PREVIEW_BYTES);
    proof {
        assert(buffer@ =~= file::cut(given, PREVIEW_BYTES as int));
    }
    if has_binary_byte(&buffer) {
        return "(binary file)".to_owned();
    }
    match decoded(buffer.as_slice()) {
        Ok(text) => {
            let all = lines(text.as_str());
            join_first(&all, max_lines, "\n")
        },
        Err(_) => "(binary file)".to_owned(),
    }
}

/// Whether any byte is one that only binary files hold.
fn has_binary_byte(bytes: &Vec<u8>) -> (has: bool)
    ensures
        has == looks_binary(bytes@),
{
    let mut i: usize = 0;
    while i < bytes.len()
        invariant
            i <= bytes@.len(),
            forall|k: int| 0 <= k < i ==> !binary_byte(#[trigger] bytes@[k]),
        decreases bytes.len() - i,
    {
        if bytes[i] < 9 {
            proof {
                assert(binary_byte(bytes@[i as int]));
            }
            return true;
        }
        i = i + 1;
    }
    false
}

/// Whether any byte is below the tab.
pub open spec fn has_low_byte(bytes: Seq<u8>) -> bool {
    exists|i: int| 0 <= i < bytes.len() && #[trigger] bytes[i] < 9
}

/// What is shown for a file: that it cannot be read, or that it is binary where its first
/// 8192 bytes hold one below the tab or are not text throughout, and else its first lines.
pub proof fn law_what_is_shown_for_a_text_file(
    head: Option<Seq<u8>>,
    start: Seq<u8>,
    max_lines: int,
)
    requires
        max_lines >= 0,
        head matches Some(bytes) ==> if bytes.len() > 8192 {
            start == bytes.take(8192)
        } else {
            start == bytes
        },
    ensures
        head is None ==> shown_text(head, max_lines) == "(cannot read file)"@,
        head is Some && (has_low_byte(start) || !vstd::utf8::valid_utf8(start)) ==> shown_text(
            head,
            max_lines,
        ) == "(binary file)"@,
        head is Some && !has_low_byte(start) && vstd::utf8::valid_utf8(start) ==> ({
            let lines = text::lines_of(vstd::utf8::decode_utf8(start));
            shown_text(head, max_lines) == if lines.len() <= max_lines {
                text::joined(lines, "\n"@)
            } else {
                text::joined(lines.take(max_lines), "\n"@)
            }
        }),
{
    assert(looks_binary(start) == has_low_byte(start)) by {
        if has_low_byte(start) {
            let i = choose|i: int| 0 <= i < start.len() && #[trigger] start[i] < 9;
            assert(binary_byte(start[i]));
        }
        if looks_binary(start) {
            let i = choose|i: int| 0 <= i < start.len() && binary_byte(#[trigger] start[i]);
            assert(start[i] < 9);
        }
    }
    let lines = text::lines_of(vstd::utf8::decode_utf8(start));
    assert(lines.take(lines.len() as int) =~= lines);
}

} // verus!
