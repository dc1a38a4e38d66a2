//! Putting a file's contents on the system clipboard with OSC 52.
//!
//! The terminal emulator does the work, so this reaches the real clipboard even
//! when the navigator is running on the far side of an SSH connection.
use crate::error::{self, Errx, ErrxView, Fault, FaultView, Resultx};
use crate::io::file;
use crate::path::FilePath;
use crate::plan;
use crate::text::{self, cat, cat3, decimal, double};
use vstd::prelude::*;
use vstd::string::StringExecFns;

verus! {

broadcast use {vstd::seq::group_seq_axioms, vstd::seq_lib::group_seq_properties};

/// Terminals cap how much OSC 52 they accept and truncate silently past it:
/// tmux at roughly 75 KB. This leaves room once base64 has grown it by a third.
pub const MAX_BYTES: usize = 48 * 1024;

/// The character that stands for six bits.
pub open spec fn sextet_char(value: int) -> char {
    if value < 26 {
        (65 + value) as char
    } else if value < 52 {
        (71 + value) as char
    } else if value < 62 {
        (value - 4) as char
    } else if value == 62 {
        '+'
    } else {
        '/'
    }
}

/// The byte at `i`, or zero past the end.
pub open spec fn byte_at(data: Seq<u8>, i: int) -> int {
    if i < data.len() {
        data[i] as int
    } else {
        0
    }
}

/// The first three bytes as one number, the first byte on top.
pub open spec fn group(data: Seq<u8>) -> int {
    byte_at(data, 0) * 65536 + byte_at(data, 1) * 256 + byte_at(data, 2)
}

/// The four characters for the first three bytes, padded where there are fewer.
pub open spec fn four(data: Seq<u8>) -> Seq<char> {
    let bits = group(data);
    seq![
        sextet_char(bits / 262144),
        sextet_char(bits / 4096 % 64),
        if data.len() > 1 {
            sextet_char(bits / 64 % 64)
        } else {
            '='
        },
        if data.len() > 2 {
            sextet_char(bits % 64)
        } else {
            '='
        },
    ]
}

/// What is left after the first three bytes.
pub open spec fn after_group(data: Seq<u8>) -> Seq<u8> {
    if data.len() > 3 {
        data.skip(3)
    } else {
        Seq::empty()
    }
}

/// `data` in base64.
pub open spec fn encoded(data: Seq<u8>) -> Seq<char>
    decreases data.len(),
{
    if data.len() == 0 {
        Seq::empty()
    } else {
        four(data) + encoded(after_group(data))
    }
}

/// The six bits a character stands for.
pub open spec fn sextet_value(c: char) -> int {
    if 'A' <= c <= 'Z' {
        c as int - 65
    } else if 'a' <= c <= 'z' {
        c as int - 71
    } else if '0' <= c <= '9' {
        c as int + 4
    } else if c == '+' {
        62
    } else if c == '/' {
        63
    } else {
        0
    }
}

/// The bytes that four characters stand for.
pub open spec fn bytes_of_four(text: Seq<char>) -> Seq<u8> {
    let bits = sextet_value(text[0]) * 262144 + sextet_value(text[1]) * 4096 + sextet_value(
        text[2],
    ) * 64 + sextet_value(text[3]);
    let first = (bits / 65536) as u8;
    let second = (bits / 256 % 256) as u8;
    let third = (bits % 256) as u8;
    if text[2] == '=' {
        seq![first]
    } else if text[3] == '=' {
        seq![first, second]
    } else {
        seq![first, second, third]
    }
}

/// The bytes that a text in base64 stands for.
pub open spec fn decoded(text: Seq<char>) -> Seq<u8>
    decreases text.len(),
{
    if text.len() < 4 {
        Seq::empty()
    } else {
        bytes_of_four(text.take(4)) + decoded(text.skip(4))
    }
}

/// The escape sequence that hands `data` to the terminal's clipboard.
pub open spec fn clipboard_sequence(data: Seq<u8>) -> Seq<char> {
    "\u{1b}]52;c;"@ + encoded(data) + "\u{7}"@
}

/// The sequence as it is sent, wrapped where tmux stands in between.
pub open spec fn sent_sequence(data: Seq<u8>, inside_tmux: bool) -> Seq<char> {
    if inside_tmux {
        "\u{1b}Ptmux;"@ + text::doubled(clipboard_sequence(data), '\u{1b}') + "\u{1b}\\"@
    } else {
        clipboard_sequence(data)
    }
}

/// What goes to the terminal for the file at `path`.
pub open spec fn payload(
    path: Seq<u8>,
    contents: Result<Seq<u8>, FaultView>,
    inside_tmux: bool,
) -> Result<PayloadView, ErrxView> {
    match contents {
        Err(fault) => Err(error::io_error(fault, "reading "@ + text::lossy_text(path))),
        Ok(data) => if data.len() > MAX_BYTES {
            Err(
                error::plain_error(
                    plan::shown_name(path) + " is "@ + text::decimal_text(
                        (data.len() / 1024) as nat,
                    ) + " KiB, over the 48 KiB clipboard limit"@,
                ),
            )
        } else if !file::is_text(data) {
            Err(error::plain_error(plan::shown_name(path) + " is not a text file"@))
        } else {
            Ok(PayloadView { sequence: sent_sequence(data, inside_tmux), bytes: data.len() })
        },
    }
}

/// How many bytes reached the terminal.
pub open spec fn arrived(bytes: nat, sent: Result<(), FaultView>) -> Result<nat, ErrxView> {
    match sent {
        Ok(()) => Ok(bytes),
        Err(fault) => Err(error::io_error(fault, "writing to the terminal"@)),
    }
}

/// What goes to the terminal, and how many bytes of the file it stands for.
#[derive(Debug)]
pub struct Payload {
    pub sequence: String,
    pub bytes: usize,
}

/// What goes to the terminal, over its text.
pub struct PayloadView {
    pub sequence: Seq<char>,
    pub bytes: nat,
}

impl View for Payload {
    type V = PayloadView;

    open spec fn view(&self) -> PayloadView {
        PayloadView { sequence: self.sequence@, bytes: self.bytes as nat }
    }
}

/// A file's contents, over their bytes.
pub open spec fn contents_view(contents: Result<Vec<u8>, Fault>) -> Result<Seq<u8>, FaultView> {
    match contents {
        Ok(data) => Ok(data@),
        Err(fault) => Err(fault@),
    }
}

/// Whether the terminal took the sequence, over the fault's texts.
pub open spec fn sent_view(sent: Result<(), Fault>) -> Result<(), FaultView> {
    match sent {
        Ok(()) => Ok(()),
        Err(fault) => Err(fault@),
    }
}

/// What puts the contents of the file at `path` on the system clipboard.
///
/// Refuses anything that is not text, or is too large to survive the escape
/// sequence intact: a corrupted paste is worse than none.
pub fn copy_file(path: &FilePath, contents: Result<Vec<u8>, Fault>, inside_tmux: bool) -> (going:
    Resultx<Payload>)
    ensures
        match (going, payload(path@, contents_view(contents), inside_tmux)) {
            (Ok(going), Ok(expected)) => going@ == expected,
            (Err(errx), Err(expected)) => errx@ == expected && errx.traced(),
            _ => false,
        },
{
    let data = match contents {
        Ok(data) => data,
        Err(fault) => {
            return Err(Errx::e_io(fault, cat("reading ", path.display().as_str())));
        },
    };
    if data.len() > MAX_BYTES {
        let mut refusal = cat3(
            path.name_of().as_str(),
            " is ",
            decimal(data.len() as u64 / 1024).as_str(),
        );
        refusal.append(" KiB, over the 48 KiB clipboard limit");
        return Err(Errx::any(refusal));
    }
    if !file::looks_like_text(data.as_slice()) {
        return Err(Errx::any(cat(path.name_of().as_str(), " is not a text file")));
    }
    Ok(Payload { sequence: osc52(data.as_slice(), inside_tmux), bytes: data.len() })
}

/// How many bytes reached the clipboard, if the terminal took them.
pub fn copied(bytes: usize, sent: Result<(), Fault>) -> (count: Resultx<usize>)
    ensures
        match (count, arrived(bytes as nat, sent_view(sent))) {
            (Ok(count), Ok(expected)) => count == expected,
            (Err(errx), Err(expected)) => errx@ == expected && errx.traced(),
            _ => false,
        },
{
    match sent {
        Ok(()) => Ok(bytes),
        Err(fault) => Err(Errx::e_io(fault, "writing to the terminal".to_owned())),
    }
}

/// The escape sequence that hands `data` to the terminal's clipboard.
///
/// tmux intercepts escape sequences from the program it runs, so inside tmux the
/// whole thing is wrapped in a passthrough that tells it to forward this one on.
pub fn osc52(data: &[u8], inside_tmux: bool) -> (sequence: String)
    ensures
        sequence@ == sent_sequence(data@, inside_tmux),
{
    let sequence = cat3("\u{1b}]52;c;", base64(data).as_str(), "\u{7}");
    if inside_tmux {
        // tmux ends its passthrough at the first ESC, so any ESC inside is doubled.
        let inner = double(sequence.as_str(), '\u{1b}');
        return cat3("\u{1b}Ptmux;", inner.as_str(), "\u{1b}\\");
    }
    sequence
}

/// The character that stands for six bits.
fn sextet(value: u32) -> (c: char)
    requires
        value < 64,
    ensures
        c == sextet_char(value as int),
{
    if value < 26 {
        (65 + value as u8) as char
    } else if value < 52 {
        (71 + value as u8) as char
    } else if value < 62 {
        (value as u8 - 4) as char
    } else if value == 62 {
        '+'
    } else {
        '/'
    }
}

/// Standard base64, as in RFC 4648.
pub fn base64(data: &[u8]) -> (text: String)
    ensures
        text@ == encoded(data@),
{
    let mut text = String::new();
    let mut at: usize = 0;
    proof {
        assert(data@.skip(0) =~= data@);
        assert(text@ + encoded(data@) =~= encoded(data@));
    }
    while at < data.len()
        invariant
            at <= data@.len(),
            text@ + encoded(data@.skip(at as int)) == encoded(data@),
        decreases data.len() - at,
    {
        let ghost rest = data@.skip(at as int);
        let left: usize = data.len() - at;
        let first: u32 = data[at] as u32;
        let second: u32 = if left > 1 {
            data[at + 1] as u32
        } else {
            0
        };
        let third: u32 = if left > 2 {
            data[at + 2] as u32
        } else {
            0
        };
        let bits: u32 = first * 65536 + second * 256 + third;
        proof {
            assert(bits == group(rest));
        }
        let ghost before = text@;
        text.push(sextet(bits / 262144));
        text.push(sextet(bits / 4096 % 64));
        text.push(
            if left > 1 {
                sextet(bits / 64 % 64)
            } else {
                '='
            },
        );
        text.push(
            if left > 2 {
                sextet(bits % 64)
            } else {
                '='
            },
        );
        proof {
            assert(text@ =~= before + four(rest));
            assert(before + (four(rest) + encoded(after_group(rest))) =~= before + four(rest)
                + encoded(after_group(rest)));
        }
        if left > 3 {
            proof {
                assert(after_group(rest) =~= data@.skip(at as int + 3));
            }
            at = at + 3;
        } else {
            proof {
                assert(after_group(rest) =~= data@.skip(data@.len() as int));
            }
            at = data.len();
        }
    }
    proof {
        assert(data@.skip(at as int) =~= Seq::empty());
        assert(text@ + Seq::<char>::empty() =~= text@);
    }
    text
}

/// A character for six bits stands for those six bits, and is never the padding.
proof fn lemma_sextet(value: int)
    requires
        0 <= value < 64,
    ensures
        sextet_value(sextet_char(value)) == value,
        sextet_char(value) != '=',
        sextet_char(value) != '\u{1b}',
        sextet_char(value) != '\u{7}',
{
}

/// Three bytes cut into four times six bits, and put together again.
proof fn lemma_bits(b0: u32, b1: u32, b2: u32, bits: u32)
    by (bit_vector)
    requires
        b0 < 256,
        b1 < 256,
        b2 < 256,
        bits == b0 * 65536 + b1 * 256 + b2,
    ensures
        bits < 16777216,
        bits / 262144 < 64,
        bits / 262144 * 262144 + bits / 4096 % 64 * 4096 + bits / 64 % 64 * 64 + bits % 64 == bits,
        bits / 65536 == b0,
        bits / 256 % 256 == b1,
        bits % 256 == b2,
        b2 == 0 ==> bits % 64 == 0,
        b1 == 0 && b2 == 0 ==> bits / 64 % 64 == 0,
{
}

/// Four characters stand for the bytes they were made of.
proof fn lemma_four(data: Seq<u8>)
    requires
        data.len() > 0,
    ensures
        bytes_of_four(four(data)) == if data.len() > 3 {
            data.take(3)
        } else {
            data
        },
{
    let bits = group(data);
    let text = four(data);
    lemma_bits(
        byte_at(data, 0) as u32,
        byte_at(data, 1) as u32,
        byte_at(data, 2) as u32,
        bits as u32,
    );
    lemma_sextet(bits / 262144);
    lemma_sextet(bits / 4096 % 64);
    lemma_sextet(bits / 64 % 64);
    lemma_sextet(bits % 64);
    assert(sextet_value('=') == 0);
    assert(sextet_value(text[0]) == bits / 262144);
    assert(sextet_value(text[1]) == bits / 4096 % 64);
    assert(sextet_value(text[2]) == bits / 64 % 64);
    assert(sextet_value(text[3]) == bits % 64);
    if data.len() > 3 {
        assert(bytes_of_four(text) =~= data.take(3));
    } else {
        assert(bytes_of_four(text) =~= data);
    }
}

/// Decoding what was encoded gives the contents back, byte for byte.
pub proof fn law_base64_round_trip(data: Seq<u8>)
    ensures
        decoded(encoded(data)) == data,
    decreases data.len(),
{
    if data.len() > 0 {
        let text = encoded(data);
        let rest = after_group(data);
        lemma_four(data);
        law_base64_round_trip(rest);
        assert(text.take(4) =~= four(data));
        assert(text.skip(4) =~= encoded(rest));
        if data.len() > 3 {
            assert(data.take(3) + data.skip(3) =~= data);
        } else {
            assert(data + Seq::<u8>::empty() =~= data);
        }
    }
}

/// Four characters go out for every three bytes, and none of them ends the
/// sequence they are sent in.
pub proof fn law_base64_is_plain(data: Seq<u8>)
    ensures
        encoded(data).len() == (data.len() + 2) / 3 * 4,
        forall|i: int|
            0 <= i < encoded(data).len() ==> #[trigger] encoded(data)[i] != '\u{1b}'
                && encoded(data)[i] != '\u{7}',
    decreases data.len(),
{
    if data.len() > 0 {
        let bits = group(data);
        assert(0 <= bits < 16777216);
        lemma_sextet(bits / 262144);
        lemma_sextet(bits / 4096 % 64);
        lemma_sextet(bits / 64 % 64);
        lemma_sextet(bits % 64);
        law_base64_is_plain(after_group(data));
        let text = encoded(data);
        assert forall|i: int| 0 <= i < text.len() implies #[trigger] text[i] != '\u{1b}' && text[i]
            != '\u{7}' by {
            if i < 4 {
                assert(text[i] == four(data)[i]);
            } else {
                assert(text[i] == encoded(after_group(data))[i - 4]);
            }
        }
    }
}

} // verus!
