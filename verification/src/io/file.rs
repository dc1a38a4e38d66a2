//! Previews of text files.
use crate::error::{self, Errx, ErrxView, Fault, FaultView, Kindx, Resultx};
use crate::logging::store::LogLevel;
use crate::notice::{self, say, Notice, NoticeView};
use crate::path::FilePath;
use crate::text::{self, cat, join_first, lines};
use vstd::prelude::*;

verus! {

broadcast use {vstd::seq::group_seq_axioms, vstd::seq_lib::group_seq_properties};

/// How much of a file is read to build its preview.
pub const PREVIEW_BYTES: usize = 8192;

/// Tab, newline, carriage return, or anything printable. Other control bytes mean
/// binary.
pub open spec fn text_byte(byte: u8) -> bool {
    (byte >= 0x20 && byte != 0x7f) || byte == 9 || byte == 10 || byte == 13
}

/// No byte of `head` is one that only binary files hold.
pub open spec fn all_text_bytes(head: Seq<u8>) -> bool {
    forall|i: int| 0 <= i < head.len() ==> text_byte(#[trigger] head[i])
}

/// `length` is how far `bytes` is UTF-8: that much of it is, and no more.
pub open spec fn valid_up_to(bytes: Seq<u8>, length: int) -> bool {
    &&& 0 <= length <= bytes.len()
    &&& vstd::utf8::valid_utf8(bytes.take(length))
    &&& forall|more: int|
        length < more <= bytes.len() ==> !#[trigger] vstd::utf8::valid_utf8(bytes.take(more))
}

/// `bytes` is the start of one character, with the rest of it missing.
pub open spec fn cut_character(bytes: Seq<u8>) -> bool {
    exists|c: char|
        {
            let whole = #[trigger] vstd::utf8::encode_utf8(seq![c]);
            0 < bytes.len() < whole.len() && bytes == whole.take(bytes.len() as int)
        }
}

/// The text in `head`, which is only the start of a file, so its last character
/// may be cut in half. That fragment is dropped.
pub open spec fn text_in(head: Seq<u8>) -> Option<Seq<char>> {
    let length = choose|length: int| valid_up_to(head, length);
    if vstd::utf8::valid_utf8(head) {
        Some(vstd::utf8::decode_utf8(head))
    } else if cut_character(head.skip(length)) {
        Some(vstd::utf8::decode_utf8(head.take(length)))
    } else {
        None
    }
}

/// The first `count` lines of `text`, or all of them.
pub open spec fn first_lines(text: Seq<char>, count: int) -> Seq<char> {
    let all = text::lines_of(text);
    text::joined(
        all.take(
            if count <= all.len() {
                count
            } else {
                all.len() as int
            },
        ),
        "\n"@,
    )
}

/// The preview of `head`, or `None` if it is not text.
pub open spec fn preview_of(head: Seq<u8>, max_lines: int) -> Option<Seq<char>> {
    if !all_text_bytes(head) {
        None
    } else {
        match text_in(head) {
            Some(text) => Some(first_lines(text, max_lines)),
            None => None,
        }
    }
}

/// Whether `head` can be shown as text.
pub open spec fn is_text(head: Seq<u8>) -> bool {
    all_text_bytes(head) && text_in(head) is Some
}

/// Why bytes are not UTF-8: how far they are, and whether the next character is
/// merely cut short.
pub struct BadText {
    pub length: usize,
    pub cut_short: bool,
}

/// `std::str::from_utf8`: the bytes as text when they are UTF-8. When they are not,
/// `Utf8Error::valid_up_to` is the longest start that is, and
/// `Utf8Error::error_len` is `None` just when the bytes ran out in the middle of a
/// character.
#[verifier::external_body]
pub(crate) fn decoded(bytes: &[u8]) -> (text: Result<String, BadText>)
    ensures
        match text {
            Ok(text) => vstd::utf8::valid_utf8(bytes@) && text@ == vstd::utf8::decode_utf8(bytes@),
            Err(bad) => {
                &&& !vstd::utf8::valid_utf8(bytes@)
                &&& valid_up_to(bytes@, bad.length as int)
                &&& bad.cut_short == cut_character(bytes@.skip(bad.length as int))
            },
        },
{
    match std::str::from_utf8(bytes) {
        Ok(text) => Ok(text.to_string()),
        Err(e) => Err(BadText { length: e.valid_up_to(), cut_short: e.error_len().is_none() }),
    }
}

/// There is one length up to which bytes are UTF-8.
pub proof fn lemma_valid_up_to(bytes: Seq<u8>, length: int)
    requires
        valid_up_to(bytes, length),
    ensures
        length == choose|length: int| valid_up_to(bytes, length),
{
    let other = choose|length: int| valid_up_to(bytes, length);
    assert(valid_up_to(bytes, other));
    if other < length {
        assert(!vstd::utf8::valid_utf8(bytes.take(length)));
    } else if length < other {
        assert(!vstd::utf8::valid_utf8(bytes.take(other)));
    }
}

/// Tab, newline, carriage return, or anything printable. Other control bytes mean
/// binary.
pub fn is_text_byte(byte: u8) -> (is: bool)
    ensures
        is == text_byte(byte),
{
    (byte >= 0x20 && byte != 0x7f) || byte == 9 || byte == 10 || byte == 13
}

/// Whether no byte is one that only binary files hold.
fn only_text_bytes(head: &[u8]) -> (only: bool)
    ensures
        only == all_text_bytes(head@),
{
    let mut i: usize = 0;
    while i < head.len()
        invariant
            i <= head@.len(),
            forall|k: int| 0 <= k < i ==> text_byte(#[trigger] head@[k]),
        decreases head.len() - i,
    {
        if !is_text_byte(head[i]) {
            proof {
                assert(!text_byte(head@[i as int]));
            }
            return false;
        }
        i = i + 1;
    }
    true
}

/// The text in `head`, less a last character that is cut in half.
fn text_of_head(head: &[u8]) -> (found: Option<String>)
    ensures
        match found {
            Some(text) => text_in(head@) == Some(text@),
            None => text_in(head@) is None,
        },
{
    match decoded(head) {
        Ok(text) => Some(text),
        Err(bad) => {
            proof {
                lemma_valid_up_to(head@, bad.length as int);
            }
            if !bad.cut_short {
                return None;
            }
            let whole = vstd::slice::slice_subrange(head, 0, bad.length);
            proof {
                assert(whole@ =~= head@.take(bad.length as int));
            }
            match decoded(whole) {
                Ok(text) => Some(text),
                Err(_) => None,
            }
        },
    }
}

/// The first `max_lines` of `head` as text, or `None` if `head` is not text.
///
/// `head` is only the start of a file, so its last character may be cut in half.
/// That trailing fragment is dropped: it does not make the file binary.
pub fn text_preview(head: &[u8], max_lines: usize) -> (preview: Option<String>)
    ensures
        match preview {
            Some(text) => preview_of(head@, max_lines as int) == Some(text@),
            None => preview_of(head@, max_lines as int) is None,
        },
{
    if !only_text_bytes(head) {
        return None;
    }
    match text_of_head(head) {
        Some(text) => {
            let all = lines(text.as_str());
            Some(join_first(&all, max_lines, "\n"))
        },
        None => None,
    }
}

/// Whether `contents` can be shown as text.
pub fn looks_like_text(contents: &[u8]) -> (is: bool)
    ensures
        is == is_text(contents@),
{
    only_text_bytes(contents) && text_of_head(contents).is_some()
}

/// Why the start of a file could not be read.
#[derive(Debug)]
pub enum HeadFault {
    Opening(Fault),
    Reading(Fault),
}

/// Why the start of a file could not be read, over its texts.
pub enum HeadFaultView {
    Opening(FaultView),
    Reading(FaultView),
}

/// What came back when the start of a file was read, over its bytes.
pub open spec fn head_view(answer: Result<Vec<u8>, HeadFault>) -> Result<Seq<u8>, HeadFaultView> {
    match answer {
        Ok(head) => Ok(head@),
        Err(HeadFault::Opening(fault)) => Err(HeadFaultView::Opening(fault@)),
        Err(HeadFault::Reading(fault)) => Err(HeadFaultView::Reading(fault@)),
    }
}

/// At most the first `max_bytes` of `bytes`.
pub open spec fn cut(bytes: Seq<u8>, max_bytes: int) -> Seq<u8> {
    if bytes.len() > max_bytes {
        bytes.take(max_bytes)
    } else {
        bytes
    }
}

/// The first `max_bytes` of the file at `path`, or why they could not be read.
pub open spec fn head_of(
    path: Seq<u8>,
    max_bytes: int,
    answer: Result<Seq<u8>, HeadFaultView>,
) -> Result<Seq<u8>, ErrxView> {
    match answer {
        Ok(head) => Ok(cut(head, max_bytes)),
        Err(HeadFaultView::Opening(fault)) => Err(
            error::io_error(fault, "opening "@ + text::lossy_text(path)),
        ),
        Err(HeadFaultView::Reading(fault)) => Err(
            error::io_error(fault, "reading "@ + text::lossy_text(path)),
        ),
    }
}

/// What is shown for the file at `path`.
pub open spec fn shown_preview(
    path: Seq<u8>,
    answer: Result<Seq<u8>, HeadFaultView>,
    max_lines: int,
) -> Seq<char> {
    match head_of(path, PREVIEW_BYTES as int, answer) {
        Ok(head) => match preview_of(head, max_lines) {
            Some(text) => text,
            None => "(binary file)"@,
        },
        Err(_) => "(cannot read file)"@,
    }
}

/// What is said when the file at `path` is shown.
pub open spec fn preview_told(path: Seq<u8>, answer: Result<Seq<u8>, HeadFaultView>) -> Seq<
    NoticeView,
> {
    match head_of(path, PREVIEW_BYTES as int, answer) {
        Ok(_) => Seq::empty(),
        Err(errx) => seq![notice::warn(errx.words())],
    }
}

/// The first `max_bytes` of the file at `path`, or the whole file if it is shorter.
/// `answer` is what came back when it was read at least that far.
pub fn read_head(path: &FilePath, max_bytes: usize, answer: Result<Vec<u8>, HeadFault>) -> (head:
    Resultx<Vec<u8>>)
    ensures
        match (head, head_of(path@, max_bytes as int, head_view(answer))) {
            (Ok(head), Ok(expected)) => head@ == expected,
            (Err(errx), Err(expected)) => errx@ == expected && errx.traced(),
            _ => false,
        },
{
    match answer {
        Ok(mut head) => {
            let ghost given = head@;
            head.truncate(max_bytes);
            proof {
                assert(head@ =~= cut(given, max_bytes as int));
            }
            Ok(head)
        },
        Err(HeadFault::Opening(fault)) => Err(
            Errx::e_io(fault, cat("opening ", path.display().as_str())),
        ),
        Err(HeadFault::Reading(fault)) => Err(
            Errx::e_io(fault, cat("reading ", path.display().as_str())),
        ),
    }
}

/// Says why the head of `path` could not be read, if it could not.
pub fn say_preview(
    path: &FilePath,
    answer: &Result<Vec<u8>, HeadFault>,
    notices: &mut Vec<Notice>,
)
    ensures
        notice::notice_views(final(notices)@) == notice::notice_views(old(notices)@)
            + preview_told(path@, head_view(*answer)),
{
    let ghost told = notice::notice_views(notices@);
    let doing = match answer {
        Ok(_) => None,
        Err(HeadFault::Opening(_)) => Some("opening "),
        Err(HeadFault::Reading(_)) => Some("reading "),
    };
    if let Some(doing) = doing {
        let knd = Kindx::Io(cat(doing, path.display().as_str()));
        say(notices, LogLevel::Warn, knd.to_text());
    }
    proof {
        assert(notice::notice_views(notices@) =~= told + preview_told(path@, head_view(*answer)));
    }
}

/// What [`read_text_preview`] shows, with nothing said.
pub fn shown_text(path: &FilePath, answer: Result<Vec<u8>, HeadFault>, max_lines: usize) -> (shown:
    String)
    ensures
        shown@ == shown_preview(path@, head_view(answer), max_lines as int),
{
    match read_head(path, PREVIEW_BYTES, answer) {
        Ok(head) => match text_preview(head.as_slice(), max_lines) {
            Some(text) => text,
            None => "(binary file)".to_owned(),
        },
        Err(_) => "(cannot read file)".to_owned(),
    }
}

/// The head of `path` as displayable text, or a short message saying why not.
pub fn read_text_preview(
    path: &FilePath,
    answer: Result<Vec<u8>, HeadFault>,
    max_lines: usize,
    notices: &mut Vec<Notice>,
) -> (shown: String)
    ensures
        shown@ == shown_preview(path@, head_view(answer), max_lines as int),
        notice::notice_views(final(notices)@) == notice::notice_views(old(notices)@)
            + preview_told(path@, head_view(answer)),
{
    say_preview(path, &answer, notices);
    shown_text(path, answer, max_lines)
}

} // verus!
