//! What reaches the clipboard.
use crate::error::FaultView;
use crate::io::clipboard;
use crate::io::file;
use crate::navigator::model::{
    self, NavView, NextView, PendingView, ReplyView, RequestView,
};
use crate::navigator::Outcome;
use crate::text;
use crate::text_laws;
use vstd::prelude::*;

verus! {

broadcast use {vstd::seq::group_seq_axioms, vstd::seq_lib::group_seq_properties};

/// The characters of base64, each in the place of the six bits it stands for.
pub open spec fn alphabet() -> Seq<char> {
    "ABCDEFGHIJKLMNOPQRSTUVWXYZabcdefghijklmnopqrstuvwxyz0123456789+/"@
}

/// The character for six bits is the one in their place in the alphabet, and it stands for
/// those six bits.
pub proof fn law_base64_has_its_alphabet(value: int)
    requires
        0 <= value < 64,
    ensures
        alphabet().len() == 64,
        clipboard::sextet_char(value) == alphabet()[value],
        clipboard::sextet_value(alphabet()[value]) == value,
{
    reveal_strlit("ABCDEFGHIJKLMNOPQRSTUVWXYZabcdefghijklmnopqrstuvwxyz0123456789+/");
}

/// Whether a sequence hands `data` to the clipboard: it opens the clipboard, it ends with a
/// bell, there is neither an escape nor a bell between, and what stands between decodes to
/// `data`, all of it.
#[verifier::opaque]
pub open spec fn hands_over(sequence: Seq<char>, data: Seq<u8>) -> bool {
    let opening = seq!['\u{1b}', ']', '5', '2', ';', 'c', ';'];
    &&& sequence.len() >= 8
    &&& sequence.take(7) == opening
    &&& sequence.last() == '\u{7}'
    &&& clipboard::decoded(sequence.subrange(7, sequence.len() - 1)) == data
    &&& forall|i: int|
        7 <= i < sequence.len() - 1 ==> #[trigger] sequence[i] != '\u{1b}' && sequence[i]
            != '\u{7}'
    &&& (sequence.len() - 8) % 4 == 0
    &&& sequence.len() - 8 < (data.len() + 3) * 4 / 3 + 2
}

/// Whether `sequence` is wrapped for tmux around `inner`: it opens and closes the
/// passthrough, and what stands between is `inner` once its doubled escapes are undone.
#[verifier::opaque]
pub open spec fn passes_on(sequence: Seq<char>, inner: Seq<char>) -> bool {
    &&& sequence.len() >= 9
    &&& sequence.take(7) == seq!['\u{1b}', 'P', 't', 'm', 'u', 'x', ';']
    &&& sequence.skip(sequence.len() - 2) == seq!['\u{1b}', '\\']
    &&& text_laws::undoubled(sequence.subrange(7, sequence.len() - 2), '\u{1b}') == inner
}

proof fn lemma_plain(data: Seq<u8>)
    ensures
        hands_over(clipboard::clipboard_sequence(data), data),
{
    reveal(hands_over);
    reveal_strlit("\u{1b}]52;c;");
    reveal_strlit("\u{7}");
    let sequence = clipboard::clipboard_sequence(data);
    let body = clipboard::encoded(data);
    clipboard::law_base64_round_trip(data);
    clipboard::law_base64_is_plain(data);
    assert("\u{1b}]52;c;"@ =~= seq!['\u{1b}', ']', '5', '2', ';', 'c', ';']);
    assert(sequence.take(7) =~= "\u{1b}]52;c;"@);
    assert(sequence.subrange(7, sequence.len() - 1) =~= body);
    assert forall|i: int| 7 <= i < sequence.len() - 1 implies #[trigger] sequence[i] != '\u{1b}'
        && sequence[i] != '\u{7}' by {
        assert(sequence[i] == body[i - 7]);
    }
}

/// What is sent hands over the data itself, all of it. Inside tmux that same sequence is
/// passed on.
pub proof fn law_the_sequence_hands_over_all_of_it(data: Seq<u8>)
    ensures
        hands_over(clipboard::sent_sequence(data, false), data),
        passes_on(
            clipboard::sent_sequence(data, true),
            clipboard::sent_sequence(data, false),
        ),
{
    lemma_plain(data);
    reveal(passes_on);
    let plain = clipboard::clipboard_sequence(data);
    let twice = text::doubled(plain, '\u{1b}');
    let sequence = clipboard::sent_sequence(data, true);
    text_laws::law_doubling_can_be_undone(plain, '\u{1b}');
    reveal_strlit("\u{1b}Ptmux;");
    reveal_strlit("\u{1b}\\");
    assert("\u{1b}Ptmux;"@ =~= seq!['\u{1b}', 'P', 't', 'm', 'u', 'x', ';']);
    assert("\u{1b}\\"@ =~= seq!['\u{1b}', '\\']);
    assert(sequence.take(7) =~= "\u{1b}Ptmux;"@);
    assert(sequence.skip(sequence.len() - 2) =~= "\u{1b}\\"@);
    assert(sequence.subrange(7, sequence.len() - 2) =~= twice);
}

/// Two different contents are never sent as the same sequence.
pub proof fn law_no_two_contents_are_sent_alike(a: Seq<u8>, b: Seq<u8>, inside_tmux: bool)
    requires
        clipboard::sent_sequence(a, inside_tmux) == clipboard::sent_sequence(b, inside_tmux),
    ensures
        a == b,
{
    reveal(hands_over);
    reveal(passes_on);
    law_the_sequence_hands_over_all_of_it(a);
    law_the_sequence_hands_over_all_of_it(b);
}

/// Whether `sequence` hands `data` to the clipboard, through tmux where it stands between.
pub open spec fn delivers(sequence: Seq<char>, data: Seq<u8>, inside_tmux: bool) -> bool {
    if inside_tmux {
        exists|inner: Seq<char>| #[trigger] passes_on(sequence, inner) && hands_over(inner, data)
    } else {
        hands_over(sequence, data)
    }
}

/// Whether a file's contents go to the clipboard: they could be read, they are at most
/// 48 KiB, and they can be shown as text.
pub open spec fn fit_to_send(contents: Result<Seq<u8>, FaultView>) -> bool {
    contents matches Ok(data) && data.len() <= 49152 && file::is_text(data)
}

/// Every file that can be shown as text and has at most 48 KiB is sent to the terminal,
/// all of it, and counted as large as it is. Nothing else is sent.
pub proof fn law_a_text_file_is_sent_whole(
    s: NavView,
    path: Seq<u8>,
    contents: Result<Seq<u8>, FaultView>,
    inside_tmux: bool,
)
    requires
        s.pending == (PendingView::Reading { path }),
    ensures
        fit_to_send(contents) ==> model::resumed(
            s,
            ReplyView::FileRead { contents, inside_tmux },
        ).0 == (NavView { pending: PendingView::Sending { bytes: contents->Ok_0.len() }, ..s }),
        fit_to_send(contents) ==> (model::resumed(
            s,
            ReplyView::FileRead { contents, inside_tmux },
        ).1.next matches NextView::Ask(RequestView::Send(sequence)) && delivers(
            sequence,
            contents->Ok_0,
            inside_tmux,
        )),
        !fit_to_send(contents) ==> model::resumed(
            s,
            ReplyView::FileRead { contents, inside_tmux },
        ).0 == (NavView { pending: PendingView::Idle, ..s }),
        !fit_to_send(contents) ==> model::resumed(
            s,
            ReplyView::FileRead { contents, inside_tmux },
        ).1.next == NextView::Done(Outcome::Stay),
{
    if fit_to_send(contents) {
        let data = contents->Ok_0;
        law_the_sequence_hands_over_all_of_it(data);
        let inner = clipboard::sent_sequence(data, false);
        assert(delivers(clipboard::sent_sequence(data, inside_tmux), data, inside_tmux)) by {
            if inside_tmux {
                assert(passes_on(clipboard::sent_sequence(data, true), inner));
            }
        }
    }
}

/// What is said to have been copied is what was sent.
pub proof fn law_what_was_copied_is_counted(
    s: NavView,
    bytes: nat,
    taken: Result<(), FaultView>,
)
    requires
        s.pending == (PendingView::Sending { bytes }),
    ensures
        ({
            let (after, step) = model::resumed(s, ReplyView::Sent(taken));
            &&& after == (NavView { pending: PendingView::Idle, ..s })
            &&& step.next == NextView::Done(Outcome::Stay)
            &&& step.notices.len() == 1
            &&& taken is Ok ==> step.notices[0].text == "Copied "@ + text::decimal_text(bytes)
                + " bytes to the clipboard"@
        }),
{
}

} // verus!
