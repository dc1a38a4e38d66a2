//! What trimming, splitting and writing numbers keep of a text.
use crate::text;
use vstd::prelude::*;

verus! {

broadcast use {vstd::seq::group_seq_axioms, vstd::seq_lib::group_seq_properties};

/// Whether all of a text is white space.
pub open spec fn all_white(text: Seq<char>) -> bool {
    forall|i: int| 0 <= i < text.len() ==> text::white(#[trigger] text[i])
}

/// Whether a text has no white space at either end.
pub open spec fn is_tight(text: Seq<char>) -> bool {
    text.len() > 0 ==> !text::white(text[0]) && !text::white(text.last())
}

proof fn lemma_start(text: Seq<char>) -> (from: int)
    ensures
        0 <= from <= text.len(),
        text::trimmed_start(text) == text.skip(from),
        all_white(text.take(from)),
        from < text.len() ==> !text::white(text[from]),
    decreases text.len(),
{
    if text.len() > 0 && text::white(text[0]) {
        let rest = text.drop_first();
        let below = lemma_start(rest);
        assert(rest.skip(below) =~= text.skip(below + 1));
        assert forall|i: int| 0 <= i < below + 1 implies text::white(
            #[trigger] text.take(below + 1)[i],
        ) by {
            if i > 0 {
                assert(rest.take(below)[i - 1] == text[i]);
            }
        }
        below + 1
    } else {
        assert(text.skip(0) =~= text);
        0
    }
}

proof fn lemma_end(text: Seq<char>) -> (to: int)
    ensures
        0 <= to <= text.len(),
        text::trimmed_end(text) == text.take(to),
        all_white(text.skip(to)),
        to > 0 ==> !text::white(text[to - 1]),
    decreases text.len(),
{
    if text.len() > 0 && text::white(text.last()) {
        let rest = text.drop_last();
        let to = lemma_end(rest);
        assert(rest.take(to) =~= text.take(to));
        assert forall|i: int| 0 <= i < text.len() - to implies text::white(
            #[trigger] text.skip(to)[i],
        ) by {
            if i < rest.len() - to {
                assert(rest.skip(to)[i] == text[to + i]);
            }
        }
        to
    } else {
        assert(text.take(text.len() as int) =~= text);
        text.len() as int
    }
}

/// Trimming takes white space off both ends and nothing else: what is left has none there.
pub proof fn law_trimming_takes_only_white_space(text: Seq<char>)
    ensures
        is_tight(text::trimmed(text)),
        exists|from: int, to: int|
            0 <= from <= to <= text.len() && text::trimmed(text) == #[trigger] text.subrange(
                from,
                to,
            ) && all_white(text.take(from)) && all_white(text.skip(to)),
{
    let from = lemma_start(text);
    let rest = text.skip(from);
    let count = lemma_end(rest);
    let to = from + count;
    assert(rest.take(count) =~= text.subrange(from, to));
    assert(text.skip(to) =~= rest.skip(count));
    if count > 0 {
        assert(rest[0] == text[from]);
        assert(rest.take(count).last() == rest[count - 1]);
    }
}

/// A text with no white space at its ends is left as it is.
pub proof fn law_a_tight_text_stays(text: Seq<char>)
    requires
        is_tight(text),
    ensures
        text::trimmed(text) == text,
{
}

/// Trimming twice is trimming once.
pub proof fn law_trimming_once_is_enough(text: Seq<char>)
    ensures
        text::trimmed(text::trimmed(text)) == text::trimmed(text),
{
    law_trimming_takes_only_white_space(text);
    law_a_tight_text_stays(text::trimmed(text));
}

/// The number that digits stand for.
pub open spec fn number_of(digits: Seq<char>) -> int
    decreases digits.len(),
{
    if digits.len() == 0 {
        0
    } else {
        number_of(digits.drop_last()) * 10 + (digits.last() as int - '0' as int)
    }
}

/// A number in decimal reads as that number, in digits only, and does not start with a
/// zero unless it is zero.
pub proof fn law_decimal_reads_back(number: nat)
    ensures
        number_of(text::decimal_text(number)) == number,
        text::decimal_text(number).len() > 0,
        forall|i: int|
            0 <= i < text::decimal_text(number).len() ==> '0' <= #[trigger] text::decimal_text(
                number,
            )[i] <= '9',
        number > 0 ==> text::decimal_text(number)[0] != '0',
    decreases number,
{
    let digits = text::decimal_text(number);
    if number < 10 {
        assert(digits.drop_last() =~= Seq::empty());
        reveal_with_fuel(number_of, 2);
    } else {
        law_decimal_reads_back(number / 10);
        let front = text::decimal_text(number / 10);
        assert(digits.drop_last() =~= front);
        assert forall|i: int| 0 <= i < digits.len() implies '0' <= #[trigger] digits[i] <= '9' by {
            if i < front.len() {
                assert(digits[i] == front[i]);
            }
        }
        assert(digits[0] == front[0]);
    }
}

/// Padding leaves the text in front, adds nothing but spaces, and reaches the width.
pub proof fn law_padding_adds_spaces(given: Seq<char>, width: nat)
    ensures
        text::padded(given, width).len() == if given.len() < width {
            width
        } else {
            given.len()
        },
        text::padded(given, width).take(given.len() as int) == given,
        forall|i: int|
            given.len() <= i < text::padded(given, width).len() ==> #[trigger] text::padded(
                given,
                width,
            )[i] == ' ',
{
    assert(text::padded(given, width).take(given.len() as int) =~= given);
}

proof fn lemma_line_end(text: Seq<char>, from: int)
    requires
        0 <= from <= text.len(),
    ensures
        from <= text::line_end(text, from) <= text.len(),
        forall|k: int| from <= k < text::line_end(text, from) ==> text[k] != '\n',
        text::line_end(text, from) < text.len() ==> text[text::line_end(text, from)] == '\n',
    decreases text.len() - from,
{
    if from < text.len() && text[from] != '\n' {
        lemma_line_end(text, from + 1);
    }
}

/// Lines written one after the other, each ended by a newline.
pub open spec fn written(lines: Seq<Seq<char>>) -> Seq<char>
    decreases lines.len(),
{
    if lines.len() == 0 {
        Seq::empty()
    } else {
        lines[0].push('\n') + written(lines.drop_first())
    }
}

proof fn lemma_written(text: Seq<char>, from: int)
    requires
        0 <= from <= text.len(),
        !text.contains('\r'),
    ensures
        written(text::lines_from(text, from)) == if from < text.len() && text.last() != '\n' {
            text.skip(from).push('\n')
        } else {
            text.skip(from)
        },
        forall|i: int|
            0 <= i < text::lines_from(text, from).len() ==> !(#[trigger] text::lines_from(
                text,
                from,
            )[i]).contains('\n'),
    decreases text.len() - from,
{
    if from < text.len() {
        lemma_line_end(text, from);
        let to = text::line_end(text, from);
        let line = text::line_between(text, from, to);
        if to > 0 && to - 1 < text.len() {
            assert(text.contains(text[to - 1]));
        }
        assert(line == text.subrange(from, to));
        assert(!line.contains('\n'));
        if to < text.len() {
            lemma_written(text, to + 1);
            let rest = text::lines_from(text, to + 1);
            let all = text::lines_from(text, from);
            assert(all == seq![line] + rest);
            assert(all[0] == line);
            assert(all.drop_first() =~= rest);
            assert(written(all) == line.push('\n') + written(rest));
            assert(line.push('\n') + text.skip(to + 1) =~= text.skip(from));
            if to + 1 < text.len() && text.last() != '\n' {
                assert(line.push('\n') + text.skip(to + 1).push('\n') =~= text.skip(from).push(
                    '\n',
                ));
            }
            if to + 1 == text.len() {
                assert(text.last() == '\n');
                assert(text.skip(to + 1) =~= Seq::empty());
            }
            assert forall|i: int| 0 <= i < all.len() implies !(#[trigger] all[i]).contains(
                '\n',
            ) by {
                if i > 0 {
                    assert(all[i] == rest[i - 1]);
                }
            }
        } else {
            let all = text::lines_from(text, from);
            assert(text::lines_from(text, to + 1) =~= Seq::empty());
            assert(all == seq![line] + text::lines_from(text, to + 1));
            assert(all =~= seq![line]);
            assert(all[0] == line);
            assert(all.drop_first() =~= Seq::empty());
            assert(text.last() != '\n');
            assert(line =~= text.skip(from));
            assert(written(all.drop_first()) =~= Seq::empty());
            assert(line.push('\n') + Seq::<char>::empty() =~= line.push('\n'));
            assert(written(all) == line.push('\n'));
        }
    } else {
        assert(text.skip(from) =~= Seq::empty());
    }
}

/// The lines of a text without carriage returns, each ended by a newline again, are the
/// text, but for a newline at its end where it has none. No line holds a newline.
pub proof fn law_lines_make_up_the_text(given: Seq<char>)
    requires
        !given.contains('\r'),
    ensures
        written(text::lines_of(given)) == if given.len() > 0 && given.last() != '\n' {
            given.push('\n')
        } else {
            given
        },
        forall|i: int|
            0 <= i < text::lines_of(given).len() ==> !(#[trigger] text::lines_of(
                given,
            )[i]).contains('\n'),
{
    lemma_written(given, 0);
    assert(given.skip(0) =~= given);
}

/// Joined pieces, with the separator after the last one too, are each piece followed by
/// the separator.
pub proof fn law_joining_keeps_the_pieces(pieces: Seq<Seq<char>>)
    requires
        pieces.len() > 0,
    ensures
        text::joined(pieces, seq!['\n']).push('\n') == written(pieces),
    decreases pieces.len(),
{
    let newline = seq!['\n'];
    if pieces.len() == 1 {
        assert(pieces.drop_first() =~= Seq::empty());
        assert(written(pieces.drop_first()) =~= Seq::empty());
        assert(pieces[0].push('\n') + Seq::<char>::empty() =~= pieces[0].push('\n'));
        assert(text::joined(pieces, newline) == pieces[0]);
    } else {
        let front = pieces.drop_last();
        law_joining_keeps_the_pieces(front);
        lemma_written_push(front, pieces.last());
        assert(front.push(pieces.last()) =~= pieces);
        assert(text::joined(pieces, newline) == text::joined(front, newline) + newline
            + pieces.last());
        assert((text::joined(front, newline) + newline + pieces.last()).push('\n') =~= text::joined(
            front,
            newline,
        ).push('\n') + pieces.last().push('\n'));
    }
}

proof fn lemma_written_push(lines: Seq<Seq<char>>, line: Seq<char>)
    ensures
        written(lines.push(line)) == written(lines) + line.push('\n'),
    decreases lines.len(),
{
    let all = lines.push(line);
    if lines.len() == 0 {
        assert(all.drop_first() =~= Seq::empty());
        assert(line.push('\n') + Seq::<char>::empty() =~= Seq::<char>::empty() + line.push('\n'));
    } else {
        let rest = lines.drop_first();
        lemma_written_push(rest, line);
        assert(all.drop_first() =~= rest.push(line));
        assert(lines[0].push('\n') + (written(rest) + line.push('\n')) =~= (lines[0].push('\n')
            + written(rest)) + line.push('\n'));
    }
}

pub proof fn lemma_all_white(input: Seq<char>)
    requires
        all_white(input),
    ensures
        text::trimmed(input).len() == 0,
        text::trimmed_start(input).len() == 0,
    decreases input.len(),
{
    if input.len() > 0 {
        assert(text::white(input[0]));
        let rest = input.drop_first();
        assert forall|i: int| 0 <= i < rest.len() implies text::white(#[trigger] rest[i]) by {
            assert(rest[i] == input[i + 1]);
        }
        lemma_all_white(rest);
    }
}

proof fn lemma_start_push(given: Seq<char>, c: char)
    requires
        text::white(c),
    ensures
        text::trimmed_start(given).len() > 0 ==> text::trimmed_start(given.push(c))
            == text::trimmed_start(given).push(c),
        text::trimmed_start(given).len() == 0 ==> text::trimmed_start(given.push(c)).len() == 0,
    decreases given.len(),
{
    let more = given.push(c);
    if given.len() == 0 {
        assert(more.drop_first() =~= Seq::empty());
        reveal_with_fuel(text::trimmed_start, 2);
    } else if text::white(given[0]) {
        assert(more[0] == given[0]);
        assert(more.drop_first() =~= given.drop_first().push(c));
        lemma_start_push(given.drop_first(), c);
    } else {
        assert(more[0] == given[0]);
    }
}

proof fn lemma_word_end_push(given: Seq<char>, c: char, from: int)
    requires
        text::white(c),
        0 <= from <= given.len(),
    ensures
        text::word_end(given.push(c), from) == text::word_end(given, from),
        from <= text::word_end(given, from) <= given.len(),
        from < given.len() && !text::white(given[from]) ==> from < text::word_end(given, from),
        forall|k: int| from <= k < text::word_end(given, from) ==> !text::white(given[k]),
        text::word_end(given, from) < given.len() ==> text::white(
            given[text::word_end(given, from)],
        ),
    decreases given.len() - from,
{
    let more = given.push(c);
    if from < given.len() {
        assert(more[from] == given[from]);
        if !text::white(given[from]) {
            lemma_word_end_push(given, c, from + 1);
        }
    } else {
        assert(more[from] == c);
    }
}

proof fn lemma_start_tight(given: Seq<char>)
    ensures
        text::trimmed_start(given).len() <= given.len(),
        text::trimmed_start(given).len() > 0 ==> !text::white(text::trimmed_start(given)[0]),
        text::trimmed_start(text::trimmed_start(given)) == text::trimmed_start(given),
    decreases given.len(),
{
    if given.len() > 0 && text::white(given[0]) {
        lemma_start_tight(given.drop_first());
    }
}

proof fn lemma_words_push(given: Seq<char>, c: char)
    requires
        text::white(c),
    ensures
        text::words_of(given.push(c)) == text::words_of(given),
    decreases given.len(),
{
    let rest = text::trimmed_start(given);
    lemma_start_push(given, c);
    lemma_start_tight(given);
    if rest.len() > 0 {
        lemma_word_end_push(rest, c, 0);
        let end = text::word_end(rest, 0);
        assert(rest.push(c).take(end) =~= rest.take(end));
        assert(rest.push(c).skip(end) =~= rest.skip(end).push(c));
        lemma_words_push(rest.skip(end), c);
    }
}

proof fn lemma_words_end(given: Seq<char>)
    ensures
        text::words_of(text::trimmed_end(given)) == text::words_of(given),
    decreases given.len(),
{
    if given.len() > 0 && text::white(given.last()) {
        lemma_words_end(given.drop_last());
        lemma_words_push(given.drop_last(), given.last());
        assert(given.drop_last().push(given.last()) =~= given);
    }
}

/// The words of a text are those of what is left when it is trimmed.
pub proof fn law_words_ignore_the_ends(given: Seq<char>)
    ensures
        text::words_of(text::trimmed(given)) == text::words_of(given),
{
    lemma_start_tight(given);
    lemma_words_end(text::trimmed_start(given));
}

/// A text without its white space.
pub open spec fn without_white(given: Seq<char>) -> Seq<char> {
    given.filter(|c: char| !text::white(c))
}

/// Every word has a character and no white space, and the words one after the other are the
/// text without its white space.
pub proof fn law_words_leave_out_only_white_space(given: Seq<char>)
    ensures
        text::words_of(given).flatten() == without_white(given),
        forall|i: int|
            0 <= i < text::words_of(given).len() ==> (#[trigger] text::words_of(given)[i]).len()
                > 0 && without_white(text::words_of(given)[i]) == text::words_of(given)[i],
    decreases given.len(),
{
    let f = |c: char| !text::white(c);
    let rest = text::trimmed_start(given);
    let from = lemma_start(given);
    lemma_start_tight(given);
    Seq::filter_distributes_over_add(given.take(from), given.skip(from), f);
    assert(given.take(from) + given.skip(from) =~= given);
    lemma_filter_white(given.take(from));
    assert(without_white(given) =~= without_white(rest));
    if rest.len() > 0 {
        lemma_word_end_push(rest, ' ', 0);
        let end = text::word_end(rest, 0);
        let word = rest.take(end);
        let tail = rest.skip(end);
        law_words_leave_out_only_white_space(tail);
        lemma_filter_word(word);
        Seq::filter_distributes_over_add(word, tail, f);
        assert(word + tail =~= rest);
        let words = text::words_of(given);
        let others = text::words_of(tail);
        assert(words == seq![word] + others);
        assert(words.first() == word);
        assert(words.drop_first() =~= others);
        assert forall|i: int| 0 <= i < words.len() implies (#[trigger] words[i]).len() > 0
            && without_white(words[i]) == words[i] by {
            if i > 0 {
                assert(words[i] == others[i - 1]);
            }
        }
    }
}

proof fn lemma_filter_white(given: Seq<char>)
    requires
        all_white(given),
    ensures
        without_white(given) == Seq::<char>::empty(),
    decreases given.len(),
{
    reveal(Seq::filter);
    if given.len() > 0 {
        let front = given.drop_last();
        assert forall|i: int| 0 <= i < front.len() implies text::white(#[trigger] front[i]) by {
            assert(front[i] == given[i]);
        }
        assert(text::white(given[given.len() - 1]));
        lemma_filter_white(front);
    }
}

proof fn lemma_filter_word(given: Seq<char>)
    requires
        forall|i: int| 0 <= i < given.len() ==> !text::white(#[trigger] given[i]),
    ensures
        without_white(given) == given,
    decreases given.len(),
{
    reveal(Seq::filter);
    if given.len() > 0 {
        let front = given.drop_last();
        assert forall|i: int| 0 <= i < front.len() implies !text::white(#[trigger] front[i]) by {
            assert(front[i] == given[i]);
        }
        assert(!text::white(given[given.len() - 1]));
        lemma_filter_word(front);
        assert(front.push(given.last()) =~= given);
    }
}

/// A text with every pair of `c` taken for one.
pub open spec fn undoubled(given: Seq<char>, c: char) -> Seq<char>
    decreases given.len(),
{
    if given.len() == 0 {
        Seq::empty()
    } else if given.len() > 1 && given[0] == c && given[1] == c {
        seq![c] + undoubled(given.skip(2), c)
    } else {
        seq![given[0]] + undoubled(given.skip(1), c)
    }
}

proof fn lemma_doubled_front(given: Seq<char>, c: char)
    requires
        given.len() > 0,
    ensures
        text::doubled(given, c) == if given[0] == c {
            seq![c, c] + text::doubled(given.skip(1), c)
        } else {
            seq![given[0]] + text::doubled(given.skip(1), c)
        },
    decreases given.len(),
{
    let front = given.drop_last();
    let back = given.skip(1);
    let head = if given[0] == c {
        seq![c, c]
    } else {
        seq![given[0]]
    };
    if given.len() == 1 {
        assert(front =~= Seq::empty());
        assert(back =~= Seq::empty());
        assert(text::doubled(given, c) =~= head + text::doubled(back, c));
    } else {
        lemma_doubled_front(front, c);
        assert(front.skip(1) =~= back.drop_last());
        assert(text::doubled(given, c) =~= head + text::doubled(back, c));
    }
}

/// Taking every pair of a doubled character for one gives the text back.
pub proof fn law_doubling_can_be_undone(given: Seq<char>, c: char)
    ensures
        undoubled(text::doubled(given, c), c) == given,
    decreases given.len(),
{
    let twice = text::doubled(given, c);
    if given.len() > 0 {
        let rest = given.skip(1);
        lemma_doubled_front(given, c);
        law_doubling_can_be_undone(rest, c);
        if given[0] == c {
            assert(twice.skip(2) =~= text::doubled(rest, c));
            assert(seq![c] + rest =~= given);
        } else {
            assert(twice.skip(1) =~= text::doubled(rest, c));
            assert(seq![given[0]] + rest =~= given);
        }
    }
}

proof fn lemma_start_split(given: Seq<char>, c: char, more: Seq<char>)
    requires
        text::white(c),
    ensures
        text::trimmed_start(given).len() > 0 ==> text::trimmed_start(given.push(c) + more)
            == text::trimmed_start(given).push(c) + more,
        text::trimmed_start(given).len() == 0 ==> text::trimmed_start(given.push(c) + more)
            == text::trimmed_start(more),
    decreases given.len(),
{
    let all = given.push(c) + more;
    if given.len() == 0 {
        assert(all[0] == c);
        assert(all.drop_first() =~= more);
    } else if text::white(given[0]) {
        assert(all[0] == given[0]);
        assert(all.drop_first() =~= given.drop_first().push(c) + more);
        lemma_start_split(given.drop_first(), c, more);
    } else {
        assert(all[0] == given[0]);
    }
}

proof fn lemma_word_end_split(given: Seq<char>, c: char, more: Seq<char>, from: int)
    requires
        text::white(c),
        0 <= from <= given.len(),
    ensures
        text::word_end(given.push(c) + more, from) == text::word_end(given, from),
    decreases given.len() - from,
{
    let all = given.push(c) + more;
    if from < given.len() {
        assert(all[from] == given[from]);
        if !text::white(given[from]) {
            lemma_word_end_split(given, c, more, from + 1);
        }
    } else {
        assert(all[from] == c);
    }
}

/// White space parts words: the words of a text are those before any white space in it and
/// then those behind it.
pub proof fn law_white_space_parts_words(given: Seq<char>, c: char, more: Seq<char>)
    requires
        text::white(c),
    ensures
        text::words_of(given.push(c) + more) == text::words_of(given) + text::words_of(more),
    decreases given.len(),
{
    let all = given.push(c) + more;
    let rest = text::trimmed_start(given);
    lemma_start_split(given, c, more);
    lemma_start_tight(given);
    if rest.len() > 0 {
        lemma_word_end_split(rest, c, more, 0);
        lemma_word_end_push(rest, c, 0);
        let end = text::word_end(rest, 0);
        let tail = rest.skip(end);
        assert((rest.push(c) + more).take(end) =~= rest.take(end));
        assert((rest.push(c) + more).skip(end) =~= tail.push(c) + more);
        law_white_space_parts_words(tail, c, more);
        assert(text::words_of(all) == seq![rest.take(end)] + text::words_of(tail.push(c) + more));
        assert(text::words_of(all) =~= text::words_of(given) + text::words_of(more));
    } else {
        assert(text::words_of(all) == text::words_of(more));
        assert(text::words_of(given) =~= Seq::empty());
        assert(text::words_of(given) + text::words_of(more) =~= text::words_of(more));
    }
}

proof fn lemma_solid(word: Seq<char>, from: int)
    requires
        forall|i: int| 0 <= i < word.len() ==> !text::white(#[trigger] word[i]),
        0 <= from <= word.len(),
    ensures
        text::word_end(word, from) == word.len(),
    decreases word.len() - from,
{
    if from < word.len() {
        assert(!text::white(word[from]));
        lemma_solid(word, from + 1);
    }
}

/// A text with no white space in it is one word, unless it is empty.
pub proof fn law_what_has_no_white_space_is_one_word(word: Seq<char>)
    requires
        forall|i: int| 0 <= i < word.len() ==> !text::white(#[trigger] word[i]),
    ensures
        text::words_of(word) == if word.len() == 0 {
            Seq::<Seq<char>>::empty()
        } else {
            seq![word]
        },
{
    if word.len() > 0 {
        assert(!text::white(word[0]));
        assert(text::trimmed_start(word) == word);
        lemma_solid(word, 0);
        assert(word.take(word.len() as int) =~= word);
        let nothing = word.skip(word.len() as int);
        assert(nothing =~= Seq::empty());
        assert(text::words_of(nothing) =~= Seq::empty());
        assert(text::words_of(word) =~= seq![word]);
    } else {
        assert(text::words_of(word) =~= Seq::empty());
    }
}

proof fn lemma_line_end_shift(before: Seq<char>, given: Seq<char>, from: int)
    requires
        0 <= from,
    ensures
        text::line_end(before + given, before.len() + from) == before.len() + text::line_end(
            given,
            from,
        ),
    decreases given.len() - from,
{
    let all = before + given;
    if from < given.len() {
        assert(all[before.len() + from] == given[from]);
        if given[from] != '\n' {
            lemma_line_end_shift(before, given, from + 1);
        }
    }
}

proof fn lemma_lines_shift(before: Seq<char>, given: Seq<char>, from: int)
    requires
        0 <= from,
    ensures
        text::lines_from(before + given, before.len() + from) == text::lines_from(given, from),
    decreases given.len() + 1 - from,
{
    let all = before + given;
    let n = before.len() as int;
    if from < given.len() {
        lemma_line_end_shift(before, given, from);
        lemma_line_end(given, from);
        let to = text::line_end(given, from);
        assert(all.subrange(n + from, n + to) =~= given.subrange(from, to));
        if from < to {
            assert(all[n + to - 1] == given[to - 1]);
            assert(all.subrange(n + from, n + to - 1) =~= given.subrange(from, to - 1));
        }
        lemma_lines_shift(before, given, to + 1);
        assert(text::lines_from(all, n + from) =~= text::lines_from(given, from));
    } else {
        assert(text::lines_from(all, n + from) =~= Seq::empty());
        assert(text::lines_from(given, from) =~= Seq::empty());
    }
}

proof fn lemma_line_end_within(line: Seq<char>, more: Seq<char>, from: int)
    requires
        !line.contains('\n'),
        0 <= from <= line.len(),
    ensures
        text::line_end(line.push('\n') + more, from) == line.len(),
    decreases line.len() - from,
{
    let all = line.push('\n') + more;
    if from < line.len() {
        assert(all[from] == line[from]);
        if line[from] == '\n' {
            assert(line.contains('\n'));
        }
        lemma_line_end_within(line, more, from + 1);
    } else {
        assert(all[from] == '\n');
    }
}

/// A line ends at its newline, and a carriage return right before that is no part of it;
/// the other lines are those of the rest.
pub proof fn law_a_newline_ends_a_line(line: Seq<char>, more: Seq<char>)
    requires
        !line.contains('\n'),
    ensures
        text::lines_of(line.push('\r').push('\n') + more) == seq![line] + text::lines_of(more),
        line.len() == 0 || line.last() != '\r' ==> text::lines_of(line.push('\n') + more)
            == seq![line] + text::lines_of(more),
{
    let plain = line.push('\n');
    lemma_line_end_within(line, more, 0);
    lemma_lines_shift(plain, more, 0);
    assert((plain + more).subrange(0, line.len() as int) =~= line);
    if line.len() > 0 {
        assert((plain + more)[line.len() - 1] == line.last());
    }
    let returned = line.push('\r');
    assert(!returned.contains('\n')) by {
        if returned.contains('\n') {
            let i = choose|i: int| 0 <= i < returned.len() && returned[i] == '\n';
            assert(line[i] == '\n');
        }
    }
    let both = returned.push('\n');
    lemma_line_end_within(returned, more, 0);
    lemma_lines_shift(both, more, 0);
    assert((both + more)[line.len() as int] == '\r');
    assert((both + more).subrange(0, line.len() as int) =~= line);
}

/// A text with no newline in it is one line as it stands, unless it is empty.
pub proof fn law_what_has_no_newline_is_one_line(line: Seq<char>)
    requires
        !line.contains('\n'),
    ensures
        text::lines_of(line) == if line.len() == 0 {
            Seq::<Seq<char>>::empty()
        } else {
            seq![line]
        },
{
    if line.len() > 0 {
        lemma_line_end(line, 0);
        let to = text::line_end(line, 0);
        if to < line.len() {
            assert(line.contains(line[to]));
        }
        assert(line.subrange(0, to) =~= line);
        assert(text::lines_from(line, to + 1) =~= Seq::empty());
        assert(text::lines_of(line) =~= seq![line]);
    } else {
        assert(text::lines_of(line) =~= Seq::empty());
    }
}

} // verus!
