//! Text as sequences of characters: trimming, lines, numbers and joining.
use vstd::prelude::*;
use vstd::string::StringExecFns;

verus! {

broadcast use {
    vstd::seq::group_seq_axioms,
    vstd::seq_lib::group_seq_properties,
    vstd::string::group_string_axioms,
};

/// `String::push` appends one character to the end of the string.
pub assume_specification[ String::push ](s: &mut String, c: char)
    ensures
        final(s)@ == old(s)@.push(c),
;

/// `String::pop` takes the last character off and returns it, or returns `None`
/// and leaves the string alone when it is empty.
pub assume_specification[ String::pop ](s: &mut String) -> (last: Option<char>)
    ensures
        old(s)@.len() == 0 ==> last is None && final(s)@ == old(s)@,
        old(s)@.len() > 0 ==> last == Some(old(s)@.last()) && final(s)@
            == old(s)@.drop_last(),
;

/// The text `str::to_lowercase` gives for `text`.
pub uninterp spec fn lowercase_text(text: Seq<char>) -> Seq<char>;

/// `str::to_lowercase`: the Unicode lowercase of the whole text. Text that is
/// ASCII is lowered letter by letter; of other text only the name is given.
#[verifier::external_body]
pub(crate) fn lowercase(text: &str) -> (lowered: String)
    ensures
        lowered@ == lowercase_text(text@),
        all_ascii(text@) ==> lowered@ == ascii_lowered(text@),
{
    text.to_lowercase()
}

/// The characters `char::to_lowercase` gives for `c`.
pub uninterp spec fn lowercase_of(c: char) -> Seq<char>;

/// `char::to_lowercase`: the lowercase of one character, which is one or more
/// characters. Of an ASCII character it is the one that `ascii_lower` gives.
#[verifier::external_body]
pub(crate) fn lowercase_char(c: char) -> (lowered: Vec<char>)
    ensures
        lowered@ == lowercase_of(c),
        lowered@.len() > 0,
        (c as u32) < 128 ==> lowered@ == seq![ascii_lower(c)],
{
    c.to_lowercase().collect()
}

/// Whether `char::is_uppercase` holds of `c`.
pub uninterp spec fn uppercase_char(c: char) -> bool;

/// `char::is_uppercase`: whether the character is an uppercase letter. Of the ASCII
/// characters those are the letters from `A` to `Z`.
#[verifier::external_body]
pub(crate) fn is_uppercase(c: char) -> (upper: bool)
    ensures
        upper == uppercase_char(c),
        (c as u32) < 128 ==> upper == ('A' <= c <= 'Z'),
{
    c.is_uppercase()
}

/// `text` as the `{:?}` of `str` writes it.
pub uninterp spec fn quoted_text(text: Seq<char>) -> Seq<char>;

/// `format!("{:?}", text)`: the text between double quotes, with the characters
/// that would not print escaped.
#[verifier::external_body]
pub(crate) fn quoted(text: &str) -> (shown: String)
    ensures
        shown@ == quoted_text(text@),
{
    format!("{:?}", text)
}

/// What `String::from_utf8_lossy` makes of bytes that are not UTF-8.
pub uninterp spec fn repaired_text(bytes: Seq<u8>) -> Seq<char>;

/// Bytes as text: what they decode to when they are UTF-8, and the repaired text
/// otherwise.
pub open spec fn lossy_text(bytes: Seq<u8>) -> Seq<char> {
    if vstd::utf8::valid_utf8(bytes) {
        vstd::utf8::decode_utf8(bytes)
    } else {
        repaired_text(bytes)
    }
}

/// `String::from_utf8_lossy`: valid UTF-8 is decoded as it stands; what is not valid in
/// anything else is replaced by U+FFFD, so the result holds that character. Otherwise
/// only the name of the result is given.
#[verifier::external_body]
pub(crate) fn lossy(bytes: &[u8]) -> (text: String)
    ensures
        vstd::utf8::valid_utf8(bytes@) ==> text@ == vstd::utf8::decode_utf8(bytes@),
        !vstd::utf8::valid_utf8(bytes@) ==> text@ == repaired_text(bytes@),
        !vstd::utf8::valid_utf8(bytes@) ==> text@.contains('\u{fffd}'),
{
    String::from_utf8_lossy(bytes).into_owned()
}

/// Every character is ASCII.
pub open spec fn all_ascii(text: Seq<char>) -> bool {
    forall|i: int| 0 <= i < text.len() ==> (#[trigger] text[i] as u32) < 128
}

/// The lowercase of one ASCII letter; any other character is left alone.
pub open spec fn ascii_lower(c: char) -> char {
    if 'A' <= c <= 'Z' {
        ((c as u32 + 32) as u32) as char
    } else {
        c
    }
}

/// ASCII letters lowered one by one.
pub open spec fn ascii_lowered(text: Seq<char>) -> Seq<char> {
    Seq::new(text.len(), |i: int| ascii_lower(text[i]))
}

/// Every byte is that of an ASCII character.
pub open spec fn ascii_bytes(bytes: Seq<u8>) -> bool {
    forall|i: int| 0 <= i < bytes.len() ==> #[trigger] bytes[i] < 128
}

/// ASCII bytes are the characters they stand for.
pub proof fn lemma_ascii_bytes(bytes: Seq<u8>)
    requires
        ascii_bytes(bytes),
    ensures
        vstd::utf8::valid_utf8(bytes),
        lossy_text(bytes).len() == bytes.len(),
        forall|i: int|
            0 <= i < bytes.len() ==> #[trigger] lossy_text(bytes)[i] as u32 == bytes[i] as u32,
        all_ascii(lossy_text(bytes)),
{
    let chars = Seq::new(bytes.len(), |i: int| bytes[i] as char);
    assert(vstd::utf8::is_ascii_chars(chars));
    vstd::utf8::is_ascii_chars_encode_utf8(chars);
    assert forall|i: int| 0 <= i < bytes.len() implies vstd::utf8::encode_utf8(chars)[i]
        == bytes[i] by {
        assert(chars[i] as u8 == bytes[i]);
    }
    assert(vstd::utf8::encode_utf8(chars) =~= bytes);
    vstd::utf8::encode_utf8_valid_utf8(chars);
    vstd::utf8::encode_utf8_decode_utf8(chars);
    assert(lossy_text(bytes) == chars);
}

proof fn lemma_ascii_char(c: char)
    requires
        (c as u32) < 128,
    ensures
        '\0' <= c <= '\u{7f}',
{
}

proof fn lemma_ascii_chars(chars: Seq<char>)
    requires
        all_ascii(chars),
    ensures
        vstd::utf8::is_ascii_chars(chars),
{
    assert forall|i: int| 0 <= i < chars.len() implies '\0' <= #[trigger] chars[i]
        <= '\u{7f}' by {
        lemma_ascii_char(chars[i]);
    }
}

/// Text that is ASCII is the bytes it is encoded as.
pub proof fn lemma_ascii_text(bytes: Seq<u8>)
    requires
        vstd::utf8::valid_utf8(bytes),
        all_ascii(lossy_text(bytes)),
    ensures
        ascii_bytes(bytes),
{
    let chars = lossy_text(bytes);
    lemma_ascii_chars(chars);
    vstd::utf8::is_ascii_chars_encode_utf8(chars);
    vstd::utf8::decode_utf8_encode_utf8(bytes);
    assert forall|i: int| 0 <= i < bytes.len() implies #[trigger] bytes[i] < 128 by {
        assert((chars[i] as u32) < 128);
        assert(chars[i] as u8 == bytes[i]);
    }
}

/// The characters of the Unicode `White_Space` property.
pub open spec fn white(c: char) -> bool {
    let n = c as u32;
    ||| 0x09 <= n <= 0x0d
    ||| n == 0x20
    ||| n == 0x85
    ||| n == 0xa0
    ||| n == 0x1680
    ||| 0x2000 <= n <= 0x200a
    ||| n == 0x2028
    ||| n == 0x2029
    ||| n == 0x202f
    ||| n == 0x205f
    ||| n == 0x3000
}

/// Whether `c` is white space, as `char::is_whitespace` has it.
pub fn is_white(c: char) -> (is: bool)
    ensures
        is == white(c),
{
    let n: u32 = c as u32;
    (0x09 <= n && n <= 0x0d) || n == 0x20 || n == 0x85 || n == 0xa0 || n == 0x1680 || (0x2000 <= n
        && n <= 0x200a) || n == 0x2028 || n == 0x2029 || n == 0x202f || n == 0x205f || n == 0x3000
}

/// The texts of a sequence of strings.
pub open spec fn texts(strings: Seq<String>) -> Seq<Seq<char>> {
    Seq::new(strings.len(), |i: int| strings[i]@)
}

/// `text` without the white space at its start.
pub open spec fn trimmed_start(text: Seq<char>) -> Seq<char>
    decreases text.len(),
{
    if text.len() > 0 && white(text[0]) {
        trimmed_start(text.drop_first())
    } else {
        text
    }
}

/// `text` without the white space at its end.
pub open spec fn trimmed_end(text: Seq<char>) -> Seq<char>
    decreases text.len(),
{
    if text.len() > 0 && white(text.last()) {
        trimmed_end(text.drop_last())
    } else {
        text
    }
}

/// `text` without the white space at either end.
pub open spec fn trimmed(text: Seq<char>) -> Seq<char> {
    trimmed_end(trimmed_start(text))
}

/// The characters of `text`.
pub fn chars_of(text: &str) -> (chars: Vec<char>)
    ensures
        chars@ == text@,
{
    let mut chars: Vec<char> = Vec::new();
    for c in it: text.chars()
        invariant
            chars@ == text@.take(it.index()),
            it.seq() == text@,
    {
        proof {
            assert(text@.take(it.index() + 1) =~= text@.take(it.index()).push(text@[it.index()]));
        }
        chars.push(c);
    }
    proof {
        assert(text@.take(text@.len() as int) =~= text@);
    }
    chars
}

/// The text made of `chars[from..to]`.
pub fn text_of(chars: &Vec<char>, from: usize, to: usize) -> (text: String)
    requires
        from <= to <= chars@.len(),
    ensures
        text@ == chars@.subrange(from as int, to as int),
{
    let mut text = String::new();
    let mut i: usize = from;
    while i < to
        invariant
            from <= i <= to <= chars@.len(),
            text@ == chars@.subrange(from as int, i as int),
        decreases to - i,
    {
        text.push(chars[i]);
        proof {
            assert(chars@.subrange(from as int, i as int + 1) =~= chars@.subrange(
                from as int,
                i as int,
            ).push(chars@[i as int]));
        }
        i = i + 1;
    }
    text
}

/// Whether two texts are the same.
pub fn same_text(a: &str, b: &str) -> (same: bool)
    ensures
        same == (a@ == b@),
{
    let a_chars = chars_of(a);
    let b_chars = chars_of(b);
    same_chars(&a_chars, &b_chars)
}

/// Whether two lists of characters are the same.
pub fn same_chars(a: &Vec<char>, b: &Vec<char>) -> (same: bool)
    ensures
        same == (a@ == b@),
{
    if a.len() != b.len() {
        return false;
    }
    let mut i: usize = 0;
    while i < a.len()
        invariant
            i <= a@.len(),
            a@.len() == b@.len(),
            forall|k: int| 0 <= k < i ==> a@[k] == b@[k],
        decreases a.len() - i,
    {
        if a[i] != b[i] {
            return false;
        }
        i = i + 1;
    }
    proof {
        assert(a@ =~= b@);
    }
    true
}

/// Whether `c` occurs in `text`.
pub fn has_char(text: &Vec<char>, c: char) -> (has: bool)
    ensures
        has == text@.contains(c),
{
    let mut i: usize = 0;
    while i < text.len()
        invariant
            i <= text@.len(),
            forall|k: int| 0 <= k < i ==> text@[k] != c,
        decreases text.len() - i,
    {
        if text[i] == c {
            return true;
        }
        i = i + 1;
    }
    false
}

proof fn lemma_trimmed_start_skips(text: Seq<char>, from: int)
    requires
        0 <= from <= text.len(),
        forall|k: int| 0 <= k < from ==> white(text[k]),
        from == text.len() || !white(text[from]),
    ensures
        trimmed_start(text) == text.skip(from),
    decreases from,
{
    if from == 0 {
        assert(text.skip(0) =~= text);
    } else {
        let rest = text.drop_first();
        assert forall|k: int| 0 <= k < from - 1 implies white(rest[k]) by {
            assert(rest[k] == text[k + 1]);
        }
        if from < text.len() {
            assert(rest[from - 1] == text[from]);
        }
        lemma_trimmed_start_skips(rest, from - 1);
        assert(rest.skip(from - 1) =~= text.skip(from));
    }
}

proof fn lemma_trimmed_end_takes(text: Seq<char>, to: int)
    requires
        0 <= to <= text.len(),
        forall|k: int| to <= k < text.len() ==> white(text[k]),
        to == 0 || !white(text[to - 1]),
    ensures
        trimmed_end(text) == text.take(to),
    decreases text.len() - to,
{
    if to == text.len() {
        assert(text.take(to) =~= text);
    } else {
        let rest = text.drop_last();
        lemma_trimmed_end_takes(rest, to);
        assert(rest.take(to) =~= text.take(to));
    }
}

/// `text` without the white space at its end.
pub fn trim_end(text: &str) -> (kept: String)
    ensures
        kept@ == trimmed_end(text@),
{
    let chars = chars_of(text);
    let mut to: usize = chars.len();
    while to > 0 && is_white(chars[to - 1])
        invariant
            to <= chars@.len(),
            chars@ == text@,
            forall|k: int| to <= k < chars@.len() ==> white(chars@[k]),
        decreases to,
    {
        to = to - 1;
    }
    proof {
        lemma_trimmed_end_takes(chars@, to as int);
        assert(chars@.take(to as int) =~= chars@.subrange(0, to as int));
    }
    text_of(&chars, 0, to)
}

/// `text` without the white space at either end.
pub fn trim(text: &str) -> (kept: String)
    ensures
        kept@ == trimmed(text@),
{
    let chars = chars_of(text);
    let mut from: usize = 0;
    while from < chars.len() && is_white(chars[from])
        invariant
            from <= chars@.len(),
            chars@ == text@,
            forall|k: int| 0 <= k < from ==> white(chars@[k]),
        decreases chars.len() - from,
    {
        from = from + 1;
    }
    proof {
        lemma_trimmed_start_skips(chars@, from as int);
        assert(chars@.skip(from as int) =~= chars@.subrange(from as int, chars@.len() as int));
    }
    let rest = text_of(&chars, from, chars.len());
    trim_end(rest.as_str())
}

/// Where the line that holds position `from` ends: at the next newline, or at
/// the end of the text.
pub open spec fn line_end(text: Seq<char>, from: int) -> int
    decreases text.len() - from,
{
    if from < 0 || from >= text.len() || text[from] == '\n' {
        from
    } else {
        line_end(text, from + 1)
    }
}

/// The line `text[from..to]`, without the carriage return that belongs to the
/// newline at `to`.
pub open spec fn line_between(text: Seq<char>, from: int, to: int) -> Seq<char> {
    if to < text.len() && from < to && text[to - 1] == '\r' {
        text.subrange(from, to - 1)
    } else {
        text.subrange(from, to)
    }
}

/// The lines of `text` from position `from` on.
pub open spec fn lines_from(text: Seq<char>, from: int) -> Seq<Seq<char>>
    decreases text.len() + 1 - from,
    when from >= 0
    via lines_from_terminates
{
    if from >= text.len() {
        Seq::empty()
    } else {
        let to = line_end(text, from);
        seq![line_between(text, from, to)] + lines_from(text, to + 1)
    }
}

#[via_fn]
proof fn lines_from_terminates(text: Seq<char>, from: int) {
    lemma_line_end(text, from);
}

proof fn lemma_line_end(text: Seq<char>, from: int)
    requires
        0 <= from,
    ensures
        from <= text.len() ==> from <= line_end(text, from) <= text.len(),
        from > text.len() ==> line_end(text, from) == from,
        forall|k: int| from <= k < line_end(text, from) ==> text[k] != '\n',
        line_end(text, from) < text.len() ==> text[line_end(text, from)] == '\n',
    decreases text.len() - from,
{
    if from < text.len() && text[from] != '\n' {
        lemma_line_end(text, from + 1);
    }
}

/// The lines of `text`: split after every newline, which is dropped together
/// with a carriage return just before it; a last line need not end in one.
pub open spec fn lines_of(text: Seq<char>) -> Seq<Seq<char>> {
    lines_from(text, 0)
}

/// The lines of `text`.
pub fn lines(text: &str) -> (found: Vec<String>)
    ensures
        texts(found@) == lines_of(text@),
{
    let chars = chars_of(text);
    let mut found: Vec<String> = Vec::new();
    let mut from: usize = 0;
    proof {
        assert(texts(found@) =~= Seq::empty());
        assert(Seq::<Seq<char>>::empty() + lines_from(chars@, 0) =~= lines_from(chars@, 0));
    }
    while from < chars.len()
        invariant
            from <= chars@.len(),
            chars@ == text@,
            texts(found@) + lines_from(chars@, from as int) == lines_of(chars@),
        decreases chars.len() - from,
    {
        let mut to: usize = from;
        while to < chars.len() && chars[to] != '\n'
            invariant
                from <= to <= chars@.len(),
                line_end(chars@, to as int) == line_end(chars@, from as int),
            decreases chars.len() - to,
        {
            to = to + 1;
        }
        proof {
            lemma_line_end(chars@, from as int);
            assert(line_end(chars@, from as int) == to);
        }
        let end: usize = if to < chars.len() && from < to && chars[to - 1] == '\r' {
            to - 1
        } else {
            to
        };
        let line = text_of(&chars, from, end);
        let ghost before = texts(found@);
        let ghost strings = found@;
        found.push(line);
        proof {
            assert(texts(found@) =~= before.push(line@));
            assert(before + (seq![line@] + lines_from(chars@, to as int + 1)) =~= before.push(line@)
                + lines_from(chars@, to as int + 1));
        }
        if to < chars.len() {
            from = to + 1;
        } else {
            proof {
                assert(lines_from(chars@, to as int + 1) =~= lines_from(chars@, to as int));
            }
            from = to;
        }
    }
    proof {
        assert(texts(found@) + Seq::<Seq<char>>::empty() =~= texts(found@));
    }
    found
}

/// The pieces in order with `between` after every one but the last.
pub open spec fn joined(pieces: Seq<Seq<char>>, between: Seq<char>) -> Seq<char>
    decreases pieces.len(),
{
    if pieces.len() == 0 {
        Seq::empty()
    } else if pieces.len() == 1 {
        pieces[0]
    } else {
        joined(pieces.drop_last(), between) + between + pieces.last()
    }
}

/// The first `count` strings, or all of them, joined by `between`.
pub fn join_first(strings: &Vec<String>, count: usize, between: &str) -> (text: String)
    ensures
        text@ == joined(
            texts(strings@).take(
                if count <= strings@.len() {
                    count as int
                } else {
                    strings@.len() as int
                },
            ),
            between@,
        ),
{
    let end: usize = if count < strings.len() {
        count
    } else {
        strings.len()
    };
    let mut text = String::new();
    let mut i: usize = 0;
    proof {
        assert(joined(texts(strings@).take(0), between@) =~= Seq::empty());
    }
    while i < end
        invariant
            i <= end <= strings@.len(),
            text@ == joined(texts(strings@).take(i as int), between@),
        decreases end - i,
    {
        if i > 0 {
            text.append(between);
        }
        text.append(strings[i].as_str());
        proof {
            let more = texts(strings@).take(i as int + 1);
            assert(more.drop_last() =~= texts(strings@).take(i as int));
            assert(more.last() == strings@[i as int]@);
            if i == 0 {
                assert(Seq::<char>::empty() + strings@[0]@ =~= strings@[0]@);
            }
        }
        i = i + 1;
    }
    text
}

/// One decimal digit.
pub open spec fn digit_char(digit: nat) -> char {
    if digit == 0 { '0' } else if digit == 1 { '1' } else if digit == 2 { '2' } else if digit == 3 {
        '3'
    } else if digit == 4 { '4' } else if digit == 5 { '5' } else if digit == 6 { '6' } else if digit
        == 7 {
        '7'
    } else if digit == 8 { '8' } else { '9' }
}

/// `number` in decimal, without leading zeros.
pub open spec fn decimal_text(number: nat) -> Seq<char>
    decreases number,
{
    if number < 10 {
        seq![digit_char(number)]
    } else {
        decimal_text(number / 10).push(digit_char(number % 10))
    }
}

fn digit(value: u64) -> (c: char)
    requires
        value < 10,
    ensures
        c == digit_char(value as nat),
{
    match value {
        0 => '0',
        1 => '1',
        2 => '2',
        3 => '3',
        4 => '4',
        5 => '5',
        6 => '6',
        7 => '7',
        8 => '8',
        _ => '9',
    }
}

/// `number` in decimal.
pub fn decimal(number: u64) -> (text: String)
    ensures
        text@ == decimal_text(number as nat),
    decreases number,
{
    if number < 10 {
        let mut text = String::new();
        text.push(digit(number));
        proof {
            assert(text@ =~= seq![digit_char(number as nat)]);
        }
        text
    } else {
        let mut text = decimal(number / 10);
        text.push(digit(number % 10));
        text
    }
}

/// `text` with spaces after it until it is `width` characters wide.
pub open spec fn padded(text: Seq<char>, width: nat) -> Seq<char> {
    if text.len() >= width {
        text
    } else {
        text + Seq::new((width - text.len()) as nat, |i: int| ' ')
    }
}

/// `text` with spaces after it until it is `width` characters wide.
pub fn pad(text: &str, width: usize) -> (wide: String)
    ensures
        wide@ == padded(text@, width as nat),
{
    let count: usize = text.unicode_len();
    let mut wide = text.to_owned();
    let mut at: usize = count;
    proof {
        assert(text@ + Seq::new(0, |i: int| ' ') =~= text@);
    }
    while at < width
        invariant
            count == text@.len(),
            count <= at,
            at <= width || at == count,
            wide@ == text@ + Seq::new((at - count) as nat, |i: int| ' '),
        decreases width - at,
    {
        wide.push(' ');
        proof {
            assert((text@ + Seq::new((at - count) as nat, |i: int| ' ')).push(' ') =~= text@
                + Seq::new((at + 1 - count) as nat, |i: int| ' '));
        }
        at = at + 1;
    }
    wide
}

/// The same texts once more.
pub fn copies(strings: &Vec<String>) -> (copy: Vec<String>)
    ensures
        texts(copy@) == texts(strings@),
{
    let mut copy: Vec<String> = Vec::new();
    let mut i: usize = 0;
    while i < strings.len()
        invariant
            i <= strings@.len(),
            copy@.len() == i,
            forall|k: int| 0 <= k < i ==> (#[trigger] copy@[k])@ == strings@[k]@,
        decreases strings.len() - i,
    {
        copy.push(strings[i].clone());
        i = i + 1;
    }
    proof {
        assert(texts(copy@) =~= texts(strings@));
    }
    copy
}

/// Two texts one after the other.
pub fn cat(a: &str, b: &str) -> (text: String)
    ensures
        text@ == a@ + b@,
{
    let mut text = a.to_owned();
    text.append(b);
    text
}

/// Three texts one after the other.
pub fn cat3(a: &str, b: &str, c: &str) -> (text: String)
    ensures
        text@ == a@ + b@ + c@,
{
    let mut text = cat(a, b);
    text.append(c);
    text
}

/// Where the run of characters that are not white space, from `from` on, ends.
pub open spec fn word_end(text: Seq<char>, from: int) -> int
    decreases text.len() - from,
{
    if from < 0 || from >= text.len() || white(text[from]) {
        from
    } else {
        word_end(text, from + 1)
    }
}

/// The words of `text`: the runs of characters between white space.
pub open spec fn words_of(text: Seq<char>) -> Seq<Seq<char>>
    decreases text.len(),
    via words_of_terminates
{
    let rest = trimmed_start(text);
    if rest.len() == 0 {
        Seq::empty()
    } else {
        let end = word_end(rest, 0);
        seq![rest.take(end)] + words_of(rest.skip(end))
    }
}

#[via_fn]
proof fn words_of_terminates(text: Seq<char>) {
    let rest = trimmed_start(text);
    lemma_trimmed_start(text);
    if rest.len() > 0 {
        lemma_word_end(rest, 0);
    }
}

proof fn lemma_trimmed_start(text: Seq<char>)
    ensures
        trimmed_start(text).len() <= text.len(),
        trimmed_start(text).len() > 0 ==> !white(trimmed_start(text)[0]),
    decreases text.len(),
{
    if text.len() > 0 && white(text[0]) {
        lemma_trimmed_start(text.drop_first());
    }
}

proof fn lemma_word_end(text: Seq<char>, from: int)
    requires
        0 <= from <= text.len(),
    ensures
        from <= word_end(text, from) <= text.len(),
        from < text.len() && !white(text[from]) ==> from < word_end(text, from),
        word_end(text, from) < text.len() ==> white(text[word_end(text, from)]),
    decreases text.len() - from,
{
    if from < text.len() && !white(text[from]) {
        lemma_word_end(text, from + 1);
    }
}

/// The end of a word does not depend on what stands before it.
proof fn lemma_word_end_skips(text: Seq<char>, start: int, from: int)
    requires
        0 <= start <= from <= text.len(),
    ensures
        word_end(text, from) - start == word_end(text.skip(start), from - start),
    decreases text.len() - from,
{
    if from < text.len() && !white(text[from]) {
        assert(text.skip(start)[from - start] == text[from]);
        lemma_word_end_skips(text, start, from + 1);
    } else if from < text.len() {
        assert(text.skip(start)[from - start] == text[from]);
    }
}

/// White space in front adds no word.
proof fn lemma_words_of_white(text: Seq<char>, at: int)
    requires
        0 <= at < text.len(),
        white(text[at]),
    ensures
        words_of(text.skip(at)) == words_of(text.skip(at + 1)),
{
    let rest = text.skip(at);
    assert(rest[0] == text[at]);
    assert(rest.drop_first() =~= text.skip(at + 1));
    assert(trimmed_start(rest) == trimmed_start(rest.drop_first()));
}

/// A word in front comes first.
proof fn lemma_words_of_word(text: Seq<char>, at: int)
    requires
        0 <= at < text.len(),
        !white(text[at]),
    ensures
        at < word_end(text, at) <= text.len(),
        words_of(text.skip(at)) == seq![text.subrange(at, word_end(text, at))] + words_of(
            text.skip(word_end(text, at)),
        ),
{
    let rest = text.skip(at);
    let end = word_end(text, at);
    lemma_word_end(text, at);
    lemma_word_end_skips(text, at, at);
    assert(rest[0] == text[at]);
    assert(trimmed_start(rest) == rest);
    assert(rest.take(end - at) =~= text.subrange(at, end));
    assert(rest.skip(end - at) =~= text.skip(end));
}

/// The words of `text`: the runs of characters between white space.
pub fn words(text: &str) -> (found: Vec<String>)
    ensures
        texts(found@) == words_of(text@),
{
    let chars = chars_of(text);
    let mut found: Vec<String> = Vec::new();
    let mut at: usize = 0;
    proof {
        assert(text@.skip(0) =~= text@);
        assert(texts(found@) =~= Seq::empty());
        assert(Seq::empty() + words_of(text@) =~= words_of(text@));
    }
    while at < chars.len()
        invariant
            at <= chars@.len(),
            chars@ == text@,
            texts(found@) + words_of(text@.skip(at as int)) == words_of(text@),
        decreases chars.len() - at,
    {
        if is_white(chars[at]) {
            proof {
                lemma_words_of_white(text@, at as int);
            }
            at = at + 1;
        } else {
            let mut end: usize = at;
            while end < chars.len() && !is_white(chars[end])
                invariant
                    at <= end <= chars@.len(),
                    chars@ == text@,
                    word_end(text@, at as int) == word_end(text@, end as int),
                decreases chars.len() - end,
            {
                end = end + 1;
            }
            let ghost before = texts(found@);
            found.push(text_of(&chars, at, end));
            proof {
                lemma_words_of_word(text@, at as int);
                let word = text@.subrange(at as int, end as int);
                let after = words_of(text@.skip(end as int));
                assert(texts(found@) =~= before.push(word));
                assert(before + (seq![word] + after) =~= before.push(word) + after);
            }
            at = end;
        }
    }
    proof {
        assert(text@.skip(at as int) =~= Seq::empty());
        assert(words_of(Seq::<char>::empty()) =~= Seq::empty());
        assert(texts(found@) + Seq::<Seq<char>>::empty() =~= texts(found@));
    }
    found
}

/// `number` in decimal, with a sign when it is negative.
pub open spec fn signed_text(number: int) -> Seq<char> {
    if number < 0 {
        "-"@ + decimal_text((-number) as nat)
    } else {
        decimal_text(number as nat)
    }
}

/// `number` in decimal, with a sign when it is negative.
pub fn signed(number: i32) -> (text: String)
    ensures
        text@ == signed_text(number as int),
{
    if number < 0 {
        let size: i64 = -(number as i64);
        cat("-", decimal(size as u64).as_str())
    } else {
        decimal(number as u64)
    }
}

/// `text` with every `c` in it written twice.
pub open spec fn doubled(text: Seq<char>, c: char) -> Seq<char>
    decreases text.len(),
{
    if text.len() == 0 {
        Seq::empty()
    } else {
        let start = doubled(text.drop_last(), c).push(text.last());
        if text.last() == c {
            start.push(c)
        } else {
            start
        }
    }
}

/// How often `c` occurs in `text`.
pub open spec fn occurrences(text: Seq<char>, c: char) -> nat
    decreases text.len(),
{
    if text.len() == 0 {
        0
    } else {
        occurrences(text.drop_last(), c) + if text.last() == c {
            1nat
        } else {
            0nat
        }
    }
}

pub proof fn lemma_occurrences_add(a: Seq<char>, b: Seq<char>, c: char)
    ensures
        occurrences(a + b, c) == occurrences(a, c) + occurrences(b, c),
    decreases b.len(),
{
    if b.len() == 0 {
        assert(a + b =~= a);
    } else {
        assert((a + b).drop_last() =~= a + b.drop_last());
        lemma_occurrences_add(a, b.drop_last(), c);
    }
}

/// One more character adds one where it is `c`.
pub proof fn lemma_occurrences_push(text: Seq<char>, last: char, c: char)
    ensures
        occurrences(text.push(last), c) == occurrences(text, c) + if last == c {
            1nat
        } else {
            0nat
        },
{
    assert(text.push(last).drop_last() =~= text);
}

/// A stretch without `c` adds nothing.
pub proof fn lemma_occurrences_stretch(text: Seq<char>, from: int, to: int, c: char)
    requires
        0 <= from <= to <= text.len(),
        forall|i: int| from <= i < to ==> text[i] != c,
    ensures
        occurrences(text.take(to), c) == occurrences(text.take(from), c),
    decreases to - from,
{
    if from < to {
        lemma_occurrences_stretch(text, from, to - 1, c);
        assert(text.take(to) =~= text.take(to - 1).push(text[to - 1]));
        lemma_occurrences_push(text.take(to - 1), text[to - 1], c);
    }
}

/// Doubling a character makes it occur an even number of times.
pub proof fn lemma_doubled_occurrences(text: Seq<char>, c: char)
    ensures
        occurrences(doubled(text, c), c) == 2 * occurrences(text, c),
    decreases text.len(),
{
    if text.len() > 0 {
        let rest = doubled(text.drop_last(), c);
        lemma_doubled_occurrences(text.drop_last(), c);
        lemma_occurrences_push(rest, text.last(), c);
        lemma_occurrences_push(rest.push(text.last()), c, c);
    }
}

/// `text` with every `c` in it written twice.
pub fn double(text: &str, c: char) -> (twice: String)
    ensures
        twice@ == doubled(text@, c),
{
    let chars = chars_of(text);
    let mut twice = String::new();
    let mut i: usize = 0;
    while i < chars.len()
        invariant
            i <= chars@.len(),
            chars@ == text@,
            twice@ == doubled(text@.take(i as int), c),
        decreases chars.len() - i,
    {
        proof {
            assert(text@.take(i as int + 1).drop_last() =~= text@.take(i as int));
        }
        twice.push(chars[i]);
        if chars[i] == c {
            twice.push(c);
        }
        i = i + 1;
    }
    proof {
        assert(text@.take(i as int) =~= text@);
    }
    twice
}

/// How many bytes the first `count` characters of `text` take.
pub open spec fn byte_offset(text: Seq<char>, count: int) -> int {
    vstd::utf8::encode_utf8(text.take(count)).len() as int
}

/// Text is encoded one character after the other.
proof fn lemma_encode_push(text: Seq<char>, c: char)
    ensures
        vstd::utf8::encode_utf8(text.push(c)) == vstd::utf8::encode_utf8(text)
            + vstd::utf8::encode_scalar(c as u32),
    decreases text.len(),
{
    let whole = text.push(c);
    if text.len() == 0 {
        assert(whole.drop_first() =~= Seq::<char>::empty());
        assert(vstd::utf8::encode_utf8(whole.drop_first()) =~= Seq::empty());
        assert(vstd::utf8::encode_utf8(whole) =~= vstd::utf8::encode_scalar(c as u32));
        assert(vstd::utf8::encode_utf8(text) =~= Seq::empty());
    } else {
        assert(whole.drop_first() =~= text.drop_first().push(c));
        lemma_encode_push(text.drop_first(), c);
        assert(vstd::utf8::encode_utf8(whole) =~= vstd::utf8::encode_utf8(text)
            + vstd::utf8::encode_scalar(c as u32));
    }
}

/// One more character takes one to four more bytes.
pub proof fn lemma_byte_offset_step(text: Seq<char>, count: int)
    requires
        0 <= count < text.len(),
    ensures
        byte_offset(text, count + 1) == byte_offset(text, count) + vstd::utf8::encode_scalar(
            text[count] as u32,
        ).len(),
        byte_offset(text, count) < byte_offset(text, count + 1),
{
    assert(text.take(count + 1) =~= text.take(count).push(text[count]));
    lemma_encode_push(text.take(count), text[count]);
}

/// More characters take more bytes.
pub proof fn lemma_byte_offset_grows(text: Seq<char>, from: int, to: int)
    requires
        0 <= from < to <= text.len(),
    ensures
        byte_offset(text, from) < byte_offset(text, to),
    decreases to - from,
{
    lemma_byte_offset_step(text, to - 1);
    if from < to - 1 {
        lemma_byte_offset_grows(text, from, to - 1);
    }
}

/// An ASCII character takes one byte.
pub proof fn lemma_byte_offset_ascii(text: Seq<char>, count: int)
    requires
        all_ascii(text),
        0 <= count <= text.len(),
    ensures
        byte_offset(text, count) == count,
    decreases count,
{
    if count == 0 {
        assert(text.take(0) =~= Seq::<char>::empty());
    } else {
        lemma_byte_offset_ascii(text, count - 1);
        lemma_byte_offset_step(text, count - 1);
        assert((text[count - 1] as u32) < 128);
    }
}

/// How many bytes a character takes.
fn width(c: char) -> (bytes: usize)
    ensures
        bytes == vstd::utf8::encode_scalar(c as u32).len(),
{
    let scalar: u32 = c as u32;
    if scalar <= 0x7f {
        1
    } else if scalar <= 0x7ff {
        2
    } else if scalar <= 0xffff {
        3
    } else {
        4
    }
}

/// Where each character of `text` starts, in bytes, and where the last one ends.
pub fn byte_offsets(text: &str) -> (offsets: Vec<usize>)
    ensures
        offsets@.len() == text@.len() + 1,
        forall|i: int| 0 <= i <= text@.len() ==> #[trigger] offsets@[i] == byte_offset(text@, i),
{
    let chars = chars_of(text);
    let bytes = text.as_bytes();
    let total: usize = bytes.len();
    let mut offsets: Vec<usize> = Vec::new();
    offsets.push(0);
    let mut i: usize = 0;
    proof {
        assert(text@.take(0) =~= Seq::<char>::empty());
        assert(text@.take(text@.len() as int) =~= text@);
    }
    while i < chars.len()
        invariant
            chars@ == text@,
            total == byte_offset(text@, text@.len() as int),
            i <= chars@.len(),
            offsets@.len() == i + 1,
            forall|k: int| 0 <= k <= i ==> #[trigger] offsets@[k] == byte_offset(text@, k),
        decreases chars.len() - i,
    {
        let at: usize = offsets[i];
        proof {
            lemma_byte_offset_step(text@, i as int);
            if i + 1 < text@.len() {
                lemma_byte_offset_grows(text@, i as int + 1, text@.len() as int);
            }
        }
        offsets.push(at + width(chars[i]));
        i = i + 1;
    }
    offsets
}

} // verus!
