//! The rows that are drawn: entries, staged operations, titles, hints and previews.
use crate::globals::{
    self, file_color, level_color, Color, ACCENT, CURSOR_BAR, DIM, MARK, MARK_DOT,
    NF_OCT_FILE_DIRECTORY_FILL, SEARCH, SEARCH_TEXT,
};
use crate::io::dir::{self, DirEntry, EntryView};
use crate::io::fs_ops::{self, Presence};
use crate::log_store::{LogEntry, LogEntryView};
use crate::navigator::help;
use crate::navigator::search::{self, in_characters, match_ranges};
use crate::path::FilePath;
use crate::plan::{Staged, StagedView};
use crate::screen::{self, add_span, Line, LineView, Span, SpanView, Style};
use crate::text::{self, cat, cat3, chars_of, has_char, join_first, pad, text_of};
use vstd::prelude::*;
use vstd::string::StringExecFns;

verus! {

broadcast use {vstd::seq::group_seq_axioms, vstd::seq_lib::group_seq_properties};

// ---------------------------------------------------------------------------
// Shortening
// ---------------------------------------------------------------------------

/// The tail of `text` that fits in `width`, with an ellipsis for what is left out.
pub open spec fn truncated(text: Seq<char>, width: int) -> Seq<char> {
    if text.len() <= width {
        text
    } else if width <= 1 {
        Seq::new(
            if width > 0 {
                1
            } else {
                0
            },
            |i: int| '\u{2026}',
        )
    } else {
        seq!['\u{2026}'] + text.skip(text.len() - (width - 1))
    }
}

/// Keeps the tail of `text`, which for a path is the part that identifies it.
pub fn truncate(text: &str, width: usize) -> (kept: String)
    ensures
        kept@ == truncated(text@, width as int),
{
    let chars = chars_of(text);
    let length: usize = chars.len();
    if length <= width {
        return text.to_owned();
    }
    let mut kept = String::new();
    if width == 0 {
        proof {
            assert(kept@ =~= truncated(text@, 0));
        }
        return kept;
    }
    kept.push('\u{2026}');
    if width > 1 {
        let skipped: usize = length - (width - 1);
        let tail = text_of(&chars, skipped, length);
        kept.append(tail.as_str());
        proof {
            assert(text@.subrange(skipped as int, length as int) =~= text@.skip(skipped as int));
        }
    }
    proof {
        assert(kept@ =~= truncated(text@, width as int));
    }
    kept
}

/// What is shown never takes more room than there is, and what is kept of a text is
/// its end.
pub proof fn law_truncated_fits(text: Seq<char>, width: int)
    requires
        width >= 0,
    ensures
        truncated(text, width).len() <= width,
        text.len() > width && width > 1 ==> truncated(text, width).len() == width
            && truncated(text, width).skip(1) == text.skip(text.len() - (width - 1)),
        text.len() <= width ==> truncated(text, width) == text,
{
    if text.len() > width && width > 1 {
        assert(truncated(text, width).skip(1) =~= text.skip(text.len() - (width - 1)));
    }
}

/// `path` with the home directory written `~`, a whole component only.
pub open spec fn homed(path: Seq<char>, home: Option<Seq<char>>) -> Seq<char> {
    match home {
        Some(home) => {
            let rest = path.skip(home.len() as int);
            if home.is_prefix_of(path) && (rest.len() == 0 || rest[0] == '/') {
                seq!['~'] + rest
            } else {
                path
            }
        },
        None => path,
    }
}

/// `path` with the home directory written `~`.
pub fn shorten_home(path: &str, home: Option<&str>) -> (short: String)
    ensures
        short@ == homed(
            path@,
            match home {
                Some(home) => Some(home@),
                None => None,
            },
        ),
{
    match home {
        None => path.to_owned(),
        Some(given) => {
            let all = chars_of(path);
            let start = chars_of(given);
            if start.len() > all.len() {
                return path.to_owned();
            }
            let mut i: usize = 0;
            while i < start.len()
                invariant
                    i <= start@.len() <= all@.len(),
                    all@ == path@,
                    home == Some(given),
                    start@ == given@,
                    forall|k: int| 0 <= k < i ==> start@[k] == all@[k],
                decreases start.len() - i,
            {
                if start[i] != all[i] {
                    proof {
                        assert(given@[i as int] != path@[i as int]);
                        assert(!given@.is_prefix_of(path@)) by {
                            if given@.is_prefix_of(path@) {
                                assert(path@.take(given@.len() as int)[i as int] == given@[i as int]);
                            }
                        }
                    }
                    return path.to_owned();
                }
                i = i + 1;
            }
            proof {
                assert(given@.is_prefix_of(path@));
                if start@.len() < all@.len() {
                    assert(path@.skip(given@.len() as int)[0] == path@[given@.len() as int]);
                }
            }
            // A whole component only: `/home/ioannis` must not become `~nis`.
            if start.len() < all.len() && all[start.len()] != '/' {
                return path.to_owned();
            }
            let rest = text_of(&all, start.len(), all.len());
            let mut short = String::new();
            short.push('~');
            short.append(rest.as_str());
            proof {
                assert(path@.subrange(given@.len() as int, path@.len() as int) =~= path@.skip(
                    given@.len() as int,
                ));
                assert(short@ =~= seq!['~'] + path@.skip(given@.len() as int));
            }
            short
        },
    }
}

/// The end of the last `/` in `text`, or its start where there is none.
pub open spec fn after_last_slash(text: Seq<char>, to: int) -> int
    decreases to,
{
    if to <= 0 {
        0
    } else if text[to - 1] == '/' {
        to
    } else {
        after_last_slash(text, to - 1)
    }
}

/// A path with everything above its last component dimmed.
pub open spec fn dimmed(shown: Seq<char>) -> LineView {
    let split = after_last_slash(shown, shown.len() as int);
    screen::line_of(
        seq![
            screen::raw(" "@),
            screen::styled(shown.take(split), screen::colored(DIM)),
            screen::styled(shown.skip(split), (Style { bold: true, ..screen::plain() })),
            screen::raw(" "@),
        ],
    )
}

/// The directory being viewed, with everything above the last component dimmed.
pub open spec fn title_of(dir: Seq<u8>, width: u16, home: Option<Seq<char>>) -> LineView {
    dimmed(truncated(homed(text::lossy_text(dir), home), screen::less(width as int, 2)))
}

/// A path with everything above its last component dimmed.
fn dim_above(shown: &str) -> (line: Line)
    ensures
        line@ == dimmed(shown@),
{
    let chars = chars_of(shown);
    let mut split: usize = chars.len();
    while split > 0 && chars[split - 1] != '/'
        invariant
            split <= chars@.len(),
            after_last_slash(chars@, chars@.len() as int) == after_last_slash(
                chars@,
                split as int,
            ),
        decreases split,
    {
        split = split - 1;
    }
    let mut spans: Vec<Span> = Vec::new();
    add_span(&mut spans, " ".to_owned(), Style::new());
    add_span(&mut spans, text_of(&chars, 0, split), Style::of(DIM));
    add_span(
        &mut spans,
        text_of(&chars, split, chars.len()),
        Style { fg: None, bg: None, bold: true, italic: false },
    );
    add_span(&mut spans, " ".to_owned(), Style::new());
    proof {
        assert(shown@.subrange(0, split as int) =~= shown@.take(split as int));
        assert(shown@.subrange(split as int, shown@.len() as int) =~= shown@.skip(split as int));
        assert(screen::span_views(spans@) =~= dimmed(shown@).spans);
    }
    Line::from_spans(spans)
}

/// The directory being viewed, with the home directory shortened and everything
/// above the last component dimmed, so the name of the directory you are in is what
/// reads.
pub fn path_title(dir: &FilePath, width: u16, home: Option<&str>) -> (title: Line)
    ensures
        title@ == title_of(
            dir@,
            width,
            match home {
                Some(home) => Some(home@),
                None => None,
            },
        ),
{
    let shown = shorten_home(dir.display().as_str(), home);
    // Keeping the tail matters: the directory you are in is the last component.
    let shown = truncate(shown.as_str(), width.saturating_sub(2) as usize);
    dim_above(shown.as_str())
}

// ---------------------------------------------------------------------------
// Entries
// ---------------------------------------------------------------------------

/// The icon beside an entry.
pub open spec fn icon_of(entry: EntryView) -> Seq<char> {
    if entry.is_dir {
        NF_OCT_FILE_DIRECTORY_FILL@
    } else {
        " "@
    }
}

/// The icon beside an entry.
pub fn icon_for(entry: &DirEntry) -> (icon: &'static str)
    ensures
        icon@ == icon_of(entry@),
{
    if entry.is_dir {
        NF_OCT_FILE_DIRECTORY_FILL
    } else {
        " "
    }
}

/// The style of the part of a name that the search matched.
pub open spec fn lit() -> Style {
    Style { fg: Some(SEARCH_TEXT), bg: Some(SEARCH), bold: false, italic: false }
}

/// The larger of two numbers.
pub open spec fn most(a: int, b: int) -> int {
    if a > b {
        a
    } else {
        b
    }
}

/// How far `ranges` reach into a name.
pub open spec fn reach(ranges: Seq<(int, int)>) -> int
    decreases ranges.len(),
{
    if ranges.len() == 0 {
        0
    } else {
        most(ranges.last().1, reach(ranges.drop_last()))
    }
}

/// `name` up to the end of the last of `ranges`, cut into the parts in them and the
/// parts between them. Where a range starts before the one ahead of it ended, it
/// starts where that one ended.
pub open spec fn cut_name(name: Seq<char>, ranges: Seq<(int, int)>, style: Style) -> Seq<SpanView>
    decreases ranges.len(),
{
    if ranges.len() == 0 {
        Seq::empty()
    } else {
        let before = ranges.drop_last();
        let at = reach(before);
        let start = most(ranges.last().0, at);
        let end = reach(ranges);
        cut_name(name, before, style).push(
            screen::styled(name.subrange(at, start), style),
        ).push(screen::styled(name.subrange(start, end), lit()))
    }
}

/// `name`, cut into the parts the search matched and the parts it did not.
pub open spec fn spans_of_name(name: Seq<char>, query: Seq<char>, style: Style) -> Seq<SpanView> {
    let ranges = search::char_ranges_of(name, query);
    cut_name(name, ranges, style).push(screen::styled(name.skip(reach(ranges)), style))
}

pub proof fn lemma_reach(ranges: Seq<(int, int)>, length: int)
    requires
        search::ranges_fit(ranges, length),
        length >= 0,
    ensures
        0 <= reach(ranges) <= length,
        ranges.len() > 0 ==> reach(ranges) == ranges.last().1,
        ranges.len() > 0 ==> reach(ranges.drop_last()) <= reach(ranges),
        ranges.len() > 0 ==> ranges.last().0 < reach(ranges),
    decreases ranges.len(),
{
    if ranges.len() > 0 {
        let before = ranges.drop_last();
        assert(search::ranges_fit(before, length)) by {
            assert(forall|i: int| 0 <= i < before.len() ==> #[trigger] before[i] == ranges[i]);
        }
        lemma_reach(before, length);
        assert(ranges[ranges.len() - 1].1 <= length);
        if before.len() > 0 {
            assert(before.last() == ranges[ranges.len() - 2]);
            assert(ranges[ranges.len() - 2].1 <= ranges[ranges.len() - 1].1);
        }
    }
}

/// `name`, cut into the parts the search matched and the parts it did not, so the
/// matches can be lit: vim's hlsearch, over a listing.
pub fn name_spans(name: &str, query: &str, style: Style) -> (spans: Vec<Span>)
    ensures
        screen::span_views(spans@) == spans_of_name(name@, query@, style),
        // However it is cut and lit, what is shown of a name is the name.
        span_text(screen::span_views(spans@)) == name@,
        // A row that the search can go to lights up, and one that it cannot does not.
        search::matching(name@, query@) ==> spans@.len() > 1 && spans@[1]@.style == lit()
            && spans@[1]@.text.len() > 0,
        !search::matching(name@, query@) ==> screen::span_views(spans@) == seq![
            screen::styled(name@, style),
        ],
{
    let found = in_characters(name, query, &match_ranges(name, query));
    let chars = chars_of(name);
    let ghost ranges = search::char_ranges_of(name@, query@);
    proof {
        assert forall|i: int| 0 <= i < ranges.len() implies #[trigger] ranges[i] == (
            found@[i].0 as int,
            found@[i].1 as int,
        ) by {
            assert(search::range_views(found@)[i] == ranges[i]);
        }
        assert(ranges.len() == found@.len());
        assert(search::ranges_fit(ranges, name@.len() as int));
    }
    let mut spans: Vec<Span> = Vec::new();
    let mut at: usize = 0;
    let mut i: usize = 0;
    proof {
        assert(screen::span_views(spans@) =~= cut_name(name@, ranges.take(0), style));
    }
    while i < found.len()
        invariant
            i <= found@.len(),
            chars@ == name@,
            ranges.len() == found@.len(),
            search::ranges_fit(ranges, name@.len() as int),
            forall|k: int|
                0 <= k < ranges.len() ==> #[trigger] ranges[k] == (
                    found@[k].0 as int,
                    found@[k].1 as int,
                ),
            at == reach(ranges.take(i as int)),
            at <= name@.len(),
            screen::span_views(spans@) == cut_name(name@, ranges.take(i as int), style),
        decreases found.len() - i,
    {
        let ghost more = ranges.take(i as int + 1);
        proof {
            assert(more.drop_last() =~= ranges.take(i as int));
            assert(more.last() == ranges[i as int]);
            assert(search::ranges_fit(more, name@.len() as int)) by {
                assert(forall|k: int| 0 <= k < more.len() ==> #[trigger] more[k] == ranges[k]);
            }
            lemma_reach(more, name@.len() as int);
        }
        let start: usize = if found[i].0 > at {
            found[i].0
        } else {
            at
        };
        let end: usize = found[i].1;
        let ghost before = screen::span_views(spans@);
        add_span(&mut spans, text_of(&chars, at, start), style);
        add_span(
            &mut spans,
            text_of(&chars, start, end),
            Style { fg: Some(SEARCH_TEXT), bg: Some(SEARCH), bold: false, italic: false },
        );
        at = end;
        i = i + 1;
    }
    proof {
        assert(ranges.take(i as int) =~= ranges);
        assert(name@.subrange(at as int, name@.len() as int) =~= name@.skip(at as int));
    }
    add_span(&mut spans, text_of(&chars, at, chars.len()), style);
    proof {
        lemma_lighting_keeps_the_name(name@, query@, style);
        lemma_what_is_found_is_lit(name@, query@, style);
        assert(screen::span_views(spans@).len() == spans@.len());
        if search::matching(name@, query@) {
            assert(screen::span_views(spans@)[1] == spans@[1]@);
        }
    }
    spans
}

/// The texts of spans, one after the other.
pub open spec fn span_text(spans: Seq<SpanView>) -> Seq<char>
    decreases spans.len(),
{
    if spans.len() == 0 {
        Seq::empty()
    } else {
        span_text(spans.drop_last()) + spans.last().text
    }
}

proof fn lemma_span_text_push(spans: Seq<SpanView>, span: SpanView)
    ensures
        span_text(spans.push(span)) == span_text(spans) + span.text,
{
    assert(spans.push(span).drop_last() =~= spans);
}

proof fn lemma_cut_name(name: Seq<char>, ranges: Seq<(int, int)>, style: Style)
    requires
        search::ranges_fit(ranges, name.len() as int),
    ensures
        span_text(cut_name(name, ranges, style)) == name.take(reach(ranges)),
        0 <= reach(ranges) <= name.len(),
    decreases ranges.len(),
{
    lemma_reach(ranges, name.len() as int);
    if ranges.len() == 0 {
        assert(name.take(0) =~= Seq::empty());
    } else {
        let before = ranges.drop_last();
        assert(search::ranges_fit(before, name.len() as int)) by {
            assert(forall|i: int| 0 <= i < before.len() ==> #[trigger] before[i] == ranges[i]);
        }
        lemma_cut_name(name, before, style);
        let at = reach(before);
        let start = most(ranges.last().0, at);
        let end = reach(ranges);
        let head = cut_name(name, before, style);
        let gap = screen::styled(name.subrange(at, start), style);
        let shown = screen::styled(name.subrange(start, end), lit());
        lemma_span_text_push(head, gap);
        lemma_span_text_push(head.push(gap), shown);
        assert(name.take(at) + name.subrange(at, start) + name.subrange(start, end) =~= name.take(
            end,
        ));
    }
}

/// However it is cut and lit, what is shown of a name is the name.
pub proof fn lemma_lighting_keeps_the_name(name: Seq<char>, query: Seq<char>, style: Style)
    requires
        search::ranges_fit(search::char_ranges_of(name, query), name.len() as int),
    ensures
        span_text(spans_of_name(name, query, style)) == name,
{
    let ranges = search::char_ranges_of(name, query);
    lemma_cut_name(name, ranges, style);
    lemma_span_text_push(
        cut_name(name, ranges, style),
        screen::styled(name.skip(reach(ranges)), style),
    );
    assert(name.take(reach(ranges)) + name.skip(reach(ranges)) =~= name);
}

/// The first match starts before anything else is lit.
proof fn lemma_first_lit(name: Seq<char>, ranges: Seq<(int, int)>, style: Style)
    requires
        ranges.len() > 0,
        search::ranges_fit(ranges, name.len() as int),
    ensures
        cut_name(name, ranges, style).len() == 2 * ranges.len(),
        cut_name(name, ranges, style)[1] == screen::styled(
            name.subrange(ranges[0].0, ranges[0].1),
            lit(),
        ),
    decreases ranges.len(),
{
    let before = ranges.drop_last();
    assert(search::ranges_fit(before, name.len() as int)) by {
        assert(forall|i: int| 0 <= i < before.len() ==> #[trigger] before[i] == ranges[i]);
    }
    lemma_reach(ranges, name.len() as int);
    if before.len() > 0 {
        lemma_first_lit(name, before, style);
    } else {
        assert(cut_name(name, before, style) =~= Seq::empty());
        assert(reach(before) == 0);
    }
}

/// A row that the search can go to lights up, and one that it cannot does not.
proof fn lemma_what_is_found_is_lit(name: Seq<char>, query: Seq<char>, style: Style)
    requires
        search::ranges_fit(search::char_ranges_of(name, query), name.len() as int),
    ensures
        search::matching(name, query) ==> spans_of_name(name, query, style).len() > 1
            && spans_of_name(name, query, style)[1].style == lit() && spans_of_name(name, query, style)[1].text.len() > 0,
        !search::matching(name, query) ==> spans_of_name(name, query, style) == seq![
            screen::styled(name, style),
        ],
{
    let ranges = search::char_ranges_of(name, query);
    if ranges.len() > 0 {
        lemma_first_lit(name, ranges, style);
        assert(ranges[0].0 < ranges[0].1);
    } else {
        assert(name.skip(0) =~= name);
        assert(spans_of_name(name, query, style) =~= seq![screen::styled(name, style)]);
    }
}

/// One entry of the listing.
pub open spec fn entry_row(
    entry: EntryView,
    under_cursor: bool,
    marked: bool,
    query: Seq<char>,
) -> LineView {
    let color = globals::name_color(entry.name, entry.is_dir);
    let name = Style { bold: under_cursor, ..screen::colored(color) };
    screen::line_of(
        seq![
            screen::styled(
                if under_cursor {
                    CURSOR_BAR@
                } else {
                    " "@
                },
                screen::colored(ACCENT),
            ),
            screen::styled(
                if marked {
                    MARK_DOT@
                } else {
                    " "@
                },
                screen::colored(MARK),
            ),
            screen::raw(" "@),
            screen::styled(icon_of(entry), screen::colored(color)),
            screen::raw(" "@),
        ] + spans_of_name(entry.name, query, name),
    )
}

/// One entry of the listing.
pub fn entry_line(entry: &DirEntry, under_cursor: bool, marked: bool, query: &str) -> (line: Line)
    ensures
        line@ == entry_row(entry@, under_cursor, marked, query@),
{
    let color = file_color(entry.name.as_str(), entry.is_dir);
    let mut name = Style::of(color);
    name.bold = under_cursor;
    let mut spans: Vec<Span> = Vec::new();
    add_span(
        &mut spans,
        if under_cursor {
            CURSOR_BAR.to_owned()
        } else {
            " ".to_owned()
        },
        Style::of(ACCENT),
    );
    add_span(
        &mut spans,
        if marked {
            MARK_DOT.to_owned()
        } else {
            " ".to_owned()
        },
        Style::of(MARK),
    );
    add_span(&mut spans, " ".to_owned(), Style::new());
    add_span(&mut spans, icon_for(entry).to_owned(), Style::of(color));
    add_span(&mut spans, " ".to_owned(), Style::new());
    let ghost head = screen::span_views(spans@);
    let mut rest = name_spans(entry.name.as_str(), query, name);
    let ghost tail = screen::span_views(rest@);
    spans.append(&mut rest);
    proof {
        assert(screen::span_views(spans@) =~= head + tail);
        assert(screen::span_views(spans@) =~= entry_row(
            entry@,
            under_cursor,
            marked,
            query@,
        ).spans);
    }
    Line::from_spans(spans)
}

// ---------------------------------------------------------------------------
// Staged operations
// ---------------------------------------------------------------------------

/// What is wrong with a staged operation. A failure from the last apply outranks a
/// problem: it is what actually happened.
pub open spec fn wrong_with(staged: StagedView, presence: Presence) -> Option<Seq<char>> {
    match staged.failure {
        Some(failure) => Some(failure),
        None => match fs_ops::blocked_by(staged.op, presence) {
            Some(problem) => Some(problem.words()),
            None => None,
        },
    }
}

/// What is wrong, as it stands at the end of a row.
pub open spec fn wrong_text(wrong: Option<Seq<char>>) -> Seq<char> {
    match wrong {
        Some(words) => "  \u{2717} "@ + words,
        None => Seq::empty(),
    }
}

/// One staged operation, with whatever is wrong with it.
pub open spec fn staged_row(
    staged: StagedView,
    presence: Presence,
    selected: bool,
    width: u16,
    home: Option<Seq<char>>,
) -> LineView {
    let described = staged.op.described();
    let wrong = wrong_with(staged, presence);
    let status = wrong_text(wrong);
    let start = seq![
        screen::styled(
            if selected {
                CURSOR_BAR@
            } else {
                " "@
            },
            screen::colored(ACCENT),
        ),
        screen::raw(" "@),
        screen::styled(text::padded(described.verb, 7), screen::colored(Color::Yellow)),
        screen::raw(described.subject),
    ];
    let middle = match described.destination {
        Some(destination) => {
            let spent = 2 + 7 + described.subject.len() + 3 + status.len();
            seq![
                screen::styled(" \u{2192} "@, screen::colored(DIM)),
                screen::raw(
                    truncated(homed(destination, home), screen::less(width as int, spent as int)),
                ),
            ]
        },
        None => Seq::empty(),
    };
    let end = if wrong is Some {
        seq![screen::styled(status, screen::colored(Color::Red))]
    } else {
        Seq::empty()
    };
    screen::line_of(start + middle + end)
}

/// What is wrong with a staged operation, as it stands at the end of its row.
fn status_of(staged: &Staged, presence: Presence) -> (status: Option<String>)
    ensures
        match status {
            Some(status) => {
                &&& wrong_with(staged@, presence) is Some
                &&& status@ == wrong_text(wrong_with(staged@, presence))
            },
            None => wrong_with(staged@, presence) is None,
        },
{
    match &staged.failure {
        Some(failure) => Some(cat("  \u{2717} ", failure.as_str())),
        None => match fs_ops::problem(&staged.op, presence) {
            Some(problem) => Some(cat("  \u{2717} ", problem.as_str())),
            None => None,
        },
    }
}

/// One staged operation, with whatever is wrong with it.
///
/// Shared by the plan panel and the review screen so a row cannot say two
/// different things about the same operation depending on where you look.
pub fn plan_row(
    staged: &Staged,
    presence: Presence,
    selected: bool,
    width: u16,
    home: Option<&str>,
) -> (line: Line)
    ensures
        line@ == staged_row(
            staged@,
            presence,
            selected,
            width,
            match home {
                Some(home) => Some(home@),
                None => None,
            },
        ),
{
    let ghost home_view = match home {
        Some(home) => Some(home@),
        None => None,
    };
    let described = staged.op.describe();
    let status = status_of(staged, presence);
    let mut spans: Vec<Span> = Vec::new();
    add_span(
        &mut spans,
        if selected {
            CURSOR_BAR.to_owned()
        } else {
            " ".to_owned()
        },
        Style::of(ACCENT),
    );
    add_span(&mut spans, " ".to_owned(), Style::new());
    add_span(&mut spans, pad(described.verb, 7), Style::of(Color::Yellow));
    add_span(&mut spans, described.subject.clone(), Style::new());
    let ghost start = screen::span_views(spans@);
    let ghost mut middle: Seq<SpanView> = Seq::empty();
    // The name being acted on and the reason a row is blocked both stay whole; the
    // destination path is the only part with width to give up.
    match &described.destination {
        Some(destination) => {
            let subject: usize = described.subject.as_str().unicode_len();
            let reason: usize = match &status {
                Some(status) => status.as_str().unicode_len(),
                None => 0,
            };
            let spent: usize = subject.saturating_add(12).saturating_add(reason);
            let room: usize = (width as usize).saturating_sub(spent);
            let short = shorten_home(destination.as_str(), home);
            add_span(&mut spans, " \u{2192} ".to_owned(), Style::of(DIM));
            add_span(&mut spans, truncate(short.as_str(), room), Style::new());
            proof {
                let long = 2 + 7 + subject + 3 + reason;
                assert(room == screen::less(width as int, long));
                middle = seq![
                    screen::styled(" \u{2192} "@, screen::colored(DIM)),
                    screen::raw(truncated(homed(destination@, home_view), room as int)),
                ];
                assert(screen::span_views(spans@) =~= start + middle);
            }
        },
        None => {
            proof {
                assert(start + middle =~= start);
            }
        },
    }
    match status {
        Some(status) => {
            add_span(&mut spans, status, Style::of(Color::Red));
        },
        None => {},
    }
    proof {
        assert(screen::span_views(spans@) =~= staged_row(
            staged@,
            presence,
            selected,
            width,
            home_view,
        ).spans);
    }
    Line::from_spans(spans)
}

// ---------------------------------------------------------------------------
// The log, hints and previews
// ---------------------------------------------------------------------------

/// A log entry as a coloured dot and its message.
pub open spec fn spans_of_entry(entry: LogEntryView) -> Seq<SpanView> {
    seq![
        screen::styled("\u{25cf}"@, screen::colored(globals::color_of_level(entry.level))),
        screen::raw(" "@),
        screen::raw(entry.message),
    ]
}

/// A log entry as a coloured dot and its message, shared by the status line and
/// the log panel so one cannot drift from the other.
pub fn log_spans(entry: &LogEntry) -> (spans: Vec<Span>)
    ensures
        screen::span_views(spans@) == spans_of_entry(entry@),
{
    let mut spans: Vec<Span> = Vec::new();
    add_span(&mut spans, "\u{25cf}".to_owned(), Style::of(level_color(entry.level)));
    add_span(&mut spans, " ".to_owned(), Style::new());
    add_span(&mut spans, entry.message.clone(), Style::new());
    proof {
        assert(screen::span_views(spans@) =~= spans_of_entry(entry@));
    }
    spans
}

/// Keys with what they do, for a footer.
pub open spec fn spans_of_hints(pairs: Seq<(Seq<char>, Seq<char>)>) -> Seq<SpanView>
    decreases pairs.len(),
{
    if pairs.len() == 0 {
        Seq::empty()
    } else {
        let before = spans_of_hints(pairs.drop_last());
        let (key, what) = pairs.last();
        let spaced = if before.len() > 0 {
            before.push(screen::raw("   "@))
        } else {
            before
        };
        spaced.push(screen::styled(key, screen::colored(ACCENT))).push(
            screen::styled(" "@ + what, screen::colored(DIM)),
        )
    }
}

/// `key description` pairs for a footer, keys picked out and the rest receding.
pub fn hints(pairs: &Vec<(&'static str, &'static str)>) -> (spans: Vec<Span>)
    ensures
        screen::span_views(spans@) == spans_of_hints(help::pair_views(pairs@)),
{
    let ghost all = help::pair_views(pairs@);
    let mut spans: Vec<Span> = Vec::new();
    let mut i: usize = 0;
    proof {
        assert(screen::span_views(spans@) =~= spans_of_hints(all.take(0)));
    }
    while i < pairs.len()
        invariant
            i <= pairs@.len(),
            all == help::pair_views(pairs@),
            screen::span_views(spans@) == spans_of_hints(all.take(i as int)),
            screen::span_views(spans@).len() == spans@.len(),
        decreases pairs.len() - i,
    {
        proof {
            assert(all.take(i as int + 1).drop_last() =~= all.take(i as int));
            assert(all.take(i as int + 1).last() == (pairs@[i as int].0@, pairs@[i as int].1@));
        }
        let (key, what) = pairs[i];
        if spans.len() > 0 {
            add_span(&mut spans, "   ".to_owned(), Style::new());
        }
        add_span(&mut spans, key.to_owned(), Style::of(ACCENT));
        add_span(&mut spans, cat(" ", what), Style::of(DIM));
        i = i + 1;
    }
    proof {
        assert(all.take(i as int) =~= all);
    }
    spans
}

/// Whether a text stands in for a preview rather than being one.
pub open spec fn stands_in(content: Seq<char>) -> bool {
    &&& content.len() > 0
    &&& content[0] == '('
    &&& content.last() == ')'
    &&& !content.contains('\n')
}

/// How a preview looks.
pub open spec fn preview_look(content: Seq<char>) -> Style {
    if stands_in(content) {
        Style { fg: Some(DIM), bg: None, bold: false, italic: true }
    } else {
        screen::plain()
    }
}

/// How preview content looks, with the "(cannot read file)" stand-ins dimmed so they
/// do not read as the file's own first line.
pub fn preview_text(content: &str) -> (style: Style)
    ensures
        style == preview_look(content@),
{
    let chars = chars_of(content);
    let placeholder = chars.len() > 0 && chars[0] == '(' && chars[chars.len() - 1] == ')'
        && !has_char(&chars, '\n');
    if placeholder {
        Style { fg: Some(DIM), bg: None, bold: false, italic: true }
    } else {
        Style::new()
    }
}

/// The entries of a directory as lines of text.
pub open spec fn entry_texts(entries: Seq<EntryView>) -> Seq<Seq<char>> {
    Seq::new(entries.len(), |i: int| icon_of(entries[i]) + "  "@ + entries[i].name)
}

/// The preview of a directory in `rows` rows.
pub open spec fn listing_preview(entries: Seq<EntryView>, rows: int) -> Seq<char> {
    if entries.len() == 0 {
        "(empty directory)"@
    } else {
        text::joined(entry_texts(entries).take(screen::least(rows, entries.len() as int)), "\n"@)
    }
}

/// The preview of a directory in `rows` rows.
pub fn directory_preview(entries: &Vec<DirEntry>, rows: usize) -> (content: String)
    ensures
        content@ == listing_preview(dir::entry_views(entries@), rows as int),
{
    if entries.len() == 0 {
        return "(empty directory)".to_owned();
    }
    let ghost all = entry_texts(dir::entry_views(entries@));
    let count: usize = if rows < entries.len() {
        rows
    } else {
        entries.len()
    };
    let mut shown: Vec<String> = Vec::new();
    let mut i: usize = 0;
    while i < count
        invariant
            i <= count <= entries@.len(),
            all == entry_texts(dir::entry_views(entries@)),
            shown@.len() == i,
            forall|k: int| 0 <= k < i ==> (#[trigger] shown@[k])@ == all[k],
        decreases count - i,
    {
        proof {
            assert(dir::entry_views(entries@)[i as int] == entries@[i as int]@);
        }
        shown.push(cat3(icon_for(&entries[i]), "  ", entries[i].name.as_str()));
        i = i + 1;
    }
    proof {
        assert(text::texts(shown@) =~= all.take(count as int));
        assert(text::texts(shown@).take(count as int) =~= all.take(count as int));
    }
    join_first(&shown, count, "\n")
}

} // verus!
