//! What the rows that are drawn say.
use crate::globals::Color;
use crate::io::dir::EntryView;
use crate::io::fs_ops::{self, Presence};
use crate::logging::store::LogLevel;
use crate::navigator::rows;
use crate::navigator::search;
use crate::navigator::search_laws;
use crate::navigator::staging_laws;
use crate::path;
use crate::path_laws;
use crate::plan::{self, OpView, StagedView};
use crate::screen::{self, SpanView, Style};
use crate::text;
use vstd::prelude::*;

verus! {

broadcast use {vstd::seq::group_seq_axioms, vstd::seq_lib::group_seq_properties};

/// A row of the listing has the bar exactly under the cursor, the dot exactly where it is
/// marked, and the folder exactly for a directory; what stands behind them is the name,
/// bold exactly under the cursor.
pub proof fn law_what_a_row_shows(
    entry: EntryView,
    under_cursor: bool,
    marked: bool,
    query: Seq<char>,
)
    requires
        search::lowers_to_something(entry.name),
    ensures
        ({
            let spans = rows::entry_row(entry, under_cursor, marked, query).spans;
            &&& spans.len() >= 6
            &&& spans[0].text == if under_cursor {
                "\u{258d}"@
            } else {
                " "@
            }
            &&& spans[1].text == if marked {
                "\u{25cf}"@
            } else {
                " "@
            }
            &&& spans[3].text == if entry.is_dir {
                "\u{f07b}"@
            } else {
                " "@
            }
            &&& rows::span_text(spans.skip(5)) == entry.name
            &&& spans.last().style.bold == under_cursor
        }),
{
    search::lemma_ranges_fit(entry.name, query);
    let spans = rows::entry_row(entry, under_cursor, marked, query).spans;
    let color = crate::globals::name_color(entry.name, entry.is_dir);
    let style = Style { bold: under_cursor, ..screen::colored(color) };
    rows::lemma_lighting_keeps_the_name(entry.name, query, style);
    assert(spans.skip(5) =~= rows::spans_of_name(entry.name, query, style));
    assert(spans.last() == rows::spans_of_name(entry.name, query, style).last());
}

/// Of each character of some spans, whether it is lit as a match is.
pub open spec fn lit_flags(spans: Seq<SpanView>) -> Seq<bool>
    decreases spans.len(),
{
    if spans.len() == 0 {
        Seq::empty()
    } else {
        lit_flags(spans.drop_last()) + Seq::new(
            spans.last().text.len(),
            |i: int| spans.last().style.bg == Some(Color::Yellow),
        )
    }
}

/// Whether a character is in one of the ranges.
pub open spec fn in_a_range(ranges: Seq<(int, int)>, at: int) -> bool {
    exists|i: int| 0 <= i < ranges.len() && (#[trigger] ranges[i]).0 <= at < ranges[i].1
}

/// Whether the ranges come one behind the other.
pub open spec fn apart(ranges: Seq<(int, int)>) -> bool {
    forall|i: int, j: int|
        0 <= i < j < ranges.len() ==> (#[trigger] ranges[i]).1 <= (#[trigger] ranges[j]).0
}

proof fn lemma_lit_push(spans: Seq<SpanView>, span: SpanView)
    ensures
        lit_flags(spans.push(span)) == lit_flags(spans) + Seq::new(
            span.text.len(),
            |i: int| span.style.bg == Some(Color::Yellow),
        ),
{
    assert(spans.push(span).drop_last() =~= spans);
}

proof fn lemma_cut_lit(name: Seq<char>, ranges: Seq<(int, int)>, style: Style)
    requires
        search::ranges_fit(ranges, name.len() as int),
        apart(ranges),
        style.bg is None,
    ensures
        lit_flags(rows::cut_name(name, ranges, style)).len() == rows::reach(ranges),
        forall|k: int|
            0 <= k < rows::reach(ranges) ==> #[trigger] lit_flags(
                rows::cut_name(name, ranges, style),
            )[k] == in_a_range(ranges, k),
        forall|k: int| in_a_range(ranges, k) ==> k < rows::reach(ranges),
    decreases ranges.len(),
{
    rows::lemma_reach(ranges, name.len() as int);
    let cut = rows::cut_name(name, ranges, style);
    if ranges.len() == 0 {
        assert(lit_flags(cut) =~= Seq::empty());
    } else {
        let before = ranges.drop_last();
        assert(forall|i: int| 0 <= i < before.len() ==> #[trigger] before[i] == ranges[i]);
        lemma_cut_lit(name, before, style);
        rows::lemma_reach(before, name.len() as int);
        let at = rows::reach(before);
        let start = rows::most(ranges.last().0, at);
        let end = rows::reach(ranges);
        if before.len() > 0 {
            assert(ranges[before.len() - 1].1 <= ranges[ranges.len() - 1].0);
        }
        assert(start == ranges.last().0);
        let head = rows::cut_name(name, before, style);
        let gap = screen::styled(name.subrange(at, start), style);
        let shown = screen::styled(name.subrange(start, end), rows::lit());
        lemma_lit_push(head, gap);
        lemma_lit_push(head.push(gap), shown);
        assert forall|k: int| 0 <= k < end implies #[trigger] lit_flags(cut)[k] == in_a_range(
            ranges,
            k,
        ) by {
            if in_a_range(before, k) {
                let i = choose|i: int|
                    0 <= i < before.len() && (#[trigger] before[i]).0 <= k < before[i].1;
                assert(ranges[i].0 <= k < ranges[i].1);
            }
            if k >= start {
                assert(ranges[ranges.len() - 1].0 <= k < ranges[ranges.len() - 1].1);
            } else if in_a_range(ranges, k) {
                let i = choose|i: int|
                    0 <= i < ranges.len() && (#[trigger] ranges[i]).0 <= k < ranges[i].1;
                assert(before[i] == ranges[i]);
            }
        }
        assert forall|k: int| in_a_range(ranges, k) implies k < end by {
            let i = choose|i: int|
                0 <= i < ranges.len() && (#[trigger] ranges[i]).0 <= k < ranges[i].1;
            if i < ranges.len() - 1 {
                assert(ranges[i].1 <= ranges[ranges.len() - 1].0);
            }
        }
    }
}

proof fn lemma_matches_apart(name: Seq<char>, query: Seq<char>)
    requires
        search_laws::holds_a_capital(query) || search_laws::lowers_one_to_one(name),
    ensures
        search::ranges_fit(search::char_ranges_of(name, query), name.len() as int),
        apart(search::char_ranges_of(name, query)),
{
    if query.len() > 0 {
        assert(search_laws::holds_a_capital(query) == search::has_capital(query));
        if !search::has_capital(query) {
            assert forall|i: int| 0 <= i < name.len() implies text::lowercase_of(
                #[trigger] name[i],
            ).len() > 0 by {}
        }
        search::lemma_ranges_fit(name, query);
        assert(apart(search::char_ranges_of(name, query))) by {
            search_laws::law_what_is_found_of_a_name(name, query);
        }
    }
}

proof fn lemma_name_lit(name: Seq<char>, ranges: Seq<(int, int)>, style: Style)
    requires
        search::ranges_fit(ranges, name.len() as int),
        apart(ranges),
        style.bg is None,
    ensures
        ({
            let flags = lit_flags(
                rows::cut_name(name, ranges, style).push(
                    screen::styled(name.skip(rows::reach(ranges)), style),
                ),
            );
            &&& flags.len() == name.len()
            &&& forall|k: int| 0 <= k < name.len() ==> #[trigger] flags[k] == in_a_range(ranges, k)
        }),
{
    lemma_cut_lit(name, ranges, style);
    rows::lemma_reach(ranges, name.len() as int);
    let cut = rows::cut_name(name, ranges, style);
    let reached = rows::reach(ranges);
    let rest = screen::styled(name.skip(reached), style);
    lemma_lit_push(cut, rest);
    let flags = lit_flags(cut.push(rest));
    assert forall|k: int| 0 <= k < name.len() implies #[trigger] flags[k] == in_a_range(
        ranges,
        k,
    ) by {
        if k < reached {
            assert(flags[k] == lit_flags(cut)[k]);
        } else {
            assert(!in_a_range(ranges, k));
        }
    }
}

/// Of a name, exactly those characters are lit that a match of the query covers.
pub proof fn law_what_is_lit(name: Seq<char>, query: Seq<char>, style: Style)
    requires
        search_laws::holds_a_capital(query) || search_laws::lowers_one_to_one(name),
        style.bg is None,
    ensures
        lit_flags(rows::spans_of_name(name, query, style)).len() == name.len(),
        forall|k: int|
            0 <= k < name.len() ==> #[trigger] lit_flags(
                rows::spans_of_name(name, query, style),
            )[k] == in_a_range(search::char_ranges_of(name, query), k),
        query.len() == 0 ==> forall|k: int|
            0 <= k < name.len() ==> !#[trigger] lit_flags(
                rows::spans_of_name(name, query, style),
            )[k],
{
    lemma_matches_apart(name, query);
    lemma_name_lit(name, search::char_ranges_of(name, query), style);
}

/// A path in the home directory is shown with a tilde for it, and any other as it is: one
/// whose first component only begins like the home directory is not in it.
pub proof fn law_home_is_a_tilde(home: Seq<char>, path: Seq<char>, rest: Seq<char>)
    ensures
        rows::homed(path, None) == path,
        rest.len() == 0 || rest[0] == '/' ==> rows::homed(home + rest, Some(home)) == seq!['~']
            + rest,
        rest.len() > 0 && rest[0] != '/' ==> rows::homed(home + rest, Some(home)) == home + rest,
        !home.is_prefix_of(path) ==> rows::homed(path, Some(home)) == path,
{
    assert((home + rest).skip(home.len() as int) =~= rest);
    assert((home + rest).take(home.len() as int) =~= home);
    assert(home.is_prefix_of(home + rest));
}

proof fn lemma_after_last_slash(text: Seq<char>, to: int)
    requires
        0 <= to <= text.len(),
    ensures
        0 <= rows::after_last_slash(text, to) <= to,
        rows::after_last_slash(text, to) > 0 ==> text[rows::after_last_slash(text, to) - 1] == '/',
        forall|k: int| rows::after_last_slash(text, to) <= k < to ==> text[k] != '/',
    decreases to,
{
    if to > 0 && text[to - 1] != '/' {
        lemma_after_last_slash(text, to - 1);
    }
}

/// The title is the path between two spaces; what stands out in it is what follows the last
/// slash.
pub proof fn law_the_title_is_the_path(shown: Seq<char>)
    ensures
        ({
            let spans = rows::dimmed(shown).spans;
            &&& spans.len() == 4
            &&& spans[0].text == " "@ && spans[3].text == " "@
            &&& spans[1].text + spans[2].text == shown
            &&& spans[1].text.len() > 0 ==> spans[1].text.last() == '/'
            &&& !spans[2].text.contains('/')
            &&& spans[2].style.bold && !spans[1].style.bold
        }),
{
    lemma_after_last_slash(shown, shown.len() as int);
    let split = rows::after_last_slash(shown, shown.len() as int);
    assert(shown.take(split) + shown.skip(split) =~= shown);
    let tail = shown.skip(split);
    assert forall|k: int| 0 <= k < tail.len() implies tail[k] != '/' by {
        assert(tail[k] == shown[split + k]);
    }
}

/// Whether two paths lie in the same directory; the root and the empty path lie in none.
pub open spec fn side_by_side(a: Seq<u8>, b: Seq<u8>) -> bool {
    let one = path::components(a);
    let other = path::components(b);
    let one_above = one.len() == 0 || one == seq![seq![47u8]];
    let other_above = other.len() == 0 || other == seq![seq![47u8]];
    if one_above || other_above {
        one_above && other_above
    } else {
        one.drop_last() == other.drop_last()
    }
}

/// What an operation is called: a move within one directory is a rename and says only the
/// new name, and any other move or copy says where to. What it is about is named by its last
/// component.
pub proof fn law_what_an_operation_is_called(op: OpView)
    ensures
        op matches OpView::CreateFile(at) ==> op.described().verb == "create"@
            && op.described().subject == plan::shown_name(at) && op.described().destination
            is None,
        op matches OpView::CreateDir(at) ==> op.described().verb == "mkdir"@
            && op.described().subject == plan::shown_name(at) && op.described().destination
            is None,
        op matches OpView::Trash(at) ==> op.described().verb == "trash"@
            && op.described().subject == plan::shown_name(at) && op.described().destination
            is None,
        op matches OpView::Copy { from, to } ==> op.described().verb == "copy"@
            && op.described().subject == plan::shown_name(from) && op.described().destination
            == Some(text::lossy_text(to)),
        op matches OpView::Move { from, to } ==> op.described().subject == plan::shown_name(from)
            && if side_by_side(from, to) {
            op.described().verb == "rename"@ && op.described().destination == Some(
                plan::shown_name(to),
            )
        } else {
            op.described().verb == "move"@ && op.described().destination == Some(
                text::lossy_text(to),
            )
        },
{
    match op {
        OpView::Move { from, to } => {
            path_laws::law_parent_drops_the_last_component(from);
            path_laws::law_parent_drops_the_last_component(to);
        },
        _ => {},
    }
}

/// What a path is shown as is its last component where that is a name, and the whole of it
/// where it is not.
pub proof fn law_a_path_is_called_by_its_name(at: Seq<u8>)
    ensures
        plan::shown_name(at) == text::lossy_text(
            if staging_laws::has_name(at) {
                path::components(at).last()
            } else {
                at
            },
        ),
{
}

/// A staged operation is shown by what it does and to what. At its end stands, in red, the
/// reason it failed for, else what keeps it from running; nothing is red where it neither
/// failed nor is kept from running.
pub proof fn law_what_a_staged_row_says(
    staged: StagedView,
    presence: Presence,
    selected: bool,
    width: u16,
    home: Option<Seq<char>>,
)
    ensures
        ({
            let spans = rows::staged_row(staged, presence, selected, width, home).spans;
            &&& spans.len() >= 4
            &&& spans[0].text == if selected {
                "\u{258d}"@
            } else {
                " "@
            }
            &&& spans[2].text == text::padded(staged.op.described().verb, 7)
            &&& spans[3].text == staged.op.described().subject
            &&& staged.op.described().destination is None ==> spans.len() <= 5
            &&& staged.op.described().destination is Some ==> spans.len() >= 6
            &&& staged.failure matches Some(failure) ==> spans.last().text == "  \u{2717} "@
                + failure && spans.last().style.fg == Some(Color::Red)
            &&& staged.failure is None && !staging_laws::can_run(staged.op, presence)
                ==> spans.last().style.fg == Some(Color::Red)
            &&& staged.failure is None && staging_laws::can_run(staged.op, presence)
                ==> forall|i: int|
                0 <= i < spans.len() ==> (#[trigger] spans[i]).style.fg != Some(Color::Red)
        }),
        staged.op.described().destination matches Some(destination) ==> staged.failure is None
            && staging_laws::can_run(staged.op, presence) && staged.op.described().subject.len()
            + 12 + rows::homed(destination, home).len() <= width ==> rows::staged_row(
            staged,
            presence,
            selected,
            width,
            home,
        ).spans[5].text == rows::homed(destination, home),
{
    staging_laws::law_blocked_is_what_cannot_run(staged.op, presence);
    assert(fs_ops::blocked_by(staged.op, presence) is None == staging_laws::can_run(
        staged.op,
        presence,
    ));
}

/// What fits beside what is wrong is all that is shown of where an operation leads: where
/// there is room for what the operation is and for what is wrong with it, the whole row fits.
pub proof fn law_a_staged_row_fits(
    staged: StagedView,
    presence: Presence,
    selected: bool,
    width: u16,
    home: Option<Seq<char>>,
    wrong: Seq<char>,
)
    requires
        staged.op.described().destination is Some,
        match staged.failure {
            Some(failure) => wrong == "  \u{2717} "@ + failure,
            None => match fs_ops::blocked_by(staged.op, presence) {
                Some(problem) => wrong == "  \u{2717} "@ + problem.words(),
                None => wrong.len() == 0,
            },
        },
        12 + staged.op.described().subject.len() + wrong.len() <= width,
    ensures
        rows::span_text(
            rows::staged_row(staged, presence, selected, width, home).spans,
        ).len() <= width,
{
    let spans = rows::staged_row(staged, presence, selected, width, home).spans;
    reveal_strlit("\u{258d}");
    reveal_strlit(" ");
    reveal_strlit(" \u{2192} ");
    reveal_strlit("rename");
    reveal_strlit("move");
    reveal_strlit("copy");
    let described = staged.op.described();
    assert(described.verb.len() <= 7);
    let room = screen::less(
        width as int,
        (12 + described.subject.len() + wrong.len()) as int,
    );
    let shown = rows::homed(described.destination->0, home);
    rows::law_truncated_fits(shown, room);
    reveal_with_fuel(rows::span_text, 8);
    assert(spans.len() == 6 || spans.len() == 7);
    let base = spans.take(6);
    assert(base.drop_last() =~= spans.take(5));
    assert(spans.take(5).drop_last() =~= spans.take(4));
    assert(spans.take(4).drop_last() =~= spans.take(3));
    assert(spans.take(3).drop_last() =~= spans.take(2));
    assert(spans.take(2).drop_last() =~= spans.take(1));
    assert(spans.take(1).drop_last() =~= Seq::empty());
    assert(rows::span_text(spans.take(1)).len() == 1);
    assert(rows::span_text(spans.take(2)).len() == 2);
    assert(rows::span_text(spans.take(3)).len() == 9);
    assert(rows::span_text(spans.take(4)).len() == 9 + described.subject.len());
    assert(rows::span_text(spans.take(5)).len() == 12 + described.subject.len());
    assert(rows::span_text(base).len() <= 12 + described.subject.len() + room);
    if spans.len() == 7 {
        assert(spans.drop_last() =~= base);
    } else {
        assert(spans =~= base);
    }
}

/// A message is shown whole, behind a dot in the color of its level.
pub proof fn law_a_message_is_shown_whole(entry: crate::log_store::LogEntryView)
    ensures
        rows::spans_of_entry(entry).len() == 3,
        rows::spans_of_entry(entry)[0].text == "\u{25cf}"@,
        rows::spans_of_entry(entry)[2].text == entry.message,
{
}

/// In a preview of a directory each entry has one line, in order, as many as there is room
/// for; an empty directory says so.
pub proof fn law_a_directory_preview_names_the_entries(
    entries: Seq<EntryView>,
    height: int,
)
    requires
        0 <= height,
    ensures
        entries.len() == 0 ==> rows::listing_preview(entries, height) == "(empty directory)"@,
        entries.len() > 0 ==> exists|lines: Seq<Seq<char>>|
            {
                &&& rows::listing_preview(entries, height) == #[trigger] text::joined(lines, "\n"@)
                &&& lines.len() == if height < entries.len() {
                    height
                } else {
                    entries.len() as int
                }
                &&& forall|i: int|
                    0 <= i < lines.len() ==> #[trigger] lines[i] == if entries[i].is_dir {
                        "\u{f07b}"@
                    } else {
                        " "@
                    } + "  "@ + entries[i].name
            },
{
    if entries.len() > 0 {
        let count = screen::least(height, entries.len() as int);
        let lines = rows::entry_texts(entries).take(count);
        assert(rows::listing_preview(entries, height) == text::joined(lines, "\n"@));
    }
}

/// A hint more stands behind those before it, with space between them: the key, then what it
/// does.
pub proof fn law_hints_are_listed(
    pairs: Seq<(Seq<char>, Seq<char>)>,
    key: Seq<char>,
    what: Seq<char>,
)
    ensures
        rows::span_text(rows::spans_of_hints(pairs.push((key, what)))) == if pairs.len() == 0 {
            key + (" "@ + what)
        } else {
            rows::span_text(rows::spans_of_hints(pairs)) + "   "@ + key + (" "@ + what)
        },
        pairs.len() > 0 ==> rows::spans_of_hints(pairs).len() > 0,
    decreases pairs.len(),
{
    assert(pairs.push((key, what)).drop_last() =~= pairs);
    let before = rows::spans_of_hints(pairs);
    let first = screen::styled(key, screen::colored(crate::globals::ACCENT));
    let second = screen::styled(" "@ + what, screen::colored(crate::globals::DIM));
    if pairs.len() == 0 {
        assert(before.push(first).push(second).drop_last() =~= before.push(first));
        assert(before.push(first).drop_last() =~= before);
        reveal_with_fuel(rows::span_text, 3);
        assert(rows::span_text(before.push(first)) =~= key);
    } else {
        assert(before.len() > 0);
        let spaced = before.push(screen::raw("   "@));
        assert(spaced.push(first).push(second).drop_last() =~= spaced.push(first));
        assert(spaced.push(first).drop_last() =~= spaced);
        assert(spaced.drop_last() =~= before);
        reveal_with_fuel(rows::span_text, 4);
    }
}

/// A preview that is one line in brackets stands in for what cannot be shown, and looks
/// unlike any text that is shown.
pub proof fn law_what_stands_in_looks_different(content: Seq<char>, words: Seq<char>)
    ensures
        content == seq!['('] + words + seq![')'] && !words.contains('\n') ==> rows::preview_look(
            content,
        ).italic && rows::preview_look(content).fg == Some(Color::DarkGray),
        content.len() == 0 || content[0] != '(' || content.last() != ')' || content.contains('\n')
            ==> rows::preview_look(content) == (Style {
            fg: None,
            bg: None,
            bold: false,
            italic: false,
        }),
{
    if content == seq!['('] + words + seq![')'] && !words.contains('\n') {
        assert forall|i: int| 0 <= i < content.len() implies content[i] != '\n' by {
            if 0 < i < content.len() - 1 {
                assert(content[i] == words[i - 1]);
                if content[i] == '\n' {
                    assert(words.contains('\n'));
                }
            }
        }
    }
}

/// Directories are blue and hidden files are dark, whatever their extension; the color of
/// any other file goes by its extension alone.
pub proof fn law_what_color_a_name_has(name: Seq<char>, other: Seq<char>)
    ensures
        crate::globals::name_color(name, true) == Color::Blue,
        name.len() > 0 && name[0] == '.' ==> crate::globals::name_color(name, false)
            == Color::DarkGray,
        name.len() > 0 && name[0] != '.' && other.len() > 0 && other[0] != '.'
            && crate::globals::lowered_extension(vstd::utf8::encode_utf8(name))
            == crate::globals::lowered_extension(vstd::utf8::encode_utf8(other))
            ==> crate::globals::name_color(name, false) == crate::globals::name_color(
            other,
            false,
        ),
{
}

/// The color of a message goes by how much it matters, and no two levels share one.
pub proof fn law_what_color_a_level_has(level: LogLevel)
    ensures
        crate::globals::color_of_level(level) == match level {
            LogLevel::Error => Color::Red,
            LogLevel::Warn => Color::Yellow,
            LogLevel::Info => Color::Green,
            LogLevel::Debug => Color::Blue,
            LogLevel::Trace => Color::DarkGray,
        },
{
}

/// Whether a text is one of these.
pub open spec fn among(ext: Seq<char>, all: Seq<Seq<char>>) -> bool {
    exists|i: int| 0 <= i < all.len() && ext == #[trigger] all[i]
}

/// The extensions that are colored, by color.
pub open spec fn extensions_in(color: Color) -> Seq<Seq<char>> {
    match color {
        Color::Red => seq!["zip"@, "tar"@, "gz"@, "bz2"@, "xz"@, "7z"@, "rar"@, "zst"@],
        Color::Magenta => seq![
            "png"@, "jpg"@, "jpeg"@, "gif"@, "bmp"@, "webp"@, "ico"@, "svg"@, "tiff"@, "tif"@,
            "mp4"@, "mkv"@, "webm"@, "avi"@, "mov"@, "flv"@, "wmv"@,
        ],
        Color::LightRed => seq!["mp3"@, "flac"@, "wav"@, "ogg"@, "m4a"@, "aac"@, "wma"@],
        Color::Yellow => seq![
            "pdf"@, "doc"@, "docx"@, "xls"@, "xlsx"@, "ppt"@, "pptx"@, "odt"@,
        ],
        Color::Green => seq![
            "rs"@, "go"@, "py"@, "js"@, "ts"@, "jsx"@, "tsx"@, "c"@, "cpp"@, "h"@, "hpp"@,
            "java"@, "rb"@, "sh"@, "bash"@, "zsh"@, "lua"@, "vim"@, "ex"@, "exs"@,
        ],
        Color::Cyan => seq![
            "json"@, "yaml"@, "yml"@, "toml"@, "xml"@, "html"@, "css"@, "scss"@,
        ],
        _ => Seq::empty(),
    }
}

/// A file that is not hidden has the color under which its extension, in lowercase, is
/// listed; one whose extension is not listed has the terminal's own.
pub proof fn law_what_color_an_extension_has(name: Seq<char>)
    requires
        name.len() > 0,
        name[0] != '.',
    ensures
        ({
            let ext = crate::globals::lowered_extension(vstd::utf8::encode_utf8(name));
            let color = crate::globals::name_color(name, false);
            &&& color == Color::Reset || among(ext, extensions_in(color))
            &&& color == Color::Reset ==> !among(ext, extensions_in(Color::Red)) && !among(
                ext,
                extensions_in(Color::Magenta),
            ) && !among(ext, extensions_in(Color::LightRed)) && !among(
                ext,
                extensions_in(Color::Yellow),
            ) && !among(ext, extensions_in(Color::Green)) && !among(
                ext,
                extensions_in(Color::Cyan),
            )
        }),
{
    let ext = crate::globals::lowered_extension(vstd::utf8::encode_utf8(name));
    lemma_red(ext);
    lemma_magenta(ext);
    lemma_light_red(ext);
    lemma_yellow(ext);
    lemma_green(ext);
    lemma_cyan(ext);
}

proof fn lemma_red(ext: Seq<char>)
    ensures
        among(ext, extensions_in(Color::Red)) == crate::globals::is_archive(ext),
{
    let all = extensions_in(Color::Red);
    assert(all.len() == 8);
    assert(among(ext, all) || ext != all[0]);
    assert(among(ext, all) || ext != all[1]);
    assert(among(ext, all) || ext != all[2]);
    assert(among(ext, all) || ext != all[3]);
    assert(among(ext, all) || ext != all[4]);
    assert(among(ext, all) || ext != all[5]);
    assert(among(ext, all) || ext != all[6]);
    assert(among(ext, all) || ext != all[7]);
}

proof fn lemma_magenta(ext: Seq<char>)
    ensures
        among(ext, extensions_in(Color::Magenta)) == crate::globals::is_picture(ext),
{
    let all = extensions_in(Color::Magenta);
    assert(all.len() == 17);
    assert(among(ext, all) || ext != all[0]);
    assert(among(ext, all) || ext != all[1]);
    assert(among(ext, all) || ext != all[2]);
    assert(among(ext, all) || ext != all[3]);
    assert(among(ext, all) || ext != all[4]);
    assert(among(ext, all) || ext != all[5]);
    assert(among(ext, all) || ext != all[6]);
    assert(among(ext, all) || ext != all[7]);
    assert(among(ext, all) || ext != all[8]);
    assert(among(ext, all) || ext != all[9]);
    assert(among(ext, all) || ext != all[10]);
    assert(among(ext, all) || ext != all[11]);
    assert(among(ext, all) || ext != all[12]);
    assert(among(ext, all) || ext != all[13]);
    assert(among(ext, all) || ext != all[14]);
    assert(among(ext, all) || ext != all[15]);
    assert(among(ext, all) || ext != all[16]);
}

proof fn lemma_light_red(ext: Seq<char>)
    ensures
        among(ext, extensions_in(Color::LightRed)) == crate::globals::is_audio(ext),
{
    let all = extensions_in(Color::LightRed);
    assert(all.len() == 7);
    assert(among(ext, all) || ext != all[0]);
    assert(among(ext, all) || ext != all[1]);
    assert(among(ext, all) || ext != all[2]);
    assert(among(ext, all) || ext != all[3]);
    assert(among(ext, all) || ext != all[4]);
    assert(among(ext, all) || ext != all[5]);
    assert(among(ext, all) || ext != all[6]);
}

proof fn lemma_yellow(ext: Seq<char>)
    ensures
        among(ext, extensions_in(Color::Yellow)) == crate::globals::is_document(ext),
{
    let all = extensions_in(Color::Yellow);
    assert(all.len() == 8);
    assert(among(ext, all) || ext != all[0]);
    assert(among(ext, all) || ext != all[1]);
    assert(among(ext, all) || ext != all[2]);
    assert(among(ext, all) || ext != all[3]);
    assert(among(ext, all) || ext != all[4]);
    assert(among(ext, all) || ext != all[5]);
    assert(among(ext, all) || ext != all[6]);
    assert(among(ext, all) || ext != all[7]);
}

proof fn lemma_green(ext: Seq<char>)
    ensures
        among(ext, extensions_in(Color::Green)) == crate::globals::is_code(ext),
{
    let all = extensions_in(Color::Green);
    assert(all.len() == 20);
    assert(among(ext, all) || ext != all[0]);
    assert(among(ext, all) || ext != all[1]);
    assert(among(ext, all) || ext != all[2]);
    assert(among(ext, all) || ext != all[3]);
    assert(among(ext, all) || ext != all[4]);
    assert(among(ext, all) || ext != all[5]);
    assert(among(ext, all) || ext != all[6]);
    assert(among(ext, all) || ext != all[7]);
    assert(among(ext, all) || ext != all[8]);
    assert(among(ext, all) || ext != all[9]);
    assert(among(ext, all) || ext != all[10]);
    assert(among(ext, all) || ext != all[11]);
    assert(among(ext, all) || ext != all[12]);
    assert(among(ext, all) || ext != all[13]);
    assert(among(ext, all) || ext != all[14]);
    assert(among(ext, all) || ext != all[15]);
    assert(among(ext, all) || ext != all[16]);
    assert(among(ext, all) || ext != all[17]);
    assert(among(ext, all) || ext != all[18]);
    assert(among(ext, all) || ext != all[19]);
}

proof fn lemma_cyan(ext: Seq<char>)
    ensures
        among(ext, extensions_in(Color::Cyan)) == crate::globals::is_data(ext),
{
    let all = extensions_in(Color::Cyan);
    assert(all.len() == 8);
    assert(among(ext, all) || ext != all[0]);
    assert(among(ext, all) || ext != all[1]);
    assert(among(ext, all) || ext != all[2]);
    assert(among(ext, all) || ext != all[3]);
    assert(among(ext, all) || ext != all[4]);
    assert(among(ext, all) || ext != all[5]);
    assert(among(ext, all) || ext != all[6]);
    assert(among(ext, all) || ext != all[7]);
}

} // verus!
