//! What a frame shows, and where.
use crate::io::dir;
use crate::io::file;
use crate::io::fs_ops::Presence;
use crate::io::{self, FileKind};
use crate::log_store::LogStoreView;
use crate::logging::store::LogLevel;
use crate::marks;
use crate::navigator::help::{self, SectionView};
use crate::navigator::model::{self, ModeView, NavView, PromptView};
use crate::navigator::picture::{self, AreasView, FactsView, PreviewView, WantedView};
use crate::navigator::row_laws;
use crate::navigator::rows;
use crate::navigator::search;
use crate::navigator::staging_laws;
use crate::notice::NoticeView;
use crate::path;
use crate::path_laws;
use crate::plan::StagedView;
use crate::screen::{self, DrawView, LineView, Rect};
use crate::text;
use crate::text_laws;
use vstd::prelude::*;

verus! {

broadcast use {vstd::seq::group_seq_axioms, vstd::seq_lib::group_seq_properties};

/// Whether an area and the rows counted down from it stay within the screen's numbers.
pub open spec fn on_screen(area: Rect) -> bool {
    area.x + area.width <= u16::MAX && area.y + 2 * area.height <= u16::MAX
}

/// Whether `path` is one of `all`, whatever way either is written.
pub open spec fn is_one_of(path: Seq<u8>, all: Seq<Seq<u8>>) -> bool {
    exists|i: int|
        0 <= i < all.len() && path::components(#[trigger] all[i]) == path::components(path)
}

/// Row by row, the listing shows the entries from the one it is scrolled to: each by its
/// name, the one under the cursor with the bar, and those that are marked with the dot.
pub proof fn law_each_row_shows_its_entry(
    s: NavView,
    list: Rect,
    side: Rect,
    plan: Rect,
    bottom: Rect,
    facts: FactsView,
    preview: PreviewView,
    k: int,
)
    requires
        s.wf(),
        s.scroll_offset >= 0,
        on_screen(list),
        0 <= k < list.height - 1,
        ({
            let areas = AreasView::Normal { list, side, plan, bottom };
            let row = picture::drawn_state(s, areas, facts, preview).scroll_offset + k;
            row < s.entries.len() && search::lowers_to_something(s.entries[row].name)
        }),
    ensures
        ({
            let areas = AreasView::Normal { list, side, plan, bottom };
            let row = picture::drawn_state(s, areas, facts, preview).scroll_offset + k;
            &&& 0 <= row
            &&& picture::drawn(s, areas, facts, preview)[1 + k] matches DrawView::Line {
                area,
                line,
            }
            &&& area.x == list.x
            &&& area.y == list.y + 1 + k
            &&& line.spans.len() >= 6
            &&& rows::span_text(line.spans.skip(5)) == s.entries[row].name
            &&& (line.spans[0].text == "\u{258d}"@) == (row == s.selected)
            &&& (line.spans[1].text == "\u{25cf}"@) == is_one_of(
                path::join(s.current_dir, vstd::utf8::encode_utf8(s.entries[row].name)),
                s.marks,
            )
        }),
{
    let areas = AreasView::Normal { list, side, plan, bottom };
    let now = picture::list_state(s, list);
    let row = now.scroll_offset + k;
    assert(picture::drawn_state(s, areas, facts, preview).scroll_offset == now.scroll_offset);
    let entry = s.entries[row];
    let here = path::join(s.current_dir, vstd::utf8::encode_utf8(entry.name));
    assert(marks::holds(s.marks, here) == is_one_of(here, s.marks)) by {
        if is_one_of(here, s.marks) {
            let i = choose|i: int|
                0 <= i < s.marks.len() && path::components(#[trigger] s.marks[i])
                    == path::components(here);
            assert(crate::plan::same_path(s.marks[i], here));
        }
    }
    row_laws::law_what_a_row_shows(entry, row == s.selected, is_one_of(here, s.marks), s.search);
    reveal_strlit("\u{258d}");
    reveal_strlit("\u{25cf}");
    reveal_strlit(" ");
    assert("\u{258d}"@[0] != " "@[0]);
    assert("\u{25cf}"@[0] != " "@[0]);
    let shown = picture::list_drawn(s, list, facts.home);
    assert(shown[1 + k] == picture::listed_row(
        now,
        screen::inside_block(list, crate::screen::Edge::Right),
        k,
    ));
    assert(picture::drawn(s, areas, facts, preview)[1 + k] == shown[1 + k]);
}

/// In the log the newest message is at the bottom, and each row up shows the one before it,
/// from as many messages back as the log is scrolled.
pub proof fn law_the_newest_message_is_at_the_bottom(
    s: NavView,
    area: Rect,
    log: LogStoreView,
    k: int,
)
    requires
        on_screen(area),
        s.log_scroll_offset >= 0,
        0 <= k < area.height - 1,
        k < log.entries.len(),
    ensures
        ({
            let back = picture::log_state(s, area, Some(log)).log_scroll_offset;
            &&& 0 <= back <= s.log_scroll_offset
            &&& back + k < log.entries.len()
            &&& s.log_scroll_offset + area.height - 1 <= log.entries.len() ==> back
                == s.log_scroll_offset
            &&& s.log_scroll_offset + area.height - 1 > log.entries.len() ==> back == 0 || back
                + area.height - 1 == log.entries.len()
            &&& picture::log_drawn(s, area, Some(log))[1 + k] matches DrawView::Line {
                area: row,
                line,
            }
            &&& row.y == area.y + area.height - 1 - k
            &&& line.spans.len() == 3
            &&& line.spans[2].text == log.entries[log.entries.len() - 1 - back - k].message
        }),
{
    row_laws::law_a_message_is_shown_whole(
        log.entries[log.entries.len() - 1 - picture::log_state(
            s,
            area,
            Some(log),
        ).log_scroll_offset - k],
    );
}

/// The plan panel shows the operations from the first on, one a row, none of them selected.
pub proof fn law_the_plan_panel_shows_the_plan(
    s: NavView,
    area: Rect,
    presence: Seq<Presence>,
    home: Option<Seq<char>>,
    k: int,
)
    requires
        on_screen(area),
        0 <= k < area.height - 1,
        k < s.plan.len(),
    ensures
        picture::plan_drawn(s, area, presence, home)[1 + k] matches DrawView::Line {
            area: row,
            line,
        } && row.y == area.y + 1 + k && line.spans.len() >= 4 && line.spans[0].text == " "@
            && line.spans[2].text == text::padded(s.plan[k].op.described().verb, 7)
            && line.spans[3].text == s.plan[k].op.described().subject,
{
    row_laws::law_what_a_staged_row_says(
        s.plan[k],
        presence[k],
        false,
        screen::inside_block(area, crate::screen::Edge::Top).width,
        home,
    );
}

/// The review shows the operations one a row, in order; the selected one, and no other, has
/// the bar.
pub proof fn law_the_review_shows_the_plan(
    s: NavView,
    title: Rect,
    body: Rect,
    footer: Rect,
    presence: Seq<Presence>,
    home: Option<Seq<char>>,
    k: int,
)
    requires
        on_screen(body),
        0 <= s.review_selected < s.plan.len(),
        0 <= k < body.height,
        picture::review_first(s, body.height as int) + k < s.plan.len(),
    ensures
        ({
            let at = picture::review_first(s, body.height as int) + k;
            &&& s.plan.len() <= body.height ==> at == k
            &&& picture::review_drawn(s, title, body, footer, presence, home)[1
                + k] matches DrawView::Line { area: row, line }
            &&& row.y == body.y + k
            &&& line.spans.len() >= 4
            &&& (line.spans[0].text == "\u{258d}"@) == (at == s.review_selected)
            &&& line.spans[2].text == text::padded(s.plan[at].op.described().verb, 7)
            &&& line.spans[3].text == s.plan[at].op.described().subject
        }),
{
    let at = picture::review_first(s, body.height as int) + k;
    row_laws::law_what_a_staged_row_says(
        s.plan[at],
        presence[at],
        at == s.review_selected,
        body.width,
        home,
    );
    reveal_strlit("\u{258d}");
    reveal_strlit(" ");
    assert("\u{258d}"@[0] != " "@[0]);
    let first = picture::review_first(s, body.height as int);
    let drawn = picture::review_drawn(s, title, body, footer, presence, home);
    assert(drawn[1 + k] == DrawView::Line {
        area: screen::row_of(body, k),
        line: rows::staged_row(
            s.plan[first + k],
            presence[first + k],
            first + k == s.review_selected,
            body.width,
            home,
        ),
    });
}

/// The operations of the first `count` that cannot run.
pub open spec fn stuck(staged: Seq<StagedView>, presence: Seq<Presence>, count: int) -> Set<int> {
    Set::new(
        |i: int| 0 <= i < count && !staging_laws::can_run(staged[i].op, presence[i]),
    )
}

proof fn lemma_stuck(staged: Seq<StagedView>, presence: Seq<Presence>, count: int)
    requires
        0 <= count <= staged.len(),
    ensures
        stuck(staged, presence, count).finite(),
        picture::count_set(model::blocked(staged, presence).take(count)) == stuck(
            staged,
            presence,
            count,
        ).len(),
    decreases count,
{
    let flags = model::blocked(staged, presence);
    if count == 0 {
        assert(stuck(staged, presence, 0) =~= Set::empty());
        assert(flags.take(0) =~= Seq::empty());
    } else {
        lemma_stuck(staged, presence, count - 1);
        staging_laws::law_blocked_is_what_cannot_run(staged[count - 1].op, presence[count - 1]);
        assert(flags.take(count).drop_last() =~= flags.take(count - 1));
        assert(flags.take(count).last() == flags[count - 1]);
        if flags[count - 1] {
            assert(stuck(staged, presence, count) =~= stuck(staged, presence, count - 1).insert(
                count - 1,
            ));
        } else {
            assert(stuck(staged, presence, count) =~= stuck(staged, presence, count - 1));
        }
    }
}

/// Below the review stands how many operations cannot run, where there are any.
pub proof fn law_what_cannot_run_is_counted(
    s: NavView,
    title: Rect,
    body: Rect,
    footer: Rect,
    presence: Seq<Presence>,
    home: Option<Seq<char>>,
)
    ensures
        ({
            let drawn = picture::review_drawn(s, title, body, footer, presence, home);
            let count = stuck(s.plan, presence, s.plan.len() as int).len();
            &&& drawn.last() matches DrawView::Line { area, line }
            &&& area == footer
            &&& count > 0 ==> line.spans.len() > 1 && line.spans[1].text == text::decimal_text(
                count,
            ) + " blocked"@
            &&& count == 0 ==> line.spans == seq![screen::raw(" "@)] + rows::spans_of_hints(
                picture::review_hints(),
            )
        }),
{
    lemma_stuck(s.plan, presence, s.plan.len() as int);
    let flags = model::blocked(s.plan, presence);
    assert(flags.take(s.plan.len() as int) =~= flags);
    assert(seq![screen::raw(" "@)] + Seq::<crate::screen::SpanView>::empty()
        + rows::spans_of_hints(picture::review_hints()) =~= seq![screen::raw(" "@)]
        + rows::spans_of_hints(picture::review_hints()));
}

/// The marks of the first `count` that do not lie directly in `dir`.
pub open spec fn elsewhere(all: Seq<Seq<u8>>, dir: Seq<u8>, count: int) -> Set<int> {
    Set::new(|i: int| 0 <= i < count && !lies_directly_in(all[i], dir))
}

/// Whether a path has just one component more than the directory.
pub open spec fn lies_directly_in(path: Seq<u8>, dir: Seq<u8>) -> bool {
    path::components(path).len() > 0 && path::components(path) != seq![seq![47u8]]
        && path::components(path).drop_last() == path::components(dir)
}

proof fn lemma_elsewhere(all: Seq<Seq<u8>>, dir: Seq<u8>, count: int)
    requires
        0 <= count <= all.len(),
    ensures
        elsewhere(all, dir, count).finite(),
        marks::outside(all.take(count), dir) == elsewhere(all, dir, count).len(),
    decreases count,
{
    if count == 0 {
        assert(elsewhere(all, dir, 0) =~= Set::empty());
        assert(all.take(0) =~= Seq::empty());
    } else {
        lemma_elsewhere(all, dir, count - 1);
        path_laws::law_parent_drops_the_last_component(all[count - 1]);
        assert(all.take(count).drop_last() =~= all.take(count - 1));
        assert(all.take(count).last() == all[count - 1]);
        if marks::lies_in(all[count - 1], dir) {
            assert(elsewhere(all, dir, count) =~= elsewhere(all, dir, count - 1));
        } else {
            assert(elsewhere(all, dir, count) =~= elsewhere(all, dir, count - 1).insert(count - 1));
        }
    }
}

/// The last line says how many entries are marked, and how many of those lie in another
/// directory where any do.
pub proof fn law_the_marks_are_counted(s: NavView, area: Rect, facts: FactsView)
    requires
        s.marks.len() > 0,
    ensures
        ({
            let away = elsewhere(s.marks, s.current_dir, s.marks.len() as int).len();
            &&& picture::status_drawn(s, area, facts)[1] matches DrawView::Line { area: row, line }
            &&& line.spans.len() > 0
            &&& line.spans[0].text == text::decimal_text(s.marks.len()) + if away == 0 {
                " marked"@
            } else {
                " marked ("@ + text::decimal_text(away) + " elsewhere)"@
            }
        }),
{
    lemma_elsewhere(s.marks, s.current_dir, s.marks.len() as int);
    assert(s.marks.take(s.marks.len() as int) =~= s.marks);
    let away = marks::outside(s.marks, s.current_dir);
    let count = text::decimal_text(s.marks.len());
    assert(count + " marked ("@ + text::decimal_text(away) + " elsewhere)"@ =~= count + (
    " marked ("@ + text::decimal_text(away) + " elsewhere)"@));
}

/// With nothing marked, the last line shows the latest message, behind its dot, and how long
/// ago it came: in seconds for a minute, and in whole minutes after that.
pub proof fn law_the_latest_message_is_shown(
    s: NavView,
    area: Rect,
    facts: FactsView,
    log: LogStoreView,
    seconds: nat,
    rest: nat,
)
    requires
        s.marks.len() == 0,
        facts.log == Some(log),
        log.entries.len() > 0,
        log.start_time <= log.entries.last().timestamp,
        facts.now == log.entries.last().timestamp + seconds * 1_000_000_000 + rest,
        rest < 1_000_000_000,
    ensures
        picture::status_drawn(s, area, facts)[1] matches DrawView::Line { area: row, line }
            && line.spans.len() == 4 && line.spans[2].text == log.entries.last().message
            && line.spans[3].text == "  "@ + if seconds < 60 {
            text::decimal_text(seconds) + "s"@
        } else {
            text::decimal_text((seconds / 60) as nat) + "m"@
        },
{
    let entry = log.entries.last();
    assert((seconds * 1_000_000_000 + rest) / 1_000_000_000 == seconds) by (nonlinear_arith)
        requires
            rest < 1_000_000_000,
    ;
    assert(picture::age_of(log, entry, facts.now) == seconds);
    assert(Seq::<crate::screen::SpanView>::empty() + picture::latest_spans(facts)
        =~= picture::latest_spans(facts));
}

/// While something is typed, the last line shows what is asked for and what was typed.
pub proof fn law_what_is_typed_is_shown(
    s: NavView,
    prompt: PromptView,
    bottom: Rect,
    facts: FactsView,
)
    requires
        s.mode == ModeView::Prompt(prompt),
    ensures
        picture::bottom_drawn(s, bottom, facts).len() == 2,
        picture::bottom_drawn(s, bottom, facts)[1] matches DrawView::Line { area, line }
            && rows::span_text(line.spans) == prompt.label + " \u{203a} "@ + prompt.input
            + "\u{258f}"@,
{
    let spans = seq![
        screen::styled(prompt.label, screen::colored(crate::globals::DIM)),
        screen::styled(" \u{203a} "@, screen::bold_colored(crate::globals::ACCENT)),
        screen::raw(prompt.input),
        screen::styled("\u{258f}"@, screen::colored(crate::globals::ACCENT)),
    ];
    reveal_with_fuel(rows::span_text, 5);
    assert(spans.drop_last().drop_last().drop_last().drop_last().len() == 0);
    assert(rows::span_text(spans) =~= prompt.label + " \u{203a} "@ + prompt.input + "\u{258f}"@);
}

/// While looking around, the entry under the cursor is previewed: a directory by its
/// listing, and a file by its contents; an image that is drawn already is not read again.
/// Nothing is read for a preview that is not shown.
pub proof fn law_what_is_previewed(s: NavView)
    requires
        s.wf(),
    ensures
        s.mode is Help || s.mode is Review || s.log_panel_visible || s.entries.len() == 0
            ==> picture::wanted(s) is Nothing,
        !(s.mode is Help || s.mode is Review || s.log_panel_visible || s.entries.len() == 0) ==> ({
            let entry = s.entries[s.selected];
            let here = path::join(s.current_dir, vstd::utf8::encode_utf8(entry.name));
            match picture::wanted(s) {
                WantedView::Nothing => false,
                WantedView::Dir(at) => entry.is_dir && at == here,
                WantedView::Text(at) => !entry.is_dir && at == here,
                WantedView::Image(at) => !entry.is_dir && at == here && !(s.cached_image matches Some(
                    kept,
                ) && path::components(kept) == path::components(here)),
                WantedView::Kept => !entry.is_dir && (s.cached_image matches Some(kept)
                    && path::components(kept) == path::components(here)),
            }
        }),
{
}

/// What was read is what is shown: the entries of a directory, the text of a file, or the
/// image, in the rows there are; a directory or an image that could not be read says so.
pub proof fn law_the_preview_shows_what_was_read(s: NavView, area: Rect, preview: PreviewView)
    requires
        picture::satisfies(picture::wanted(s), preview),
    ensures
        ({
            let drawn = picture::preview_drawn(s, area, preview);
            match (picture::wanted(s), preview) {
                (WantedView::Dir(at), PreviewView::Dir(answer)) => {
                    &&& drawn.len() == 1
                    &&& drawn[0] matches DrawView::Text { area: place, text, style }
                    &&& place == area
                    &&& text == match dir::listing(at, answer) {
                        Ok(entries) => rows::listing_preview(entries, area.height as int),
                        Err(_) => "(cannot read directory)"@,
                    }
                },
                (WantedView::Text(at), PreviewView::Text(answer)) => {
                    &&& drawn.len() == 1
                    &&& drawn[0] matches DrawView::Text { area: place, text, style }
                    &&& place == area
                    &&& text == file::shown_preview(at, answer, area.height as int)
                },
                (WantedView::Image(at), PreviewView::Image(loaded)) => {
                    &&& drawn.len() == 1
                    &&& loaded is Ok ==> drawn[0] == DrawView::Image { area }
                    &&& loaded is Err ==> (drawn[0] matches DrawView::Text {
                        area: place,
                        text,
                        style,
                    } && place == area && text == "(cannot load image)"@)
                },
                (WantedView::Kept, PreviewView::Kept) => drawn == seq![DrawView::Image { area }],
                _ => drawn.len() == 0,
            }
        }),
{
}

/// Every part of the screen is drawn: what is drawn for the listing, for what is beside it,
/// for the plan where anything is staged, and for the last line.
pub proof fn law_every_part_is_drawn(
    s: NavView,
    list: Rect,
    side: Rect,
    plan: Rect,
    bottom: Rect,
    facts: FactsView,
    preview: PreviewView,
    one: DrawView,
)
    ensures
        picture::drawn(
            s,
            AreasView::Normal { list, side, plan, bottom },
            facts,
            preview,
        ).contains(one) <==> {
            ||| picture::list_drawn(s, list, facts.home).contains(one)
            ||| s.log_panel_visible && picture::log_drawn(s, side, facts.log).contains(one)
            ||| !s.log_panel_visible && picture::preview_drawn(
                s,
                screen::without_sides(side),
                preview,
            ).contains(one)
            ||| s.plan.len() > 0 && picture::plan_drawn(
                s,
                plan,
                facts.presence,
                facts.home,
            ).contains(one)
            ||| picture::bottom_drawn(s, bottom, facts).contains(one)
        },
{
    let first = picture::list_drawn(s, list, facts.home);
    let second = picture::side_drawn(s, side, facts, preview);
    let third = if s.plan.len() > 0 {
        picture::plan_drawn(s, plan, facts.presence, facts.home)
    } else {
        Seq::empty()
    };
    let fourth = picture::bottom_drawn(s, bottom, facts);
    lemma_contains_either(first, second, one);
    lemma_contains_either(first + second, third, one);
    lemma_contains_either(first + second + third, fourth, one);
}

proof fn lemma_contains_either(a: Seq<DrawView>, b: Seq<DrawView>, one: DrawView)
    ensures
        (a + b).contains(one) <==> a.contains(one) || b.contains(one),
{
    if a.contains(one) {
        let i = choose|i: int| 0 <= i < a.len() && a[i] == one;
        assert((a + b)[i] == one);
    }
    if b.contains(one) {
        let i = choose|i: int| 0 <= i < b.len() && b[i] == one;
        assert((a + b)[a.len() + i] == one);
    }
    if (a + b).contains(one) {
        let i = choose|i: int| 0 <= i < (a + b).len() && (a + b)[i] == one;
        if i < a.len() {
            assert(a[i] == one);
        } else {
            assert(b[i - a.len()] == one);
        }
    }
}

/// Above the listing stands the directory being viewed, with the home directory written `~`,
/// as long as it fits between two spaces; where it does not fit, its end does.
pub proof fn law_the_directory_is_named_above_its_listing(
    s: NavView,
    list: Rect,
    home: Option<Seq<char>>,
)
    requires
        list.width >= 2,
    ensures
        ({
            let whole = rows::homed(text::lossy_text(s.current_dir), home);
            &&& picture::list_drawn(s, list, home)[0] matches DrawView::Block {
                area,
                edge,
                style,
                title,
            }
            &&& area == list
            &&& title matches Some(line)
            &&& line.spans.len() == 4
            &&& ({
                let shown = line.spans[1].text + line.spans[2].text;
                &&& line.spans[0].text == " "@ && line.spans[3].text == " "@
                &&& whole.len() + 2 <= list.width ==> shown == whole
                &&& whole.len() + 2 > list.width ==> shown.len() == list.width - 2
                &&& whole.len() + 2 > list.width && list.width > 3 ==> shown.skip(1) == whole.skip(
                    whole.len() - (list.width - 3),
                )
            })
        }),
{
    let whole = rows::homed(text::lossy_text(s.current_dir), home);
    let room = screen::less(list.width as int, 2);
    rows::law_truncated_fits(whole, room);
    row_laws::law_the_title_is_the_path(rows::truncated(whole, room));
}

/// Above the review stands how many operations are staged.
pub proof fn law_what_is_staged_is_counted(
    s: NavView,
    title: Rect,
    body: Rect,
    footer: Rect,
    presence: Seq<Presence>,
    home: Option<Seq<char>>,
)
    ensures
        picture::review_drawn(s, title, body, footer, presence, home)[0] matches DrawView::Line {
            area,
            line,
        } && area == title && line.spans.len() == 2 && line.spans[0].text == " review"@
            && line.spans[1].text == "  \u{b7}  "@ + text::decimal_text(s.plan.len())
            + " staged"@,
{
}

/// An image that was loaded is kept for the next frame; anything else that is read leaves
/// what is kept as it is. What could not be loaded is told.
pub proof fn law_a_loaded_image_is_kept(
    s: NavView,
    list: Rect,
    side: Rect,
    plan: Rect,
    bottom: Rect,
    facts: FactsView,
    preview: PreviewView,
)
    requires
        picture::satisfies(picture::wanted(s), preview),
    ensures
        ({
            let areas = AreasView::Normal { list, side, plan, bottom };
            let after = picture::drawn_state(s, areas, facts, preview);
            after.cached_image == match (picture::wanted(s), preview) {
                (WantedView::Image(at), PreviewView::Image(Ok(()))) => Some(at),
                _ => s.cached_image,
            }
        }),
        preview matches PreviewView::Image(Err(errx)) ==> picture::preview_told(s, preview)
            == seq![NoticeView { level: LogLevel::Warn, text: errx.words() }],
        preview is Nothing || preview is Kept || preview == PreviewView::Image(Ok(()))
            ==> picture::preview_told(s, preview).len() == 0,
{
}

/// A border takes one row or column of an area and leaves the rest: the one along the top
/// its first row, and the one on the right its last column, with its first row for the
/// title.
pub proof fn law_a_border_takes_one_row_or_column(area: Rect)
    requires
        on_screen(area),
        area.width > 0,
        area.height > 0,
    ensures
        screen::inside_block(area, crate::screen::Edge::Top) == (Rect {
            x: area.x,
            y: (area.y + 1) as u16,
            width: area.width,
            height: (area.height - 1) as u16,
        }),
        screen::inside_block(area, crate::screen::Edge::Right) == (Rect {
            x: area.x,
            y: (area.y + 1) as u16,
            width: (area.width - 1) as u16,
            height: (area.height - 1) as u16,
        }),
{
}

/// Which files are previewed as images goes by the extension, in lowercase.
pub proof fn law_which_files_are_images(at: Seq<u8>)
    ensures
        ({
            let ext = crate::globals::lowered_extension(at);
            &&& io::kind_of(at, true) == FileKind::Dir
            &&& io::kind_of(at, false) == if ext == "png"@ || ext == "jpg"@ || ext == "jpeg"@
                || ext == "gif"@ || ext == "bmp"@ || ext == "webp"@ || ext == "ico"@ || ext
                == "tiff"@ || ext == "tif"@ || ext == "svg"@ {
                FileKind::Image
            } else {
                FileKind::Text
            }
        }),
{
}

proof fn lemma_columns_drawn(
    areas: Seq<Rect>,
    columns: Seq<Seq<LineView>>,
    count: int,
    column: int,
    row: int,
)
    requires
        0 <= column < count,
        0 <= row < columns[column].len(),
    ensures
        picture::columns_drawn(areas, columns, count).contains(
            DrawView::Line {
                area: screen::row_of(areas[column], row),
                line: columns[column][row],
            },
        ),
    decreases count,
{
    let one = DrawView::Line {
        area: screen::row_of(areas[column], row),
        line: columns[column][row],
    };
    let before = picture::columns_drawn(areas, columns, count - 1);
    let last = picture::column_drawn(areas[count - 1], columns[count - 1]);
    lemma_contains_either(before, last, one);
    if column < count - 1 {
        lemma_columns_drawn(areas, columns, count - 1, column, row);
    } else {
        assert(last[row] == one);
    }
}

/// The help shows every line of every column in that column's place, one below the other, as
/// far as there are places for columns.
pub proof fn law_the_help_shows_every_line(
    title: Rect,
    body: Rect,
    footer: Rect,
    areas: Seq<Rect>,
    column: int,
    row: int,
)
    requires
        0 <= column < areas.len(),
        column < help::columns_of(
            help::all_sections(help::key_map()),
            body.height as nat,
        ).len(),
        0 <= row < help::columns_of(
            help::all_sections(help::key_map()),
            body.height as nat,
        )[column].len(),
        on_screen(areas[column]),
        row < areas[column].height,
    ensures
        ({
            let columns = help::columns_of(
                help::all_sections(help::key_map()),
                body.height as nat,
            );
            picture::help_drawn(title, body, footer, areas).contains(
                DrawView::Line {
                    area: Rect {
                        x: areas[column].x,
                        y: (areas[column].y + row) as u16,
                        width: areas[column].width,
                        height: areas[column].height,
                    },
                    line: columns[column][row],
                },
            )
        }),
{
    let columns = help::columns_of(help::all_sections(help::key_map()), body.height as nat);
    let count = screen::least(areas.len() as int, columns.len() as int);
    lemma_columns_drawn(areas, columns, count, column, row);
    let one = DrawView::Line {
        area: screen::row_of(areas[column], row),
        line: columns[column][row],
    };
    let all = picture::columns_drawn(areas, columns, count);
    let drawn = picture::help_drawn(title, body, footer, areas);
    let first = drawn.take(1);
    lemma_contains_either(first, all, one);
    lemma_contains_either(first + all, drawn.skip(1 + all.len() as int), one);
    assert(first + all + drawn.skip(1 + all.len() as int) =~= drawn);
    assert(screen::row_of(areas[column], row) == (Rect {
        x: areas[column].x,
        y: (areas[column].y + row) as u16,
        width: areas[column].width,
        height: areas[column].height,
    }));
}

/// In the help each key stands beside what it does, below the name of its group.
pub proof fn law_each_key_is_explained(section: SectionView, width: nat, row: int)
    requires
        0 <= row < section.keys.len(),
        forall|i: int| 0 <= i < section.keys.len() ==> (#[trigger] section.keys[i]).0.len()
            <= width,
    ensures
        ({
            let lines = help::lines_of_section(section, width);
            &&& lines.len() == section.keys.len() + 1
            &&& lines[0].spans.len() == 1 && lines[0].spans[0].text == " "@ + section.title
            &&& lines[row + 1].spans.len() == 4
            &&& lines[row + 1].spans[1].text.len() == width
            &&& lines[row + 1].spans[1].text.take(section.keys[row].0.len() as int)
                == section.keys[row].0
            &&& lines[row + 1].spans[3].text == section.keys[row].1
        }),
{
    text_laws::law_padding_adds_spaces(section.keys[row].0, width);
    let lines = help::lines_of_section(section, width);
    let shown = lines[row + 1].spans[1].text;
    assert(shown.take(section.keys[row].0.len() as int) =~= section.keys[row].0);
}

proof fn lemma_longest_key(keys: Seq<(Seq<char>, Seq<char>)>)
    ensures
        forall|i: int|
            0 <= i < keys.len() ==> (#[trigger] keys[i]).0.len() <= help::longest_key(keys),
        keys.len() > 0 ==> exists|i: int|
            0 <= i < keys.len() && (#[trigger] keys[i]).0.len() == help::longest_key(keys),
    decreases keys.len(),
{
    if keys.len() > 0 {
        let before = keys.drop_last();
        lemma_longest_key(before);
        assert forall|i: int| 0 <= i < keys.len() implies (#[trigger] keys[i]).0.len()
            <= help::longest_key(keys) by {
            if i < before.len() {
                assert(before[i] == keys[i]);
            }
        }
        if keys.last().0.len() > help::longest_key(before) || before.len() == 0 {
            assert(keys[keys.len() - 1].0.len() == help::longest_key(keys));
        } else {
            let i = choose|i: int|
                0 <= i < before.len() && (#[trigger] before[i]).0.len() == help::longest_key(
                    before,
                );
            assert(keys[i].0.len() == help::longest_key(keys));
        }
    }
}

/// The keys of the help stand in a column as wide as the longest of them and no wider.
pub proof fn law_the_keys_share_one_column(sections: Seq<SectionView>)
    ensures
        forall|i: int, j: int|
            0 <= i < sections.len() && 0 <= j < sections[i].keys.len() ==> (
            #[trigger] sections[i].keys[j]).0.len() <= help::key_width(sections),
        help::key_width(sections) > 0 ==> exists|i: int, j: int|
            0 <= i < sections.len() && 0 <= j < sections[i].keys.len() && (
            #[trigger] sections[i].keys[j]).0.len() == help::key_width(sections),
    decreases sections.len(),
{
    if sections.len() > 0 {
        let before = sections.drop_last();
        let last = sections.len() - 1;
        law_the_keys_share_one_column(before);
        lemma_longest_key(sections.last().keys);
        assert forall|i: int, j: int|
            0 <= i < sections.len() && 0 <= j < sections[i].keys.len() implies (
        #[trigger] sections[i].keys[j]).0.len() <= help::key_width(sections) by {
            if i < last {
                assert(before[i].keys[j] == sections[i].keys[j]);
            } else {
                assert(sections.last().keys[j] == sections[i].keys[j]);
            }
        }
        if help::key_width(sections) > 0 {
            let keys = sections.last().keys;
            if help::longest_key(keys) > help::key_width(before) {
                assert(keys.len() > 0);
                let j = choose|j: int|
                    0 <= j < keys.len() && (#[trigger] keys[j]).0.len() == help::longest_key(keys);
                assert(sections[last].keys[j].0.len() == help::key_width(sections));
            } else {
                let (i, j) = choose|i: int, j: int|
                    0 <= i < before.len() && 0 <= j < before[i].keys.len() && (
                    #[trigger] before[i].keys[j]).0.len() == help::key_width(before);
                assert(sections[i].keys[j].0.len() == help::key_width(sections));
            }
        }
    }
}

} // verus!
