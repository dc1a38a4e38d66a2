//! What is drawn for every state of the navigator.
use crate::error::ErrxView;
use crate::globals::{Color, ACCENT, DIM, MARK, SCROLL_OFF};
use crate::io::dir::{self, RawListingView};
use crate::io::file::{self, HeadFaultView};
use crate::io::fs_ops::Presence;
use crate::io::{self, FileKind};
use crate::log_store::{self, LogEntryView, LogStoreView};
use crate::marks;
use crate::navigator::help;
use crate::navigator::model::{self, ModeView, NavView, PromptView};
use crate::navigator::rows;
use crate::notice::{self, NoticeView};
use crate::path;
use crate::plan;
use crate::screen::{
    self, Constraint, CutView, Direction, DrawView, Edge, LineView, Rect, SpanView, Style,
};
use crate::text;
use vstd::prelude::*;

verus! {

/// How many staged operations the plan panel shows before it stops growing.
pub const PLAN_PANEL_ROWS: usize = 6;

/// What is known from outside when a frame is drawn.
pub struct FactsView {
    /// What is at the paths of each staged operation.
    pub presence: Seq<Presence>,
    pub home: Option<Seq<char>>,
    pub now: u64,
    pub log: Option<LogStoreView>,
}

/// What is to be read for the preview of the entry under the cursor.
pub enum WantedView {
    Nothing,
    Dir(Seq<u8>),
    Text(Seq<u8>),
    Image(Seq<u8>),
    /// The image that is drawn already.
    Kept,
}

/// What was read for the preview.
pub enum PreviewView {
    Nothing,
    Dir(RawListingView),
    Text(Result<Seq<u8>, HeadFaultView>),
    Image(Result<(), ErrxView>),
    Kept,
}

/// The parts of the screen.
pub enum AreasView {
    Help { title: Rect, body: Rect, footer: Rect, columns: Seq<Rect> },
    Review { title: Rect, rows: Rect, footer: Rect },
    Normal { list: Rect, side: Rect, plan: Rect, bottom: Rect },
}

/// Whether the image at `path` is the one that is drawn.
pub open spec fn is_kept(s: NavView, path: Seq<u8>) -> bool {
    match s.cached_image {
        Some(kept) => plan::same_path(kept, path),
        None => false,
    }
}

/// Whether the listing is shown, with something beside or below it.
pub open spec fn shows_listing(s: NavView) -> bool {
    !(s.mode is Help) && !(s.mode is Review)
}

/// What is to be read for the preview.
pub open spec fn wanted(s: NavView) -> WantedView {
    if !shows_listing(s) || s.log_panel_visible || s.selected >= s.entries.len() {
        WantedView::Nothing
    } else {
        let entry = s.entries[s.selected];
        let path = path::join(s.current_dir, vstd::utf8::encode_utf8(entry.name));
        match io::kind_of(path, entry.is_dir) {
            FileKind::Dir => WantedView::Dir(path),
            FileKind::Text => WantedView::Text(path),
            FileKind::Image => if is_kept(s, path) {
                WantedView::Kept
            } else {
                WantedView::Image(path)
            },
        }
    }
}

/// Whether what was read is what was to be read.
pub open spec fn satisfies(wanted: WantedView, preview: PreviewView) -> bool {
    match wanted {
        WantedView::Nothing => preview is Nothing,
        WantedView::Dir(_) => preview is Dir,
        WantedView::Text(_) => preview is Text,
        WantedView::Image(_) => preview is Image,
        WantedView::Kept => preview is Kept,
    }
}

/// How many columns the help is given.
pub open spec fn column_count(columns: nat) -> nat {
    if 0 < columns <= u32::MAX {
        columns
    } else {
        1
    }
}

/// Whether the areas are those of the screen that is shown.
pub open spec fn areas_fit(s: NavView, areas: AreasView) -> bool {
    match areas {
        AreasView::Help { title, body, footer, columns } => s.mode is Help && columns.len()
            == columns_in(body.height),
        AreasView::Review { title, rows, footer } => s.mode is Review,
        AreasView::Normal { list, side, plan, bottom } => shows_listing(s),
    }
}

/// Whether `part` lies in `area`.
pub open spec fn is_inside(part: Rect, area: Rect) -> bool {
    screen::lies_within(part, area, Direction::Down) && screen::lies_within(
        part,
        area,
        Direction::Across,
    )
}

/// Whether `below` starts on the row under the last of `above`.
pub open spec fn follows(above: Rect, below: Rect) -> bool {
    below.y == above.y + above.height
}

/// Whether a page is divided into a title on top, a body below it, and a footer below
/// that, all of them from edge to edge.
pub open spec fn page_divided(title: Rect, body: Rect, footer: Rect, area: Rect) -> bool {
    &&& screen::spans_across(title, area, Direction::Down) && is_inside(title, area)
    &&& screen::spans_across(body, area, Direction::Down) && is_inside(body, area)
    &&& screen::spans_across(footer, area, Direction::Down) && is_inside(footer, area)
    &&& title.y == area.y
    &&& follows(title, body)
    &&& follows(body, footer)
}

/// Whether the areas divide `area` as the screen that is shown divides it. The listing
/// is in the upper left corner, with the preview to the right of it or the log below
/// it; below them is the plan, and below that the last line. Nothing overlaps and
/// nothing reaches out of `area`. Where there is room for everything, everything is in
/// its place.
pub open spec fn areas_divide(s: NavView, areas: AreasView, area: Rect) -> bool {
    &&& roomy(s, area) ==> areas == places(s, area)
    &&& match areas {
        AreasView::Help { title, body, footer, columns } => {
            &&& page_divided(title, body, footer, area)
            &&& screen::lie_in(columns, body, Direction::Across)
            &&& screen::touch(columns, Direction::Across)
        },
        AreasView::Review { title, rows, footer } => page_divided(title, rows, footer, area),
        AreasView::Normal { list, side, plan, bottom } => {
            &&& is_inside(list, area) && is_inside(side, area)
            &&& is_inside(plan, area) && is_inside(bottom, area)
            &&& list.x == area.x && list.y == area.y
            &&& if s.log_panel_visible {
                &&& screen::spans_across(list, area, Direction::Down)
                &&& screen::spans_across(side, area, Direction::Down)
                &&& follows(list, side)
                &&& side.y + side.height <= plan.y
            } else {
                &&& screen::spans_across(side, list, Direction::Across)
                &&& side.x == list.x + list.width
                &&& follows(list, plan)
            }
            &&& screen::spans_across(plan, area, Direction::Down)
            &&& screen::spans_across(bottom, area, Direction::Down)
            &&& follows(plan, bottom)
        },
    }
}

/// Whether the screen has room for what is shown now: for the rows that are given to
/// the plan, the last line, a title or a footer, and one more.
pub open spec fn roomy(s: NavView, area: Rect) -> bool {
    &&& area.x + area.width <= u16::MAX
    &&& area.y + area.height <= u16::MAX
    &&& if shows_listing(s) {
        area.height >= plan_rows(s.plan.len()) + 3
    } else {
        area.height >= 4
    }
}

/// The rows of `area` from row `top` on, `height` of them.
pub open spec fn rows_of(area: Rect, top: int, height: int) -> Rect {
    Rect { x: area.x, y: (area.y + top) as u16, width: area.width, height: height as u16 }
}

/// The columns of `area` from column `left` to column `right`.
pub open spec fn columns_between(area: Rect, left: int, right: int) -> Rect {
    Rect {
        x: (area.x + left) as u16,
        y: area.y,
        width: (right - left) as u16,
        height: area.height,
    }
}

/// Equal columns of `area`.
pub open spec fn equal_columns(area: Rect, count: nat) -> Seq<Rect> {
    Seq::new(
        count,
        |i: int|
            columns_between(
                area,
                screen::cells_of_share(area.width as int, i, count as int),
                screen::cells_of_share(area.width as int, i + 1, count as int),
            ),
    )
}

/// Where everything goes on a screen with room for it. A page has two rows for its title
/// and one for its footer. The last line has two rows, the plan has its own above them,
/// and the listing has the rest: two fifths of its width beside the preview, or three
/// tenths of its height above the log.
pub open spec fn places(s: NavView, area: Rect) -> AreasView {
    let title = rows_of(area, 0, 2);
    let body = rows_of(area, 2, area.height - 3);
    let footer = rows_of(area, area.height - 1, 1);
    if s.mode is Help {
        AreasView::Help {
            title,
            body,
            footer,
            columns: equal_columns(body, columns_in(body.height)),
        }
    } else if s.mode is Review {
        AreasView::Review { title, rows: body, footer }
    } else {
        let staged = plan_rows(s.plan.len());
        let rest = area.height - staged - 2;
        let upper = rows_of(area, 0, rest);
        let wide = screen::cells_of_share(upper.width as int, 40, 100);
        let tall = screen::cells_of_share(upper.height as int, 30, 100);
        let (list, side) = if s.log_panel_visible {
            (rows_of(upper, 0, tall), rows_of(upper, tall, rest - tall))
        } else {
            (columns_between(upper, 0, wide), columns_between(upper, wide, upper.width as int))
        };
        AreasView::Normal {
            list,
            side,
            plan: rows_of(area, rest, staged as int),
            bottom: rows_of(area, area.height - 2, 2),
        }
    }
}

/// How the whole screen is divided: into a title, a body and a footer, or into the
/// listing with what is shown beside it, the plan and the last line.
pub open spec fn frame_cut(s: NavView, area: Rect) -> CutView {
    CutView {
        area,
        along: Direction::Down,
        constraints: if shows_listing(s) {
            seq![
                Constraint::Min(1),
                Constraint::Length(plan_rows(s.plan.len()) as u16),
                Constraint::Length(2),
            ]
        } else {
            seq![Constraint::Length(2), Constraint::Min(1), Constraint::Length(1)]
        },
    }
}

/// How the upper part of the screen is divided: the listing beside the preview, or
/// above the log.
pub open spec fn listing_cut(s: NavView, area: Rect) -> CutView {
    if s.log_panel_visible {
        CutView {
            area,
            along: Direction::Down,
            constraints: seq![Constraint::Percentage(30), Constraint::Percentage(70)],
        }
    } else {
        CutView {
            area,
            along: Direction::Across,
            constraints: seq![Constraint::Percentage(40), Constraint::Percentage(60)],
        }
    }
}

/// How many columns the help gets in this many rows.
pub open spec fn columns_in(height: u16) -> nat {
    column_count(
        help::columns_of(help::all_sections(help::key_map()), height as nat).len(),
    )
}

/// How the body of the help is divided: into equal columns.
pub open spec fn column_cut(body: Rect) -> CutView {
    let count = columns_in(body.height);
    CutView {
        area: body,
        along: Direction::Across,
        constraints: Seq::new(count, |i: int| Constraint::Ratio(1, count as u32)),
    }
}

// ---------------------------------------------------------------------------
// The listing
// ---------------------------------------------------------------------------

/// Where the listing is scrolled to with `visible` rows of it in sight: the cursor
/// stays on screen with context beyond it, but never past the last entry.
pub open spec fn scrolled(s: NavView, visible: int) -> int {
    let context = screen::least(SCROLL_OFF as int, visible / 2);
    let wanted = if s.selected < s.scroll_offset + context {
        screen::less(s.selected, context)
    } else if s.selected + context >= s.scroll_offset + visible {
        screen::less(s.selected + context + 1, visible)
    } else {
        s.scroll_offset
    };
    screen::least(wanted, screen::less(s.entries.len() as int, visible))
}

/// Whether the entry at `row` is marked.
pub open spec fn is_marked(s: NavView, row: int) -> bool {
    marks::holds(
        s.marks,
        path::join(s.current_dir, vstd::utf8::encode_utf8(s.entries[row].name)),
    )
}

/// One row of the listing.
pub open spec fn listed_row(s: NavView, inner: Rect, i: int) -> DrawView {
    let row = s.scroll_offset + i;
    DrawView::Line {
        area: screen::row_of(inner, i),
        line: rows::entry_row(s.entries[row], row == s.selected, is_marked(s, row), s.search),
    }
}

/// The listing, scrolled.
pub open spec fn list_state(s: NavView, area: Rect) -> NavView {
    let inner = screen::inside_block(area, Edge::Right);
    NavView { scroll_offset: scrolled(s, inner.height as int), ..s }
}

/// The listing.
pub open spec fn list_drawn(s: NavView, area: Rect, home: Option<Seq<char>>) -> Seq<DrawView> {
    let inner = screen::inside_block(area, Edge::Right);
    let now = list_state(s, area);
    seq![
        DrawView::Block {
            area,
            edge: Edge::Right,
            style: screen::colored(DIM),
            title: Some(rows::title_of(s.current_dir, area.width, home)),
        },
    ] + Seq::new(
        screen::least(
            inner.height as int,
            screen::less(now.entries.len() as int, now.scroll_offset),
        ) as nat,
        |i: int| listed_row(now, inner, i),
    )
}

// ---------------------------------------------------------------------------
// The preview
// ---------------------------------------------------------------------------

/// Lines of text, or what stands in for them.
pub open spec fn text_drawn(area: Rect, content: Seq<char>) -> Seq<DrawView> {
    seq![DrawView::Text { area, text: content, style: rows::preview_look(content) }]
}

/// The preview of the entry under the cursor.
pub open spec fn preview_drawn(s: NavView, area: Rect, preview: PreviewView) -> Seq<DrawView> {
    match (wanted(s), preview) {
        (WantedView::Dir(path), PreviewView::Dir(answer)) => text_drawn(
            area,
            match dir::listing(path, answer) {
                Ok(entries) => rows::listing_preview(entries, area.height as int),
                Err(_) => "(cannot read directory)"@,
            },
        ),
        (WantedView::Text(path), PreviewView::Text(answer)) => text_drawn(
            area,
            file::shown_preview(path, answer, area.height as int),
        ),
        (WantedView::Image(path), PreviewView::Image(loaded)) => match loaded {
            Ok(()) => seq![DrawView::Image { area }],
            Err(_) => text_drawn(area, "(cannot load image)"@),
        },
        (WantedView::Kept, PreviewView::Kept) => seq![DrawView::Image { area }],
        _ => Seq::empty(),
    }
}

/// What is said of what was read for the preview. It is said before the navigator is
/// drawn, so that the last line of that same frame tells it.
pub open spec fn preview_told(s: NavView, preview: PreviewView) -> Seq<NoticeView> {
    match (wanted(s), preview) {
        (WantedView::Dir(path), PreviewView::Dir(answer)) => dir::listing_told(path, answer),
        (WantedView::Text(path), PreviewView::Text(answer)) => file::preview_told(path, answer),
        (WantedView::Image(path), PreviewView::Image(Err(errx))) => seq![
            notice::warn(errx.words()),
        ],
        _ => Seq::empty(),
    }
}

/// With the image that was loaded kept.
pub open spec fn preview_state(s: NavView, preview: PreviewView) -> NavView {
    match (wanted(s), preview) {
        (WantedView::Image(path), PreviewView::Image(Ok(()))) => NavView {
            cached_image: Some(path),
            ..s
        },
        _ => s,
    }
}

// ---------------------------------------------------------------------------
// The log
// ---------------------------------------------------------------------------

/// The log panel, scrolled no further than there are entries.
pub open spec fn log_state(s: NavView, area: Rect, log: Option<LogStoreView>) -> NavView {
    let visible = screen::inside_block(area, Edge::Top).height as int;
    match log {
        Some(log) => NavView {
            log_scroll_offset: screen::least(
                s.log_scroll_offset,
                screen::less(log.entries.len() as int, visible),
            ),
            ..s
        },
        None => s,
    }
}

/// The border above a panel.
pub open spec fn top_border(area: Rect, style: Style) -> DrawView {
    DrawView::Block { area, edge: Edge::Top, style, title: None }
}

/// The log panel: the newest entry at the bottom, so the first entry drawn goes on
/// the last row.
pub open spec fn log_drawn(s: NavView, area: Rect, log: Option<LogStoreView>) -> Seq<DrawView> {
    let inner = screen::inside_block(area, Edge::Top);
    let visible = inner.height as int;
    let offset = log_state(s, area, log).log_scroll_offset;
    let border = seq![top_border(area, screen::colored(DIM))];
    match log {
        Some(log) => border + Seq::new(
            screen::least(visible, screen::less(log.entries.len() as int, offset)) as nat,
            |i: int|
                DrawView::Line {
                    area: screen::row_of(inner, visible - 1 - i),
                    line: screen::line_of(
                        rows::spans_of_entry(log.entries[log.entries.len() - 1 - offset - i]),
                    ),
                },
        ),
        None => border,
    }
}

// ---------------------------------------------------------------------------
// The plan
// ---------------------------------------------------------------------------

/// How many rows the plan panel takes, its border included.
pub open spec fn plan_rows(count: nat) -> u16 {
    if count == 0 {
        0
    } else {
        (screen::least(count as int, PLAN_PANEL_ROWS as int) + 1) as u16
    }
}

/// The title of the plan panel.
pub open spec fn plan_title(count: nat) -> Seq<char> {
    let hidden = screen::less(count as int, PLAN_PANEL_ROWS as int) as nat;
    if hidden == 0 {
        " plan ("@ + text::decimal_text(count) + ") "@
    } else {
        " plan ("@ + text::decimal_text(count) + ", "@ + text::decimal_text(hidden) + " more) "@
    }
}

/// The plan panel.
pub open spec fn plan_drawn(
    s: NavView,
    area: Rect,
    presence: Seq<Presence>,
    home: Option<Seq<char>>,
) -> Seq<DrawView> {
    let inner = screen::inside_block(area, Edge::Top);
    seq![
        DrawView::Block {
            area,
            edge: Edge::Top,
            style: screen::colored(DIM),
            title: Some(screen::line_in(plan_title(s.plan.len()), screen::colored(DIM))),
        },
    ] + Seq::new(
        screen::least(inner.height as int, s.plan.len() as int) as nat,
        |i: int|
            DrawView::Line {
                area: screen::row_of(inner, i),
                line: rows::staged_row(s.plan[i], presence[i], false, inner.width, home),
            },
    )
}

/// How many of the flags are set.
pub open spec fn count_set(flags: Seq<bool>) -> nat
    decreases flags.len(),
{
    if flags.len() == 0 {
        0
    } else {
        count_set(flags.drop_last()) + if flags.last() {
            1nat
        } else {
            0nat
        }
    }
}

/// The keys of the review, with what they do.
pub open spec fn review_hints() -> Seq<(Seq<char>, Seq<char>)> {
    seq![
        ("enter"@, "apply"@),
        ("x"@, "drop"@),
        ("X"@, "drop blocked"@),
        ("r"@, "rename"@),
        ("esc"@, "back"@),
    ]
}

/// The line below the review.
pub open spec fn review_footer(blocked: nat) -> LineView {
    let start = seq![screen::raw(" "@)];
    let middle = if blocked > 0 {
        seq![
            screen::styled(
                text::decimal_text(blocked) + " blocked"@,
                screen::bold_colored(Color::Red),
            ),
            screen::styled("  \u{b7}  "@, screen::colored(DIM)),
        ]
    } else {
        Seq::empty()
    };
    screen::line_of(start + middle + rows::spans_of_hints(review_hints()))
}

/// The first staged operation in sight: just far enough down to keep the selected
/// one on screen.
pub open spec fn review_first(s: NavView, height: int) -> int {
    screen::less(s.review_selected + 1, height)
}

/// The review.
pub open spec fn review_drawn(
    s: NavView,
    title: Rect,
    rows: Rect,
    footer: Rect,
    presence: Seq<Presence>,
    home: Option<Seq<char>>,
) -> Seq<DrawView> {
    let first = review_first(s, rows.height as int);
    seq![
        DrawView::Line {
            area: title,
            line: screen::line_of(
                seq![
                    screen::styled(" review"@, screen::bold_colored(ACCENT)),
                    screen::styled(
                        "  \u{b7}  "@ + text::decimal_text(s.plan.len()) + " staged"@,
                        screen::colored(DIM),
                    ),
                ],
            ),
        },
    ] + Seq::new(
        screen::least(rows.height as int, screen::less(s.plan.len() as int, first)) as nat,
        |i: int|
            DrawView::Line {
                area: screen::row_of(rows, i),
                line: rows::staged_row(
                    s.plan[first + i],
                    presence[first + i],
                    first + i == s.review_selected,
                    rows.width,
                    home,
                ),
            },
    ) + seq![
        DrawView::Line {
            area: footer,
            line: review_footer(count_set(model::blocked(s.plan, presence))),
        },
    ]
}

// ---------------------------------------------------------------------------
// The bottom line
// ---------------------------------------------------------------------------

/// How many entries are marked, and how many of them elsewhere.
pub open spec fn marks_summary(marked: nat, elsewhere: nat) -> Seq<char> {
    if elsewhere == 0 {
        text::decimal_text(marked) + " marked"@
    } else {
        text::decimal_text(marked) + " marked ("@ + text::decimal_text(elsewhere) + " elsewhere)"@
    }
}

/// An age in seconds, or in minutes from a minute on.
pub open spec fn age_text(seconds: nat) -> Seq<char> {
    if seconds < 60 {
        text::decimal_text(seconds) + "s"@
    } else {
        text::decimal_text((seconds / 60) as nat) + "m"@
    }
}

/// The age of an entry in seconds.
pub open spec fn age_of(log: LogStoreView, entry: LogEntryView, now: u64) -> nat {
    (screen::less(
        log_store::since(log.start_time, now) as int,
        log_store::since(log.start_time, entry.timestamp) as int,
    ) / 1_000_000_000) as nat
}

/// The latest entry of the log, if there is one.
pub open spec fn latest(log: Option<LogStoreView>) -> Option<LogEntryView> {
    match log {
        Some(log) => if log.entries.len() > 0 {
            Some(log.entries.last())
        } else {
            None
        },
        None => None,
    }
}

/// What the status line says of the marks.
pub open spec fn marks_spans(s: NavView, followed: bool) -> Seq<SpanView> {
    if s.marks.len() == 0 {
        Seq::empty()
    } else {
        let summary = seq![
            screen::styled(
                marks_summary(s.marks.len(), marks::outside(s.marks, s.current_dir)),
                screen::bold_colored(MARK),
            ),
        ];
        if followed {
            summary.push(screen::styled("  \u{b7}  "@, screen::colored(DIM)))
        } else {
            summary
        }
    }
}

/// What the status line says of the latest entry of the log.
pub open spec fn latest_spans(facts: FactsView) -> Seq<SpanView> {
    match (facts.log, latest(facts.log)) {
        (Some(log), Some(entry)) => rows::spans_of_entry(entry).push(
            screen::styled(
                "  "@ + age_text(age_of(log, entry, facts.now)),
                screen::colored(DIM),
            ),
        ),
        _ => Seq::empty(),
    }
}

/// The status line: what is marked, and the latest message with its age.
pub open spec fn status_drawn(s: NavView, area: Rect, facts: FactsView) -> Seq<DrawView> {
    seq![
        top_border(area, screen::plain()),
        DrawView::Line {
            area: screen::inside_block(area, Edge::Top),
            line: screen::line_of(
                marks_spans(s, latest(facts.log) is Some) + latest_spans(facts),
            ),
        },
    ]
}

/// The prompt being typed at.
pub open spec fn prompt_drawn(prompt: PromptView, area: Rect) -> Seq<DrawView> {
    seq![
        top_border(area, screen::colored(DIM)),
        DrawView::Line {
            area: screen::inside_block(area, Edge::Top),
            line: screen::line_of(
                seq![
                    screen::styled(prompt.label, screen::colored(DIM)),
                    screen::styled(" \u{203a} "@, screen::bold_colored(ACCENT)),
                    screen::raw(prompt.input),
                    screen::styled("\u{258f}"@, screen::colored(ACCENT)),
                ],
            ),
        },
    ]
}

// ---------------------------------------------------------------------------
// The help
// ---------------------------------------------------------------------------

/// One column of the help.
pub open spec fn column_drawn(area: Rect, lines: Seq<LineView>) -> Seq<DrawView> {
    Seq::new(
        lines.len(),
        |i: int| DrawView::Line { area: screen::row_of(area, i), line: lines[i] },
    )
}

/// The first `count` columns of the help.
pub open spec fn columns_drawn(
    areas: Seq<Rect>,
    columns: Seq<Seq<LineView>>,
    count: int,
) -> Seq<DrawView>
    decreases count,
{
    if count <= 0 {
        Seq::empty()
    } else {
        columns_drawn(areas, columns, count - 1) + column_drawn(
            areas[count - 1],
            columns[count - 1],
        )
    }
}

/// The key map.
pub open spec fn help_drawn(title: Rect, body: Rect, footer: Rect, areas: Seq<Rect>) -> Seq<
    DrawView,
> {
    let columns = help::columns_of(help::all_sections(help::key_map()), body.height as nat);
    seq![
        DrawView::Line {
            area: title,
            line: screen::line_of(
                seq![
                    screen::styled(" nav"@, screen::bold_colored(ACCENT)),
                    screen::styled("  \u{b7}  keys"@, screen::colored(DIM)),
                ],
            ),
        },
    ] + columns_drawn(
        areas,
        columns,
        screen::least(areas.len() as int, columns.len() as int),
    ) + seq![
        DrawView::Line {
            area: footer,
            line: screen::line_in(" press any key to go back"@, screen::colored(DIM)),
        },
    ]
}

// ---------------------------------------------------------------------------
// The whole screen
// ---------------------------------------------------------------------------

/// What goes beside or below the listing.
pub open spec fn side_drawn(s: NavView, side: Rect, facts: FactsView, preview: PreviewView) -> Seq<
    DrawView,
> {
    if s.log_panel_visible {
        log_drawn(s, side, facts.log)
    } else {
        preview_drawn(s, screen::without_sides(side), preview)
    }
}

/// The bottom line: what is being typed, or what is going on.
pub open spec fn bottom_drawn(s: NavView, bottom: Rect, facts: FactsView) -> Seq<DrawView> {
    match s.mode {
        ModeView::Prompt(prompt) => prompt_drawn(prompt, bottom),
        _ => status_drawn(s, bottom, facts),
    }
}

/// Everything that is drawn.
pub open spec fn drawn(
    s: NavView,
    areas: AreasView,
    facts: FactsView,
    preview: PreviewView,
) -> Seq<DrawView> {
    match areas {
        AreasView::Help { title, body, footer, columns } => help_drawn(
            title,
            body,
            footer,
            columns,
        ),
        AreasView::Review { title, rows, footer } => review_drawn(
            s,
            title,
            rows,
            footer,
            facts.presence,
            facts.home,
        ),
        AreasView::Normal { list, side, plan, bottom } => {
            let panel = if s.plan.len() > 0 {
                plan_drawn(s, plan, facts.presence, facts.home)
            } else {
                Seq::empty()
            };
            list_drawn(s, list, facts.home) + side_drawn(s, side, facts, preview) + panel
                + bottom_drawn(s, bottom, facts)
        },
    }
}

/// The navigator once it has been drawn: scrolled, and with the image kept.
pub open spec fn drawn_state(
    s: NavView,
    areas: AreasView,
    facts: FactsView,
    preview: PreviewView,
) -> NavView {
    match areas {
        AreasView::Normal { list, side, plan, bottom } => {
            let listed = list_state(s, list);
            if s.log_panel_visible {
                log_state(listed, side, facts.log)
            } else {
                preview_state(listed, preview)
            }
        },
        _ => s,
    }
}

} // verus!
