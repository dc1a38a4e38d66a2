//! What is put on the screen: areas, styled text, and the order it is drawn in.
use crate::globals::Color;
use ratatui::layout::Constraint as Bound;
use ratatui::{layout, widgets};
use vstd::prelude::*;

verus! {

broadcast use {vstd::seq::group_seq_axioms, vstd::seq_lib::group_seq_properties};

/// Part of the screen.
#[derive(Debug, Clone, Copy, PartialEq, Eq, Structural)]
pub struct Rect {
    pub x: u16,
    pub y: u16,
    pub width: u16,
    pub height: u16,
}

/// How much of an area a part of it gets.
#[derive(Debug, Clone, Copy, PartialEq, Eq, Structural)]
pub enum Constraint {
    Min(u16),
    Length(u16),
    Percentage(u16),
    Ratio(u32, u32),
}

/// Along which direction an area is split.
#[derive(Debug, Clone, Copy, PartialEq, Eq, Structural)]
pub enum Direction {
    Down,
    Across,
}

/// Which edge of an area has a border.
#[derive(Debug, Clone, Copy, PartialEq, Eq, Structural)]
pub enum Edge {
    Top,
    Right,
}

/// One division of an area.
#[derive(Debug)]
pub struct Cut {
    pub area: Rect,
    pub along: Direction,
    pub constraints: Vec<Constraint>,
}

/// One division of an area, over its constraints.
#[verifier::ext_equal]
pub struct CutView {
    pub area: Rect,
    pub along: Direction,
    pub constraints: Seq<Constraint>,
}

impl View for Cut {
    type V = CutView;

    open spec fn view(&self) -> CutView {
        CutView { area: self.area, along: self.along, constraints: self.constraints@ }
    }
}

/// How text looks.
#[derive(Debug, Clone, Copy, PartialEq, Eq, Structural)]
pub struct Style {
    pub fg: Option<Color>,
    pub bg: Option<Color>,
    pub bold: bool,
    pub italic: bool,
}

/// Text in one style.
#[derive(Debug)]
pub struct Span {
    pub text: String,
    pub style: Style,
}

/// Text in one style, over its characters.
pub struct SpanView {
    pub text: Seq<char>,
    pub style: Style,
}

impl View for Span {
    type V = SpanView;

    open spec fn view(&self) -> SpanView {
        SpanView { text: self.text@, style: self.style }
    }
}

/// One line, with a style of its own below that of its spans.
#[derive(Debug)]
pub struct Line {
    pub spans: Vec<Span>,
    pub style: Style,
}

/// One line, over its characters.
#[verifier::ext_equal]
pub struct LineView {
    pub spans: Seq<SpanView>,
    pub style: Style,
}

/// The spans over their characters.
pub open spec fn span_views(spans: Seq<Span>) -> Seq<SpanView> {
    Seq::new(spans.len(), |i: int| spans[i]@)
}

impl View for Line {
    type V = LineView;

    open spec fn view(&self) -> LineView {
        LineView { spans: span_views(self.spans@), style: self.style }
    }
}

/// The lines over their characters.
pub open spec fn line_views(lines: Seq<Line>) -> Seq<LineView> {
    Seq::new(lines.len(), |i: int| lines[i]@)
}

/// One thing to draw.
#[derive(Debug)]
pub enum Draw {
    /// A border along one edge of an area, with a title along its top.
    Block { area: Rect, edge: Edge, style: Style, title: Option<Line> },
    /// A line along the top of an area.
    Line { area: Rect, line: Line },
    /// Lines of text from the top of an area.
    Text { area: Rect, text: String, style: Style },
    /// The image that was loaded.
    Image { area: Rect },
}

/// One thing to draw, over its characters.
pub enum DrawView {
    Block { area: Rect, edge: Edge, style: Style, title: Option<LineView> },
    Line { area: Rect, line: LineView },
    Text { area: Rect, text: Seq<char>, style: Style },
    Image { area: Rect },
}

impl View for Draw {
    type V = DrawView;

    open spec fn view(&self) -> DrawView {
        match self {
            Draw::Block { area, edge, style, title } => DrawView::Block {
                area: *area,
                edge: *edge,
                style: *style,
                title: match title {
                    Some(title) => Some(title@),
                    None => None,
                },
            },
            Draw::Line { area, line } => DrawView::Line { area: *area, line: line@ },
            Draw::Text { area, text, style } => DrawView::Text {
                area: *area,
                text: text@,
                style: *style,
            },
            Draw::Image { area } => DrawView::Image { area: *area },
        }
    }
}

/// The things to draw, over their characters.
pub open spec fn draw_views(draws: Seq<Draw>) -> Seq<DrawView> {
    Seq::new(draws.len(), |i: int| draws[i]@)
}

/// The terminal's own look.
pub open spec fn plain() -> Style {
    Style { fg: None, bg: None, bold: false, italic: false }
}

/// In one color.
pub open spec fn colored(color: Color) -> Style {
    Style { fg: Some(color), ..plain() }
}

/// In one color and bold.
pub open spec fn bold_colored(color: Color) -> Style {
    Style { bold: true, ..colored(color) }
}

/// Text in the terminal's own look.
pub open spec fn raw(text: Seq<char>) -> SpanView {
    SpanView { text, style: plain() }
}

/// Text in a style.
pub open spec fn styled(text: Seq<char>, style: Style) -> SpanView {
    SpanView { text, style }
}

/// A line of these spans.
pub open spec fn line_of(spans: Seq<SpanView>) -> LineView {
    LineView { spans, style: plain() }
}

/// A line that is a style throughout.
pub open spec fn line_in(text: Seq<char>, style: Style) -> LineView {
    LineView { spans: seq![raw(text)], style }
}

impl Style {
    /// The terminal's own look.
    pub fn new() -> (style: Style)
        ensures
            style == plain(),
    {
        Style { fg: None, bg: None, bold: false, italic: false }
    }

    /// In one color.
    pub fn of(color: Color) -> (style: Style)
        ensures
            style == colored(color),
    {
        Style { fg: Some(color), bg: None, bold: false, italic: false }
    }

    /// In one color and bold.
    pub fn bold_of(color: Color) -> (style: Style)
        ensures
            style == bold_colored(color),
    {
        Style { fg: Some(color), bg: None, bold: true, italic: false }
    }
}

impl Line {
    /// A line with nothing on it yet.
    pub fn new() -> (line: Line)
        ensures
            line@ == line_of(Seq::empty()),
    {
        let line = Line { spans: Vec::new(), style: Style::new() };
        proof {
            assert(line@.spans =~= Seq::empty());
        }
        line
    }

    /// A line that is a style throughout.
    pub fn styled(text: String, style: Style) -> (line: Line)
        ensures
            line@ == line_in(text@, style),
    {
        let mut spans: Vec<Span> = Vec::new();
        spans.push(Span { text, style: Style::new() });
        let line = Line { spans, style };
        proof {
            assert(line@.spans =~= seq![raw(text@)]);
        }
        line
    }

    /// A line of these spans.
    pub fn from_spans(spans: Vec<Span>) -> (line: Line)
        ensures
            line@ == line_of(span_views(spans@)),
    {
        Line { spans, style: Style::new() }
    }
}

/// Puts a span at the end.
pub fn add_span(spans: &mut Vec<Span>, text: String, style: Style)
    ensures
        span_views(final(spans)@) == span_views(old(spans)@).push(styled(text@, style)),
{
    spans.push(Span { text, style });
    proof {
        assert(span_views(spans@) =~= span_views(old(spans)@).push(styled(text@, style)));
    }
}

/// Puts a thing to draw at the end.
pub fn add_draw(draws: &mut Vec<Draw>, draw: Draw)
    ensures
        draw_views(final(draws)@) == draw_views(old(draws)@).push(draw@),
{
    draws.push(draw);
    proof {
        assert(draw_views(draws@) =~= draw_views(old(draws)@).push(draw@));
    }
}

/// The smaller of two numbers.
pub open spec fn least(a: int, b: int) -> int {
    if a < b {
        a
    } else {
        b
    }
}

/// `a` less `b`, or nothing.
pub open spec fn less(a: int, b: int) -> int {
    if a > b {
        a - b
    } else {
        0
    }
}

/// What a border along one edge, and a title along the top, leave of an area.
pub open spec fn inside_block(area: Rect, edge: Edge) -> Rect {
    Rect {
        x: area.x,
        y: least(
            least(area.y + 1, u16::MAX as int),
            least(area.y + area.height, u16::MAX as int),
        ) as u16,
        width: if edge == Edge::Right {
            less(area.width as int, 1) as u16
        } else {
            area.width
        },
        height: less(area.height as int, 1) as u16,
    }
}

/// An area with one column less on either side.
pub open spec fn without_sides(area: Rect) -> Rect {
    if area.width < 2 {
        Rect { x: 0, y: 0, width: 0, height: 0 }
    } else {
        Rect {
            x: least(area.x + 1, u16::MAX as int) as u16,
            y: area.y,
            width: (area.width - 2) as u16,
            height: area.height,
        }
    }
}

/// An area moved down by so many rows, as far as the screen's numbers reach.
pub open spec fn down_by(area: Rect, rows: int) -> Rect {
    Rect {
        x: least(area.x as int, u16::MAX - area.width) as u16,
        y: least(area.y + rows, u16::MAX - area.height) as u16,
        ..area
    }
}

/// Row `n` of an area, counted from its top.
pub open spec fn row_of(area: Rect, n: int) -> Rect {
    down_by(area, least(n, i32::MAX as int))
}

/// Whether `part` is as large as the whole area across the direction it is split
/// along.
pub open spec fn spans_across(part: Rect, area: Rect, along: Direction) -> bool {
    match along {
        Direction::Down => part.x == area.x && part.width == area.width,
        Direction::Across => part.y == area.y && part.height == area.height,
    }
}

/// Where an area starts along a direction.
pub open spec fn start_of(area: Rect, along: Direction) -> int {
    match along {
        Direction::Down => area.y as int,
        Direction::Across => area.x as int,
    }
}

/// Where an area ends along a direction.
pub open spec fn end_of(area: Rect, along: Direction) -> int {
    match along {
        Direction::Down => area.y + area.height,
        Direction::Across => area.x + area.width,
    }
}

/// Whether `part` lies in `area` along a direction.
pub open spec fn lies_within(part: Rect, area: Rect, along: Direction) -> bool {
    start_of(area, along) <= start_of(part, along) && end_of(part, along) <= end_of(area, along)
}

/// Whether `parts` lie in `area` along a direction: each of them is as large as it is
/// across, and the first starts where it starts.
pub open spec fn lie_in(parts: Seq<Rect>, area: Rect, along: Direction) -> bool {
    &&& forall|i: int|
        0 <= i < parts.len() ==> spans_across(#[trigger] parts[i], area, along) && lies_within(
            parts[i],
            area,
            along,
        )
    &&& parts.len() > 0 ==> start_of(parts[0], along) == start_of(area, along)
}

/// Whether each part starts where the one before it ends.
pub open spec fn touch(parts: Seq<Rect>, along: Direction) -> bool {
    forall|i: int, j: int|
        0 <= i && j == i + 1 && j < parts.len() ==> start_of(#[trigger] parts[j], along) == end_of(
            #[trigger] parts[i],
            along,
        )
}

/// How large an area is along a direction.
pub open spec fn extent(area: Rect, along: Direction) -> int {
    match along {
        Direction::Down => area.height as int,
        Direction::Across => area.width as int,
    }
}

/// Whether the parts are given in cells, but for at most one that takes what is left.
pub open spec fn in_cells(constraints: Seq<Constraint>) -> bool {
    &&& forall|i: int|
        0 <= i < constraints.len() ==> #[trigger] constraints[i] is Length || constraints[i] is Min
    &&& forall|i: int, j: int|
        0 <= i < j < constraints.len() ==> !(#[trigger] constraints[i] is Min)
            || !(#[trigger] constraints[j] is Min)
}

/// How many cells the parts ask for together.
pub open spec fn asked(constraints: Seq<Constraint>) -> int
    decreases constraints.len(),
{
    if constraints.len() == 0 {
        0
    } else {
        asked(constraints.drop_last()) + match constraints.last() {
            Constraint::Length(n) => n as int,
            Constraint::Min(n) => n as int,
            _ => 0,
        }
    }
}

/// Whether one part takes what is left and the others are given in cells, with room for
/// all of them.
pub open spec fn has_slack(constraints: Seq<Constraint>, size: int) -> bool {
    &&& in_cells(constraints)
    &&& exists|i: int| 0 <= i < constraints.len() && #[trigger] constraints[i] is Min
    &&& asked(constraints) <= size
}

/// Whether there are two parts, given as percentages that make up the whole.
pub open spec fn in_percent(constraints: Seq<Constraint>) -> bool {
    constraints.len() == 2 && match (constraints[0], constraints[1]) {
        (Constraint::Percentage(p), Constraint::Percentage(q)) => p + q == 100,
        _ => false,
    }
}

/// Whether every part is given the same share of the whole.
pub open spec fn in_equal_shares(constraints: Seq<Constraint>) -> bool {
    forall|i: int|
        0 <= i < constraints.len() ==> #[trigger] constraints[i] == Constraint::Ratio(
            1,
            constraints.len() as u32,
        )
}

/// The share of the whole that the parts up to and with part `i` take together, as a
/// number of parts and how many there are in all.
pub open spec fn share_through(constraints: Seq<Constraint>, i: int) -> (int, int) {
    match constraints[i] {
        Constraint::Percentage(p) => if i == 0 {
            (p as int, 100)
        } else {
            (100, 100)
        },
        _ => (i + 1, constraints.len() as int),
    }
}

/// How many cells a share of `size` cells comes to, rounded to hundredths of a cell and
/// then to cells, halves upwards.
pub open spec fn cells_of_share(size: int, share: int, of: int) -> int {
    ((200 * size * share + of) / (2 * of) + 50) / 100
}

/// No share comes to no cells.
pub proof fn lemma_no_share(size: int, of: int)
    requires
        of > 0,
    ensures
        cells_of_share(size, 0, of) == 0,
{
    assert(200 * size * 0 == 0) by (nonlinear_arith);
    assert(of / (2 * of) == 0) by (nonlinear_arith)
        requires
            of > 0,
    ;
}

/// Whether an edge that two parts share is the same edge to either of them once it is
/// rounded. Few parts in cells, percentages of the whole and few equal shares have no
/// edge near the point that rounding turns on.
pub open spec fn rounds_evenly(constraints: Seq<Constraint>) -> bool {
    constraints.len() < 100 && (in_cells(constraints) || in_percent(constraints)
        || in_equal_shares(constraints))
}

/// Whether the parts are as large as they were asked to be. Where one of them takes what
/// is left, the others have the cells they asked for; shares end where their cells end.
/// Either way the last part ends where the whole ends.
pub open spec fn as_asked(
    parts: Seq<Rect>,
    area: Rect,
    along: Direction,
    constraints: Seq<Constraint>,
) -> bool {
    let size = extent(area, along);
    &&& has_slack(constraints, size) ==> forall|i: int|
        0 <= i < parts.len() ==> match #[trigger] constraints[i] {
            Constraint::Length(n) => extent(parts[i], along) == n,
            _ => true,
        }
    &&& in_percent(constraints) || in_equal_shares(constraints) ==> forall|i: int|
        0 <= i < parts.len() ==> {
            let (share, of) = share_through(constraints, i);
            end_of(#[trigger] parts[i], along) == start_of(area, along) + cells_of_share(
                size,
                share,
                of,
            )
        }
    &&& has_slack(constraints, size) || in_percent(constraints) || in_equal_shares(constraints)
        ==> parts.len() > 0 ==> end_of(parts.last(), along) == end_of(area, along)
}

/// `Block::inner` of ratatui, for a block with a border along one edge and a title:
/// the top row goes to the border or the title, the last column to a border along
/// the right.
#[verifier::external_body]
pub(crate) fn block_inner(area: Rect, edge: Edge) -> (inside: Rect)
    ensures
        inside == inside_block(area, edge),
{
    let Rect { x, y, width, height } = area;
    let borders = match edge {
        Edge::Top => widgets::Borders::TOP,
        Edge::Right => widgets::Borders::RIGHT,
    };
    let block = widgets::Block::default().borders(borders).title("");
    let inside = block.inner(layout::Rect { x, y, width, height });
    Rect { x: inside.x, y: inside.y, width: inside.width, height: inside.height }
}

/// `Rect::inner` of ratatui with a margin of one column and no row: nothing of an
/// area narrower than the two columns is left.
#[verifier::external_body]
pub(crate) fn inner_columns(area: Rect) -> (inside: Rect)
    ensures
        inside == without_sides(area),
{
    let Rect { x, y, width, height } = area;
    let margin = layout::Margin::new(1, 0);
    let inside = layout::Rect { x, y, width, height }.inner(margin);
    Rect { x: inside.x, y: inside.y, width: inside.width, height: inside.height }
}

/// `Rect::offset` of ratatui, downwards: the area keeps its size, and its position
/// is held where its edges still are numbers of the screen.
#[verifier::external_body]
fn offset_down(area: Rect, rows: i32) -> (moved: Rect)
    requires
        rows >= 0,
    ensures
        moved == down_by(area, rows as int),
{
    let Rect { x, y, width, height } = area;
    let offset = layout::Offset { x: 0, y: rows };
    let moved = layout::Rect { x, y, width, height }.offset(offset);
    Rect { x: moved.x, y: moved.y, width: moved.width, height: moved.height }
}

/// `Layout::split` of ratatui along one direction, with the default flex and spacing.
/// There is one area for each constraint. Across the direction each is as large as the
/// whole; along it each lies in the whole, the first where the whole starts and the
/// others one after the other, without space or overlap between them. As their edges are
/// rounded one by one, that they touch is said only where no edge can be at the point
/// that rounding turns on. Constraints that can all be met are met: fewer than a hundred
/// parts in cells beside one that takes what is left, percentages that make up the whole,
/// and fewer than a hundred equal shares. That is said of areas whose last cell can be
/// counted. Which constraints give way where not all can be met is not said.
#[verifier::external_body]
pub(crate) fn split(area: Rect, along: Direction, constraints: &Vec<Constraint>) -> (areas: Vec<
    Rect,
>)
    ensures
        areas@.len() == constraints@.len(),
        lie_in(areas@, area, along),
        rounds_evenly(constraints@) ==> touch(areas@, along),
        rounds_evenly(constraints@) && end_of(area, along) <= u16::MAX ==> as_asked(
            areas@,
            area,
            along,
            constraints@,
        ),
{
    let given = constraints.iter().map(|c| match *c {
        Constraint::Min(n) => Bound::Min(n),
        Constraint::Length(n) => Bound::Length(n),
        Constraint::Percentage(n) => Bound::Percentage(n),
        Constraint::Ratio(n, of) => Bound::Ratio(n, of),
    });
    let direction = match along {
        Direction::Down => layout::Direction::Vertical,
        Direction::Across => layout::Direction::Horizontal,
    };
    let Rect { x, y, width, height } = area;
    let split = layout::Layout::new(direction, given).split(layout::Rect { x, y, width, height });
    split.iter().map(|r| Rect { x: r.x, y: r.y, width: r.width, height: r.height }).collect()
}

/// The parts of an area that a division gives.
pub fn parts_of(cut: &Cut) -> (parts: Vec<Rect>)
    ensures
        parts@.len() == cut@.constraints.len(),
        lie_in(parts@, cut@.area, cut@.along),
        rounds_evenly(cut@.constraints) ==> touch(parts@, cut@.along),
        rounds_evenly(cut@.constraints) && end_of(cut@.area, cut@.along) <= u16::MAX ==> as_asked(
            parts@,
            cut@.area,
            cut@.along,
            cut@.constraints,
        ),
{
    split(cut.area, cut.along, &cut.constraints)
}

/// Row `n` of `area`, counted from its top.
pub fn row(area: Rect, n: usize) -> (line: Rect)
    ensures
        line == row_of(area, n as int),
{
    let rows: i32 = if n > i32::MAX as usize {
        i32::MAX
    } else {
        n as i32
    };
    offset_down(area, rows)
}

} // verus!
