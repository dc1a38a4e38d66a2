//! Drawing the navigator.
use crate::error::Resultx;
use crate::globals::{Color, ACCENT, DIM, MARK, SCROLL_OFF};
use crate::io::dir::{self, listed, say_listing, RawListing};
use crate::io::file::{self, say_preview, shown_text, HeadFault};
use crate::io::fs_ops::{self, Presence};
use crate::io::FileKind;
use crate::log_store::LogStore;
use crate::logging::store::LogLevel;
use crate::marks;
use crate::navigator::help::{self, help_columns};
use crate::navigator::help_laws;
use crate::navigator::model::{self, NavView};
use crate::navigator::picture::{
    self, AreasView, FactsView, PreviewView, WantedView, PLAN_PANEL_ROWS,
};
use crate::navigator::rows::{
    self, directory_preview, entry_line, hints, log_spans, path_title, plan_row, preview_text,
};
use crate::navigator::{result_view, silent, Mode, Navigator, Prompt};
use crate::notice::{self, say, Notice};
use crate::path::{self, FilePath};
use crate::screen::{
    self, add_draw, add_span, block_inner, inner_columns, parts_of, row, Constraint, Cut, Direction,
    Draw, DrawView, Edge, Line, Rect, Span, Style,
};
use crate::text::{self, cat, cat3, decimal};
use vstd::prelude::*;
use vstd::string::StringExecFns;

verus! {

broadcast use {vstd::seq::group_seq_axioms, vstd::seq_lib::group_seq_properties};

/// What is known from outside when a frame is drawn.
#[derive(Debug)]
pub struct Facts {
    /// What is at the paths of each staged operation.
    pub presence: Vec<Presence>,
    /// The home directory.
    pub home: Option<String>,
    /// The time, on the clock of the log.
    pub now: u64,
}

/// What is known from outside, the log included.
pub open spec fn facts_view(facts: Facts, log: Option<&LogStore>) -> FactsView {
    FactsView {
        presence: facts.presence@,
        home: facts.home_view(),
        now: facts.now,
        log: match log {
            Some(log) => Some(log@),
            None => None,
        },
    }
}

impl Facts {
    /// The home directory, over its text.
    pub open spec fn home_view(&self) -> Option<Seq<char>> {
        match self.home {
            Some(home) => Some(home@),
            None => None,
        }
    }

    /// The home directory.
    fn home_dir(&self) -> (home: Option<&str>)
        ensures
            match (home, self.home) {
                (Some(home), Some(given)) => home@ == given@,
                (None, None) => true,
                _ => false,
            },
    {
        match &self.home {
            Some(home) => Some(home.as_str()),
            None => None,
        }
    }
}

/// What is to be read for the preview of the entry under the cursor.
#[derive(Debug)]
pub enum Wanted {
    Nothing,
    Dir(FilePath),
    Text(FilePath),
    Image(FilePath),
    /// The image that is drawn already.
    Kept,
}

impl View for Wanted {
    type V = WantedView;

    open spec fn view(&self) -> WantedView {
        match self {
            Wanted::Nothing => WantedView::Nothing,
            Wanted::Dir(path) => WantedView::Dir(path@),
            Wanted::Text(path) => WantedView::Text(path@),
            Wanted::Image(path) => WantedView::Image(path@),
            Wanted::Kept => WantedView::Kept,
        }
    }
}

/// What was read for the preview.
#[derive(Debug)]
pub enum Preview {
    Nothing,
    Dir(RawListing),
    Text(Result<Vec<u8>, HeadFault>),
    /// Whether the image could be loaded.
    Image(Resultx<()>),
    Kept,
}

impl View for Preview {
    type V = PreviewView;

    open spec fn view(&self) -> PreviewView {
        match self {
            Preview::Nothing => PreviewView::Nothing,
            Preview::Dir(answer) => PreviewView::Dir(dir::raw_listing_view(*answer)),
            Preview::Text(answer) => PreviewView::Text(file::head_view(*answer)),
            Preview::Image(loaded) => PreviewView::Image(result_view(*loaded)),
            Preview::Kept => PreviewView::Kept,
        }
    }
}

/// The parts of the screen.
#[derive(Debug)]
pub enum Areas {
    Help { title: Rect, body: Rect, footer: Rect, columns: Vec<Rect> },
    Review { title: Rect, rows: Rect, footer: Rect },
    Normal { list: Rect, side: Rect, plan: Rect, bottom: Rect },
}

impl View for Areas {
    type V = AreasView;

    open spec fn view(&self) -> AreasView {
        match self {
            Areas::Help { title, body, footer, columns } => AreasView::Help {
                title: *title,
                body: *body,
                footer: *footer,
                columns: columns@,
            },
            Areas::Review { title, rows, footer } => AreasView::Review {
                title: *title,
                rows: *rows,
                footer: *footer,
            },
            Areas::Normal { list, side, plan, bottom } => AreasView::Normal {
                list: *list,
                side: *side,
                plan: *plan,
                bottom: *bottom,
            },
        }
    }
}

/// One frame: what is drawn, in order.
#[derive(Debug)]
pub struct Frame {
    pub draws: Vec<Draw>,
}

/// A title, a body that takes what is left, and a footer.
pub fn page_constraints() -> (constraints: Vec<Constraint>)
    ensures
        constraints@ == seq![Constraint::Length(2), Constraint::Min(1), Constraint::Length(1)],
{
    let mut constraints: Vec<Constraint> = Vec::new();
    constraints.push(Constraint::Length(2));
    constraints.push(Constraint::Min(1));
    constraints.push(Constraint::Length(1));
    proof {
        assert(constraints@ =~= seq![
            Constraint::Length(2),
            Constraint::Min(1),
            Constraint::Length(1),
        ]);
    }
    constraints
}

/// The listing, the staged plan when there is one, then one line that is either what
/// you are typing or the latest message.
pub fn frame_constraints(plan_rows: u16) -> (constraints: Vec<Constraint>)
    ensures
        constraints@ == seq![
            Constraint::Min(1),
            Constraint::Length(plan_rows),
            Constraint::Length(2),
        ],
{
    let mut constraints: Vec<Constraint> = Vec::new();
    constraints.push(Constraint::Min(1));
    constraints.push(Constraint::Length(plan_rows));
    constraints.push(Constraint::Length(2));
    proof {
        assert(constraints@ =~= seq![
            Constraint::Min(1),
            Constraint::Length(plan_rows),
            Constraint::Length(2),
        ]);
    }
    constraints
}

/// Two parts of an area, by percentage.
pub fn shares(first: u16, second: u16) -> (constraints: Vec<Constraint>)
    ensures
        constraints@ == seq![Constraint::Percentage(first), Constraint::Percentage(second)],
{
    let mut constraints: Vec<Constraint> = Vec::new();
    constraints.push(Constraint::Percentage(first));
    constraints.push(Constraint::Percentage(second));
    proof {
        assert(constraints@ =~= seq![
            Constraint::Percentage(first),
            Constraint::Percentage(second),
        ]);
    }
    constraints
}

/// `count` equal parts of an area.
pub fn equal_shares(count: usize) -> (constraints: Vec<Constraint>)
    requires
        0 < count <= u32::MAX,
    ensures
        constraints@ == Seq::new(count as nat, |i: int| Constraint::Ratio(1, count as u32)),
{
    let mut constraints: Vec<Constraint> = Vec::new();
    let mut i: usize = 0;
    while i < count
        invariant
            i <= count <= u32::MAX,
            constraints@.len() == i,
            forall|k: int|
                0 <= k < i ==> #[trigger] constraints@[k] == Constraint::Ratio(1, count as u32),
        decreases count - i,
    {
        constraints.push(Constraint::Ratio(1, count as u32));
        i = i + 1;
    }
    proof {
        assert(constraints@ =~= Seq::new(
            count as nat,
            |i: int| Constraint::Ratio(1, count as u32),
        ));
    }
    constraints
}

/// How the body of the help is divided: into equal columns.
pub fn column_cut(body: Rect) -> (cut: Cut)
    ensures
        cut@ == picture::column_cut(body),
{
    let columns = help_columns(body.height as usize);
    proof {
        assert(help::column_views(columns@).len() == columns@.len());
    }
    let count: usize = if columns.len() == 0 || columns.len() > u32::MAX as usize {
        1
    } else {
        columns.len()
    };
    Cut { area: body, along: Direction::Across, constraints: equal_shares(count) }
}

/// The listing and what is shown beside it, out of the two parts of the upper part of
/// the screen; the plan and the last line, out of the parts below that.
pub fn placed(chunks: &Vec<Rect>, halves: &Vec<Rect>) -> (areas: Areas)
    requires
        chunks@.len() == 3,
        halves@.len() == 2,
    ensures
        areas@ == (AreasView::Normal {
            list: halves@[0],
            side: halves@[1],
            plan: chunks@[1],
            bottom: chunks@[2],
        }),
{
    Areas::Normal { list: halves[0], side: halves[1], plan: chunks[1], bottom: chunks[2] }
}

/// The parts of the review, from the top.
pub fn review_placed(page: &Vec<Rect>) -> (areas: Areas)
    requires
        page@.len() == 3,
    ensures
        areas@ == (AreasView::Review { title: page@[0], rows: page@[1], footer: page@[2] }),
{
    Areas::Review { title: page[0], rows: page[1], footer: page[2] }
}

/// The parts of the help, from the top, with the columns its body is divided into.
pub fn help_placed(page: &Vec<Rect>, columns: Vec<Rect>) -> (areas: Areas)
    requires
        page@.len() == 3,
    ensures
        areas@ == (AreasView::Help {
            title: page@[0],
            body: page@[1],
            footer: page@[2],
            columns: columns@,
        }),
{
    Areas::Help { title: page[0], body: page[1], footer: page[2], columns }
}

/// The rows that the parts of a screen with room for them get.
proof fn lemma_rows(s: NavView, area: Rect, parts: Seq<Rect>)
    requires
        parts.len() == 3,
        screen::lie_in(parts, area, Direction::Down),
        screen::rounds_evenly(picture::frame_cut(s, area).constraints) ==> screen::touch(
            parts,
            Direction::Down,
        ),
        screen::rounds_evenly(picture::frame_cut(s, area).constraints) && area.y + area.height
            <= u16::MAX ==> screen::as_asked(
            parts,
            area,
            Direction::Down,
            picture::frame_cut(s, area).constraints,
        ),
    ensures
        screen::touch(parts, Direction::Down),
        picture::roomy(s, area) ==> if picture::shows_listing(s) {
            let staged = picture::plan_rows(s.plan.len());
            &&& parts[0] == picture::rows_of(area, 0, area.height - staged - 2)
            &&& parts[1] == picture::rows_of(area, area.height - staged - 2, staged as int)
            &&& parts[2] == picture::rows_of(area, area.height - 2, 2)
        } else {
            &&& parts[0] == picture::rows_of(area, 0, 2)
            &&& parts[1] == picture::rows_of(area, 2, area.height - 3)
            &&& parts[2] == picture::rows_of(area, area.height - 1, 1)
        },
{
    let constraints = picture::frame_cut(s, area).constraints;
    assert(screen::in_cells(constraints));
    assert(parts[1].y == parts[0].y + parts[0].height);
    assert(parts[2].y == parts[1].y + parts[1].height);
    if picture::roomy(s, area) {
        reveal_with_fuel(screen::asked, 4);
        let first = constraints.drop_last();
        assert(first.drop_last().drop_last() =~= Seq::<Constraint>::empty());
        assert(constraints[0] is Min || constraints[1] is Min);
        assert(screen::has_slack(constraints, area.height as int));
        assert(screen::as_asked(parts, area, Direction::Down, constraints));
        assert(constraints[1] is Length || constraints[1] is Min);
        assert(constraints[2] is Length);
        assert(constraints[0] is Length || constraints[0] is Min);
        assert(screen::spans_across(parts[0], area, Direction::Down));
        assert(screen::spans_across(parts[1], area, Direction::Down));
        assert(screen::spans_across(parts[2], area, Direction::Down));
    }
}

/// The columns that a body with room for its width gets.
proof fn lemma_columns(body: Rect, columns: Seq<Rect>)
    requires
        columns.len() == picture::columns_in(body.height),
        screen::lie_in(columns, body, Direction::Across),
        screen::rounds_evenly(picture::column_cut(body).constraints) ==> screen::touch(
            columns,
            Direction::Across,
        ),
        screen::rounds_evenly(picture::column_cut(body).constraints) && body.x + body.width
            <= u16::MAX ==> screen::as_asked(
            columns,
            body,
            Direction::Across,
            picture::column_cut(body).constraints,
        ),
    ensures
        screen::touch(columns, Direction::Across),
        body.x + body.width <= u16::MAX ==> columns == picture::equal_columns(
            body,
            columns.len(),
        ),
{
    let constraints = picture::column_cut(body).constraints;
    let count = columns.len();
    help_laws::law_the_keys_take_few_columns(body.height as nat);
    assert(screen::in_equal_shares(constraints));
    if body.x + body.width <= u16::MAX {
        let expected = picture::equal_columns(body, count);
        screen::lemma_no_share(body.width as int, count as int);
        assert forall|i: int| 0 <= i < count implies columns[i] == expected[i] by {
            let part = columns[i];
            assert(screen::spans_across(part, body, Direction::Across));
            assert(constraints[i] == Constraint::Ratio(1, count as u32));
            assert(screen::share_through(constraints, i) == (i + 1, count as int));
            if i > 0 {
                let before = columns[i - 1];
                assert(constraints[i - 1] == Constraint::Ratio(1, count as u32));
                assert(screen::share_through(constraints, i - 1) == (i, count as int));
                assert(screen::start_of(part, Direction::Across) == screen::end_of(
                    before,
                    Direction::Across,
                ));
            }
        }
        assert(columns =~= expected);
    }
}

impl Navigator {
    /// What is to be read before the navigator can be drawn.
    pub fn preview_wanted(&self) -> (wanted: Wanted)
        ensures
            wanted@ == picture::wanted(self@),
    {
        let covered = match self.mode {
            Mode::Help => true,
            Mode::Review => true,
            _ => false,
        };
        if covered || self.log_panel_visible || self.selected >= self.entries.len() {
            return Wanted::Nothing;
        }
        proof {
            assert(self@.entries[self.selected as int] == self.entries@[self.selected as int]@);
        }
        let is_dir = self.entries[self.selected].is_dir;
        let path = self.current_dir.join(self.entries[self.selected].name.as_str());
        match FileKind::of(&path, is_dir) {
            FileKind::Dir => Wanted::Dir(path),
            FileKind::Text => Wanted::Text(path),
            FileKind::Image => {
                let kept = match &self.cached_image {
                    Some(kept) => kept.same(&path),
                    None => false,
                };
                if kept {
                    Wanted::Kept
                } else {
                    Wanted::Image(path)
                }
            },
        }
    }

    /// What is to be said of what was read for the preview, before the navigator is
    /// drawn. `preview` is what was read of what [`Navigator::preview_wanted`] asked for.
    pub fn preview_notices(&self, preview: &Preview) -> (notices: Vec<Notice>)
        ensures
            notice::notice_views(notices@) == picture::preview_told(self@, preview@),
    {
        let mut notices = silent();
        match (self.preview_wanted(), preview) {
            (Wanted::Dir(path), Preview::Dir(answer)) => {
                say_listing(&path, answer, &mut notices);
            },
            (Wanted::Text(path), Preview::Text(answer)) => {
                say_preview(&path, answer, &mut notices);
            },
            (Wanted::Image(_), Preview::Image(Err(errx))) => {
                say(&mut notices, LogLevel::Warn, errx.to_text());
            },
            _ => {},
        }
        proof {
            assert(notice::notice_views(notices@) =~= picture::preview_told(self@, preview@));
        }
        notices
    }

    /// How many rows the plan panel takes, its border included.
    pub fn plan_panel_rows(&self) -> (rows: u16)
        ensures
            rows == picture::plan_rows(self@.plan.len()),
    {
        let count: usize = self.plan.len();
        if count == 0 {
            0
        } else if count < PLAN_PANEL_ROWS {
            (count + 1) as u16
        } else {
            (PLAN_PANEL_ROWS + 1) as u16
        }
    }

    /// How the whole screen is divided.
    pub fn frame_cut(&self, area: Rect) -> (cut: Cut)
        ensures
            cut@ == picture::frame_cut(self@, area),
    {
        let constraints = match self.mode {
            Mode::Help => page_constraints(),
            Mode::Review => page_constraints(),
            _ => frame_constraints(self.plan_panel_rows()),
        };
        Cut { area, along: Direction::Down, constraints }
    }

    /// How the upper part of the screen is divided. The log takes the room the preview
    /// had, the listing keeps the top.
    pub fn listing_cut(&self, area: Rect) -> (cut: Cut)
        ensures
            cut@ == picture::listing_cut(self@, area),
    {
        if self.log_panel_visible {
            Cut { area, along: Direction::Down, constraints: shares(30, 70) }
        } else {
            Cut { area, along: Direction::Across, constraints: shares(40, 60) }
        }
    }

    /// The parts of the screen that what is shown now needs. Where there is no room for
    /// all of them, the layout of the terminal library decides how large each is; nothing
    /// is said of that.
    pub fn arrange(&self, area: Rect) -> (areas: Areas)
        ensures
            picture::areas_fit(self@, areas@),
            picture::areas_divide(self@, areas@, area),
    {
        let parts = parts_of(&self.frame_cut(area));
        proof {
            lemma_rows(self@, area, parts@);
        }
        match self.mode {
            Mode::Help => {
                let columns = parts_of(&column_cut(parts[1]));
                proof {
                    lemma_columns(parts@[1], columns@);
                }
                help_placed(&parts, columns)
            },
            Mode::Review => review_placed(&parts),
            _ => {
                let halves = parts_of(&self.listing_cut(parts[0]));
                placed(&parts, &halves)
            },
        }
    }

    /// Draws the navigator into `area`. `preview` is what was read of what
    /// [`Navigator::preview_wanted`] asked for.
    pub fn render(
        &mut self,
        area: Rect,
        facts: &Facts,
        log: Option<&LogStore>,
        preview: Preview,
    ) -> (frame: Frame)
        requires
            old(self).wf(),
            facts.presence@.len() == old(self)@.plan.len(),
            picture::satisfies(picture::wanted(old(self)@), preview@),
        ensures
            final(self).wf(),
            exists|areas: AreasView|
                {
                    &&& #[trigger] picture::areas_fit(old(self)@, areas)
                    &&& picture::areas_divide(old(self)@, areas, area)
                    &&& final(self)@ == picture::drawn_state(
                        old(self)@,
                        areas,
                        facts_view(*facts, log),
                        preview@,
                    )
                    &&& screen::draw_views(frame.draws@) == picture::drawn(
                        old(self)@,
                        areas,
                        facts_view(*facts, log),
                        preview@,
                    )
                },
    {
        let areas = self.arrange(area);
        let ghost parts = areas@;
        proof {
            assert(picture::areas_fit(self@, parts));
        }
        self.render_in(areas, facts, log, preview)
    }

    /// Draws the navigator into these parts of the screen.
    pub fn render_in(
        &mut self,
        areas: Areas,
        facts: &Facts,
        log: Option<&LogStore>,
        preview: Preview,
    ) -> (frame: Frame)
        requires
            old(self).wf(),
            facts.presence@.len() == old(self)@.plan.len(),
            picture::satisfies(picture::wanted(old(self)@), preview@),
            picture::areas_fit(old(self)@, areas@),
        ensures
            final(self).wf(),
            final(self)@ == picture::drawn_state(
                old(self)@,
                areas@,
                facts_view(*facts, log),
                preview@,
            ),
            screen::draw_views(frame.draws@) == picture::drawn(
                old(self)@,
                areas@,
                facts_view(*facts, log),
                preview@,
            ),
    {
        let mut draws: Vec<Draw> = Vec::new();
        proof {
            assert(screen::draw_views(draws@) =~= Seq::empty());
        }
        match areas {
            Areas::Help { title, body, footer, columns } => {
                render_help(title, body, footer, &columns, &mut draws);
                proof {
                    let all = picture::help_drawn(title, body, footer, columns@);
                    assert(Seq::<DrawView>::empty() + all =~= all);
                }
            },
            Areas::Review { title, rows, footer } => {
                self.render_review(title, rows, footer, facts, &mut draws);
                proof {
                    let all = picture::review_drawn(
                        self@,
                        title,
                        rows,
                        footer,
                        facts.presence@,
                        facts_view(*facts, log).home,
                    );
                    assert(Seq::<DrawView>::empty() + all =~= all);
                }
            },
            Areas::Normal { list, side, plan, bottom } => {
                let ghost before = self@;
                let ghost view = facts_view(*facts, log);
                self.render_file_list(list, facts, &mut draws);
                let ghost listed = picture::list_drawn(before, list, view.home);
                proof {
                    assert(Seq::<DrawView>::empty() + listed =~= listed);
                }
                let ghost beside = picture::side_drawn(before, side, view, preview@);
                if self.log_panel_visible {
                    self.render_log_panel(side, log, &mut draws);
                } else {
                    // A column of air either side, so the preview does not touch the
                    // divider.
                    self.render_preview(inner_columns(side), preview, &mut draws);
                }
                proof {
                    assert(screen::draw_views(draws@) == listed + beside);
                }
                let ghost panel = if before.plan.len() > 0 {
                    picture::plan_drawn(before, plan, view.presence, view.home)
                } else {
                    Seq::empty()
                };
                if !self.plan.is_empty() {
                    self.render_plan_panel(plan, facts, &mut draws);
                }
                proof {
                    assert(screen::draw_views(draws@) =~= listed + beside + panel);
                }
                match &self.mode {
                    Mode::Prompt(prompt) => {
                        render_prompt(prompt, bottom, &mut draws);
                    },
                    _ => {
                        self.render_status_line(bottom, facts, log, &mut draws);
                    },
                }
            },
        }
        Frame { draws }
    }

    fn render_file_list(&mut self, area: Rect, facts: &Facts, draws: &mut Vec<Draw>)
        requires
            old(self).wf(),
        ensures
            final(self).wf(),
            final(self)@ == picture::list_state(old(self)@, area),
            screen::draw_views(final(draws)@) == screen::draw_views(old(draws)@)
                + picture::list_drawn(
                old(self)@,
                area,
                facts.home_view(),
            ),
    {
        let title = path_title(&self.current_dir, area.width, facts.home_dir());
        let inner = block_inner(area, Edge::Right);
        let ghost start = screen::draw_views(draws@);
        add_draw(
            draws,
            Draw::Block {
                area,
                edge: Edge::Right,
                style: Style::of(DIM),
                title: Some(title),
            },
        );
        let ghost border = screen::draw_views(draws@);
        self.scroll_to_cursor(inner.height as usize);
        let ghost now = self@;
        let ghost inside = inner;
        let visible: usize = inner.height as usize;
        let size: usize = self.entries.len();
        let left: usize = size.saturating_sub(self.scroll_offset);
        let count: usize = if visible < left {
            visible
        } else {
            left
        };
        let ghost wanted = Seq::new(
            count as nat,
            |i: int| picture::listed_row(now, inside, i),
        );
        let mut i: usize = 0;
        proof {
            assert(border + wanted.take(0) =~= border);
        }
        while i < count
            invariant
                i <= count,
                count <= left,
                size == self.entries@.len(),
                left == size - self.scroll_offset || count == 0,
                self@ == now,
                self.wf(),
                inside == inner,
                wanted == Seq::new(
                    count as nat,
                    |i: int| picture::listed_row(now, inside, i),
                ),
                screen::draw_views(draws@) == border + wanted.take(i as int),
            decreases count - i,
        {
            let at: usize = self.scroll_offset + i;
            proof {
                assert(now.entries[at as int] == self.entries@[at as int]@);
            }
            let entry = &self.entries[at];
            let under_cursor = at == self.selected;
            let marked = self.marks.contains(&self.current_dir.join(entry.name.as_str()));
            let line = entry_line(entry, under_cursor, marked, self.search.as_str());
            add_draw(draws, Draw::Line { area: row(inner, i), line });
            proof {
                assert(wanted.take(i as int + 1) =~= wanted.take(i as int).push(wanted[i as int]));
                assert(border + wanted.take(i as int + 1) =~= (border + wanted.take(
                    i as int,
                )).push(wanted[i as int]));
            }
            i = i + 1;
        }
        proof {
            assert(wanted.take(count as int) =~= wanted);
            let all = picture::list_drawn(
                old(self)@,
                area,
                facts.home_view(),
            );
            assert(border + wanted =~= start + all);
        }
    }

    /// Keeps the cursor on screen with some rows of context beyond it, but never
    /// scrolls past the last entry: the context the end of a listing has to offer is
    /// the end of the listing, not a screenful of blank rows.
    fn scroll_to_cursor(&mut self, visible: usize)
        requires
            old(self).wf(),
            visible <= u16::MAX,
        ensures
            final(self).wf(),
            final(self)@ == (NavView {
                scroll_offset: picture::scrolled(old(self)@, visible as int),
                ..old(self)@
            }),
    {
        let half: usize = visible / 2;
        let context: usize = if SCROLL_OFF < half {
            SCROLL_OFF
        } else {
            half
        };
        let size: usize = self.entries.len();
        if self.selected < self.scroll_offset || self.selected - self.scroll_offset < context {
            self.scroll_offset = self.selected.saturating_sub(context);
        } else if (self.selected - self.scroll_offset).saturating_add(context) >= visible {
            // Just far enough down for the cursor and its context: with no row in
            // sight at all that is the row below the cursor.
            self.scroll_offset = if visible == 0 {
                if self.selected < size {
                    self.selected + 1
                } else {
                    1
                }
            } else {
                self.selected.saturating_sub(visible - context - 1)
            };
        }
        let last: usize = size.saturating_sub(visible);
        if self.scroll_offset > last {
            self.scroll_offset = last;
        }
    }

    fn render_preview(&mut self, area: Rect, preview: Preview, draws: &mut Vec<Draw>)
        requires
            old(self).wf(),
            picture::satisfies(picture::wanted(old(self)@), preview@),
        ensures
            final(self).wf(),
            final(self)@ == picture::preview_state(old(self)@, preview@),
            screen::draw_views(final(draws)@) == screen::draw_views(old(draws)@)
                + picture::preview_drawn(old(self)@, area, preview@),
    {
        let ghost start = screen::draw_views(draws@);
        proof {
            assert(start + Seq::<DrawView>::empty() =~= start);
        }
        match (self.preview_wanted(), preview) {
            (Wanted::Dir(path), Preview::Dir(answer)) => {
                render_directory_preview(&path, area, answer, draws);
            },
            (Wanted::Text(path), Preview::Text(answer)) => {
                let content = shown_text(&path, answer, area.height as usize);
                render_text_preview(area, content, draws);
            },
            (Wanted::Image(path), Preview::Image(loaded)) => {
                self.render_image_preview(path, area, loaded, draws);
            },
            (Wanted::Kept, Preview::Kept) => {
                add_draw(draws, Draw::Image { area });
                proof {
                    assert(screen::draw_views(draws@) =~= start + seq![
                        DrawView::Image { area },
                    ]);
                }
            },
            _ => {},
        }
    }

    /// Draws an image that was not drawn before, or says that it cannot be loaded.
    fn render_image_preview(
        &mut self,
        path: FilePath,
        area: Rect,
        loaded: Resultx<()>,
        draws: &mut Vec<Draw>,
    )
        requires
            old(self).wf(),
        ensures
            final(self).wf(),
            final(self)@ == if loaded is Ok {
                NavView { cached_image: Some(path@), ..old(self)@ }
            } else {
                old(self)@
            },
            screen::draw_views(final(draws)@) == screen::draw_views(old(draws)@) + if loaded is Ok {
                seq![DrawView::Image { area }]
            } else {
                picture::text_drawn(area, "(cannot load image)"@)
            },
    {
        let ghost start = screen::draw_views(draws@);
        match loaded {
            Ok(()) => {
                self.cached_image = Some(path);
                add_draw(draws, Draw::Image { area });
                proof {
                    assert(screen::draw_views(draws@) =~= start + seq![
                        DrawView::Image { area },
                    ]);
                }
            },
            Err(_) => {
                render_text_preview(area, "(cannot load image)".to_owned(), draws);
            },
        }
    }

    fn render_log_panel(&mut self, area: Rect, log: Option<&LogStore>, draws: &mut Vec<Draw>)
        requires
            old(self).wf(),
        ensures
            final(self).wf(),
            final(self)@ == picture::log_state(
                old(self)@,
                area,
                match log {
                    Some(log) => Some(log@),
                    None => None,
                },
            ),
            screen::draw_views(final(draws)@) == screen::draw_views(old(draws)@)
                + picture::log_drawn(
                old(self)@,
                area,
                match log {
                    Some(log) => Some(log@),
                    None => None,
                },
            ),
    {
        let ghost start = screen::draw_views(draws@);
        let inner = block_inner(area, Edge::Top);
        add_draw(
            draws,
            Draw::Block { area, edge: Edge::Top, style: Style::of(DIM), title: None },
        );
        let ghost border = screen::draw_views(draws@);
        proof {
            assert(border =~= start + seq![picture::top_border(area, screen::colored(DIM))]);
        }
        match log {
            None => {},
            Some(store) => {
                let visible: usize = inner.height as usize;
                let total: usize = store.len();
                // Keep the scroll within bounds as the panel resizes.
                let last: usize = total.saturating_sub(visible);
                if self.log_scroll_offset > last {
                    self.log_scroll_offset = last;
                }
                let offset: usize = self.log_scroll_offset;
                let left: usize = total - offset;
                let count: usize = if visible < left {
                    visible
                } else {
                    left
                };
                let ghost wanted = Seq::new(
                    count as nat,
                    |i: int|
                        DrawView::Line {
                            area: screen::row_of(inner, visible - 1 - i),
                            line: screen::line_of(
                                rows::spans_of_entry(
                                    store@.entries[store@.entries.len() - 1 - offset - i],
                                ),
                            ),
                        },
                );
                let ghost state = *self;
                let mut i: usize = 0;
                proof {
                    assert(border + wanted.take(0) =~= border);
                }
                // Newest at the bottom, so the first entry drawn goes on the last row.
                while i < count
                    invariant
                        i <= count <= visible,
                        count <= total - offset,
                        total == store@.entries.len(),
                        *self == state,
                        wanted == Seq::new(
                            count as nat,
                            |i: int|
                                DrawView::Line {
                                    area: screen::row_of(inner, visible - 1 - i),
                                    line: screen::line_of(
                                        rows::spans_of_entry(
                                            store@.entries[store@.entries.len() - 1 - offset - i],
                                        ),
                                    ),
                                },
                        ),
                        screen::draw_views(draws@) == border + wanted.take(i as int),
                    decreases count - i,
                {
                    let line = Line::from_spans(log_spans(store.entry(total - 1 - offset - i)));
                    add_draw(draws, Draw::Line { area: row(inner, visible - 1 - i), line });
                    proof {
                        assert(border + wanted.take(i as int + 1) =~= (border + wanted.take(
                            i as int,
                        )).push(wanted[i as int]));
                    }
                    i = i + 1;
                }
                proof {
                    assert(wanted.take(count as int) =~= wanted);
                    assert(border + wanted =~= start + picture::log_drawn(
                        old(self)@,
                        area,
                        Some(store@),
                    ));
                }
            },
        }
    }

    fn render_plan_panel(&self, area: Rect, facts: &Facts, draws: &mut Vec<Draw>)
        requires
            facts.presence@.len() == self@.plan.len(),
        ensures
            screen::draw_views(final(draws)@) == screen::draw_views(old(draws)@)
                + picture::plan_drawn(
                self@,
                area,
                facts.presence@,
                facts.home_view(),
            ),
    {
        let ghost start = screen::draw_views(draws@);
        let ghost home = facts.home_view();
        let size: usize = self.plan.len();
        let hidden: usize = size.saturating_sub(PLAN_PANEL_ROWS);
        let mut title = cat(" plan (", decimal(size as u64).as_str());
        if hidden == 0 {
            title.append(") ");
        } else {
            title.append(", ");
            title.append(decimal(hidden as u64).as_str());
            title.append(" more) ");
        }
        proof {
            assert(title@ =~= picture::plan_title(self@.plan.len()));
        }
        let inner = block_inner(area, Edge::Top);
        add_draw(
            draws,
            Draw::Block {
                area,
                edge: Edge::Top,
                style: Style::of(DIM),
                title: Some(Line::styled(title, Style::of(DIM))),
            },
        );
        let ghost border = screen::draw_views(draws@);
        let visible: usize = inner.height as usize;
        let count: usize = if visible < size {
            visible
        } else {
            size
        };
        let ghost wanted = Seq::new(
            count as nat,
            |i: int|
                DrawView::Line {
                    area: screen::row_of(inner, i),
                    line: rows::staged_row(
                        self@.plan[i],
                        facts.presence@[i],
                        false,
                        inner.width,
                        home,
                    ),
                },
        );
        let mut i: usize = 0;
        proof {
            assert(border + wanted.take(0) =~= border);
        }
        while i < count
            invariant
                i <= count <= self@.plan.len(),
                facts.presence@.len() == self@.plan.len(),
                home == facts.home_view(),
                wanted == Seq::new(
                    count as nat,
                    |i: int|
                        DrawView::Line {
                            area: screen::row_of(inner, i),
                            line: rows::staged_row(
                                self@.plan[i],
                                facts.presence@[i],
                                false,
                                inner.width,
                                home,
                            ),
                        },
                ),
                screen::draw_views(draws@) == border + wanted.take(i as int),
            decreases count - i,
        {
            proof {
                assert(self@.plan[i as int] == self.plan.staged@[i as int]@);
            }
            let line = plan_row(
                &self.plan.staged[i],
                facts.presence[i],
                false,
                inner.width,
                facts.home_dir(),
            );
            add_draw(draws, Draw::Line { area: row(inner, i), line });
            proof {
                assert(border + wanted.take(i as int + 1) =~= (border + wanted.take(
                    i as int,
                )).push(wanted[i as int]));
            }
            i = i + 1;
        }
        proof {
            assert(wanted.take(count as int) =~= wanted);
            assert(border + wanted =~= start + picture::plan_drawn(
                self@,
                area,
                facts.presence@,
                home,
            ));
        }
    }

    /// How many staged operations are blocked.
    fn count_blocked(&self, facts: &Facts) -> (count: usize)
        requires
            facts.presence@.len() == self@.plan.len(),
        ensures
            count == picture::count_set(model::blocked(self@.plan, facts.presence@)),
    {
        let ghost flags = model::blocked(self@.plan, facts.presence@);
        let mut count: usize = 0;
        let mut i: usize = 0;
        while i < self.plan.staged.len()
            invariant
                i <= self.plan.staged@.len() == flags.len(),
                count <= i,
                facts.presence@.len() == self@.plan.len(),
                flags == model::blocked(self@.plan, facts.presence@),
                count == picture::count_set(flags.take(i as int)),
            decreases self.plan.staged.len() - i,
        {
            proof {
                assert(flags.take(i as int + 1).drop_last() =~= flags.take(i as int));
                assert(self@.plan[i as int] == self.plan.staged@[i as int]@);
            }
            if fs_ops::problem(&self.plan.staged[i].op, facts.presence[i]).is_some() {
                count = count + 1;
            }
            i = i + 1;
        }
        proof {
            assert(flags.take(i as int) =~= flags);
        }
        count
    }

    #[verifier::rlimit(40)]
    fn render_review(
        &self,
        title: Rect,
        rows: Rect,
        footer: Rect,
        facts: &Facts,
        draws: &mut Vec<Draw>,
    )
        requires
            facts.presence@.len() == self@.plan.len(),
        ensures
            screen::draw_views(final(draws)@) == screen::draw_views(old(draws)@)
                + picture::review_drawn(
                self@,
                title,
                rows,
                footer,
                facts.presence@,
                facts.home_view(),
            ),
    {
        let ghost start = screen::draw_views(draws@);
        let ghost home = facts.home_view();
        let blocked = self.count_blocked(facts);
        let size: usize = self.plan.len();
        let mut spans: Vec<Span> = Vec::new();
        add_span(&mut spans, " review".to_owned(), Style::bold_of(ACCENT));
        add_span(
            &mut spans,
            cat3("  \u{b7}  ", decimal(size as u64).as_str(), " staged"),
            Style::of(DIM),
        );
        let ghost heading = screen::line_of(
            seq![
                screen::styled(" review"@, screen::bold_colored(ACCENT)),
                screen::styled(
                    "  \u{b7}  "@ + text::decimal_text(self@.plan.len()) + " staged"@,
                    screen::colored(DIM),
                ),
            ],
        );
        proof {
            assert(screen::span_views(spans@) =~= heading.spans);
        }
        add_draw(draws, Draw::Line { area: title, line: Line::from_spans(spans) });
        let ghost top = screen::draw_views(draws@);
        // Scrolled just far enough to keep the selected row on screen: `x` drops what
        // the cursor is on, so the cursor must never be off the bottom.
        let height: usize = rows.height as usize;
        let first: usize = if self.review_selected >= height {
            if height == 0 {
                size
            } else {
                self.review_selected - (height - 1)
            }
        } else {
            0
        };
        let left: usize = size.saturating_sub(first);
        let count: usize = if height < left {
            height
        } else {
            left
        };
        let ghost wanted = Seq::new(
            count as nat,
            |i: int|
                DrawView::Line {
                    area: screen::row_of(rows, i),
                    line: rows::staged_row(
                        self@.plan[first + i],
                        facts.presence@[first + i],
                        first + i == self@.review_selected,
                        rows.width,
                        home,
                    ),
                },
        );
        let mut i: usize = 0;
        proof {
            assert(top + wanted.take(0) =~= top);
        }
        while i < count
            invariant
                i <= count,
                first + count <= self@.plan.len() || count == 0,
                size == self@.plan.len(),
                facts.presence@.len() == self@.plan.len(),
                home == facts.home_view(),
                wanted == Seq::new(
                    count as nat,
                    |i: int|
                        DrawView::Line {
                            area: screen::row_of(rows, i),
                            line: rows::staged_row(
                                self@.plan[first + i],
                                facts.presence@[first + i],
                                first + i == self@.review_selected,
                                rows.width,
                                home,
                            ),
                        },
                ),
                screen::draw_views(draws@) == top + wanted.take(i as int),
            decreases count - i,
        {
            let at: usize = first + i;
            proof {
                assert(self@.plan[at as int] == self.plan.staged@[at as int]@);
            }
            let line = plan_row(
                &self.plan.staged[at],
                facts.presence[at],
                at == self.review_selected,
                rows.width,
                facts.home_dir(),
            );
            add_draw(draws, Draw::Line { area: row(rows, i), line });
            proof {
                assert(top + wanted.take(i as int + 1) =~= (top + wanted.take(i as int)).push(
                    wanted[i as int],
                ));
            }
            i = i + 1;
        }
        proof {
            assert(wanted.take(count as int) =~= wanted);
        }
        add_draw(draws, Draw::Line { area: footer, line: footer_line(blocked) });
        proof {
            assert(screen::draw_views(draws@) =~= start + picture::review_drawn(
                self@,
                title,
                rows,
                footer,
                facts.presence@,
                home,
            ));
        }
    }

    /// What the status line says of the marks.
    fn tell_marks(&self, followed: bool) -> (spans: Vec<Span>)
        ensures
            screen::span_views(spans@) == picture::marks_spans(self@, followed),
    {
        let mut spans: Vec<Span> = Vec::new();
        if !self.marks.is_empty() {
            let elsewhere = self.marks.count_outside(&self.current_dir);
            let marked = decimal(self.marks.len() as u64);
            let summary = if elsewhere == 0 {
                cat(marked.as_str(), " marked")
            } else {
                let mut long = cat3(
                    marked.as_str(),
                    " marked (",
                    decimal(elsewhere as u64).as_str(),
                );
                long.append(" elsewhere)");
                long
            };
            add_span(&mut spans, summary, Style::bold_of(MARK));
            if followed {
                add_span(&mut spans, "  \u{b7}  ".to_owned(), Style::of(DIM));
            }
        }
        proof {
            assert(screen::span_views(spans@) =~= picture::marks_spans(self@, followed));
        }
        spans
    }

    fn render_status_line(
        &self,
        area: Rect,
        facts: &Facts,
        log: Option<&LogStore>,
        draws: &mut Vec<Draw>,
    )
        ensures
            screen::draw_views(final(draws)@) == screen::draw_views(old(draws)@)
                + picture::status_drawn(self@, area, facts_view(*facts, log)),
    {
        let ghost start = screen::draw_views(draws@);
        let ghost view = facts_view(*facts, log);
        let inner = block_inner(area, Edge::Top);
        add_draw(
            draws,
            Draw::Block { area, edge: Edge::Top, style: Style::new(), title: None },
        );
        let (followed, mut latest) = tell_latest(log, facts.now);
        let mut spans = self.tell_marks(followed);
        let ghost first = screen::span_views(spans@);
        let ghost second = screen::span_views(latest@);
        spans.append(&mut latest);
        proof {
            assert(screen::span_views(spans@) =~= first + second);
            assert(second == picture::latest_spans(view));
        }
        add_draw(draws, Draw::Line { area: inner, line: Line::from_spans(spans) });
        proof {
            assert(screen::draw_views(draws@) =~= start + picture::status_drawn(
                self@,
                area,
                view,
            ));
        }
    }
}

/// What the status line says of the latest entry of the log, and whether there is
/// one.
fn tell_latest(log: Option<&LogStore>, now: u64) -> (told: (bool, Vec<Span>))
    ensures
        ({
            let view = match log {
                Some(log) => Some(log@),
                None => None,
            };
            &&& told.0 == (picture::latest(view) is Some)
            &&& screen::span_views(told.1@) == (match (view, picture::latest(view)) {
                (Some(log), Some(entry)) => rows::spans_of_entry(entry).push(
                    screen::styled(
                        "  "@ + picture::age_text(picture::age_of(log, entry, now)),
                        screen::colored(DIM),
                    ),
                ),
                _ => Seq::empty(),
            })
        }),
{
    let nothing: Vec<Span> = Vec::new();
    proof {
        assert(screen::span_views(nothing@) =~= Seq::empty());
    }
    match log {
        None => (false, nothing),
        Some(store) => match store.latest() {
            None => (false, nothing),
            Some(entry) => {
                let age: u64 = store.time_since_start(now).saturating_sub(
                    store.elapsed_since(&entry),
                );
                let seconds: u64 = age / 1_000_000_000;
                let shown = if seconds < 60 {
                    cat(decimal(seconds).as_str(), "s")
                } else {
                    cat(decimal(seconds / 60).as_str(), "m")
                };
                let mut spans = log_spans(&entry);
                add_span(&mut spans, cat("  ", shown.as_str()), Style::of(DIM));
                (true, spans)
            },
        },
    }
}

/// The line below the review.
fn footer_line(blocked: usize) -> (line: Line)
    ensures
        line@ == picture::review_footer(blocked as nat),
{
    let mut spans: Vec<Span> = Vec::new();
    add_span(&mut spans, " ".to_owned(), Style::new());
    if blocked > 0 {
        add_span(
            &mut spans,
            cat(decimal(blocked as u64).as_str(), " blocked"),
            Style::bold_of(Color::Red),
        );
        add_span(&mut spans, "  \u{b7}  ".to_owned(), Style::of(DIM));
    }
    let ghost start = screen::span_views(spans@);
    let mut pairs: Vec<(&'static str, &'static str)> = Vec::new();
    pairs.push(("enter", "apply"));
    pairs.push(("x", "drop"));
    pairs.push(("X", "drop blocked"));
    pairs.push(("r", "rename"));
    pairs.push(("esc", "back"));
    proof {
        assert(help::pair_views(pairs@) =~= picture::review_hints());
    }
    let mut rest = hints(&pairs);
    let ghost end = screen::span_views(rest@);
    spans.append(&mut rest);
    proof {
        assert(screen::span_views(spans@) =~= start + end);
        assert(screen::span_views(spans@) =~= picture::review_footer(blocked as nat).spans);
    }
    Line::from_spans(spans)
}

/// Draws lines of text, or what stands in for them.
fn render_text_preview(area: Rect, content: String, draws: &mut Vec<Draw>)
    ensures
        screen::draw_views(final(draws)@) == screen::draw_views(old(draws)@)
            + picture::text_drawn(area, content@),
{
    let ghost start = screen::draw_views(draws@);
    let style = preview_text(content.as_str());
    add_draw(draws, Draw::Text { area, text: content, style });
    proof {
        assert(screen::draw_views(draws@) =~= start + picture::text_drawn(area, content@));
    }
}

/// Draws what a directory holds.
fn render_directory_preview(
    path: &FilePath,
    area: Rect,
    answer: RawListing,
    draws: &mut Vec<Draw>,
)
    ensures
        screen::draw_views(final(draws)@) == screen::draw_views(old(draws)@)
            + picture::text_drawn(
            area,
            match dir::listing(path@, dir::raw_listing_view(answer)) {
                Ok(entries) => rows::listing_preview(entries, area.height as int),
                Err(_) => "(cannot read directory)"@,
            },
        ),
{
    let content = match listed(path, answer) {
        Ok(entries) => directory_preview(&entries, area.height as usize),
        Err(_) => "(cannot read directory)".to_owned(),
    };
    render_text_preview(area, content, draws);
}

/// Draws the prompt being typed at.
fn render_prompt(prompt: &Prompt, area: Rect, draws: &mut Vec<Draw>)
    ensures
        screen::draw_views(final(draws)@) == screen::draw_views(old(draws)@)
            + picture::prompt_drawn(prompt@, area),
{
    let ghost start = screen::draw_views(draws@);
    let inner = block_inner(area, Edge::Top);
    add_draw(
        draws,
        Draw::Block { area, edge: Edge::Top, style: Style::of(DIM), title: None },
    );
    let mut spans: Vec<Span> = Vec::new();
    add_span(&mut spans, prompt.label.to_owned(), Style::of(DIM));
    add_span(&mut spans, " \u{203a} ".to_owned(), Style::bold_of(ACCENT));
    add_span(&mut spans, prompt.input.clone(), Style::new());
    add_span(&mut spans, "\u{258f}".to_owned(), Style::of(ACCENT));
    let ghost typed = seq![
        screen::styled(prompt@.label, screen::colored(DIM)),
        screen::styled(" \u{203a} "@, screen::bold_colored(ACCENT)),
        screen::raw(prompt@.input),
        screen::styled("\u{258f}"@, screen::colored(ACCENT)),
    ];
    proof {
        assert(screen::span_views(spans@) =~= typed);
    }
    add_draw(draws, Draw::Line { area: inner, line: Line::from_spans(spans) });
    proof {
        assert(screen::draw_views(draws@) =~= start + picture::prompt_drawn(prompt@, area));
    }
}

/// Draws one column of the help.
fn render_column(area: Rect, column: Vec<Line>, draws: &mut Vec<Draw>)
    ensures
        screen::draw_views(final(draws)@) == screen::draw_views(old(draws)@)
            + picture::column_drawn(area, screen::line_views(column@)),
{
    let ghost start = screen::draw_views(draws@);
    let ghost lines = screen::line_views(column@);
    let ghost wanted = picture::column_drawn(area, lines);
    let size: usize = column.len();
    let mut left = column;
    let mut i: usize = 0;
    proof {
        assert(lines.skip(0) =~= lines);
        assert(start + wanted.take(0) =~= start);
    }
    while i < size
        invariant
            i <= size,
            size == lines.len(),
            left@.len() == size - i,
            screen::line_views(left@) == lines.skip(i as int),
            wanted == picture::column_drawn(area, lines),
            screen::draw_views(draws@) == start + wanted.take(i as int),
        decreases size - i,
    {
        proof {
            assert(screen::line_views(left@)[0] == left@[0]@);
            assert(lines.skip(i as int)[0] == lines[i as int]);
        }
        let line = left.remove(0);
        add_draw(draws, Draw::Line { area: row(area, i), line });
        proof {
            assert(screen::line_views(left@) =~= lines.skip(i as int + 1));
            assert(start + wanted.take(i as int + 1) =~= (start + wanted.take(i as int)).push(
                wanted[i as int],
            ));
        }
        i = i + 1;
    }
    proof {
        assert(wanted.take(size as int) =~= wanted);
    }
}

/// Draws the columns of the help, each in its area.
fn render_columns(areas: &Vec<Rect>, columns: Vec<Vec<Line>>, draws: &mut Vec<Draw>)
    ensures
        screen::draw_views(final(draws)@) == screen::draw_views(old(draws)@)
            + picture::columns_drawn(
            areas@,
            help::column_views(columns@),
            screen::least(areas@.len() as int, columns@.len() as int),
        ),
{
    let ghost top = screen::draw_views(draws@);
    let ghost all = help::column_views(columns@);
    let total: usize = columns.len();
    let count: usize = if areas.len() < total {
        areas.len()
    } else {
        total
    };
    let mut left = columns;
    let mut i: usize = 0;
    proof {
        assert(all.len() == total);
        assert(all.skip(0) =~= all);
        assert(top + picture::columns_drawn(areas@, all, 0) =~= top);
    }
    while i < count
        invariant
            i <= count <= areas@.len(),
            count <= total == all.len(),
            left@.len() == total - i,
            help::column_views(left@) == all.skip(i as int),
            screen::draw_views(draws@) == top + picture::columns_drawn(areas@, all, i as int),
        decreases count - i,
    {
        proof {
            assert(help::column_views(left@)[0] == screen::line_views(left@[0]@));
            assert(all.skip(i as int)[0] == all[i as int]);
        }
        let column = left.remove(0);
        render_column(areas[i], column, draws);
        proof {
            assert(help::column_views(left@) =~= all.skip(i as int + 1));
            let done = picture::columns_drawn(areas@, all, i as int);
            let more = picture::column_drawn(areas@[i as int], all[i as int]);
            assert(top + (done + more) =~= (top + done) + more);
        }
        i = i + 1;
    }
}

/// Draws the key map, laid out top to bottom and wrapping into as many columns as the
/// terminal's height needs, so nothing is ever cut off.
fn render_help(title: Rect, body: Rect, footer: Rect, areas: &Vec<Rect>, draws: &mut Vec<Draw>)
    ensures
        screen::draw_views(final(draws)@) == screen::draw_views(old(draws)@)
            + picture::help_drawn(title, body, footer, areas@),
{
    let ghost start = screen::draw_views(draws@);
    let mut spans: Vec<Span> = Vec::new();
    add_span(&mut spans, " nav".to_owned(), Style::bold_of(ACCENT));
    add_span(&mut spans, "  \u{b7}  keys".to_owned(), Style::of(DIM));
    let ghost heading = seq![
        screen::styled(" nav"@, screen::bold_colored(ACCENT)),
        screen::styled("  \u{b7}  keys"@, screen::colored(DIM)),
    ];
    proof {
        assert(screen::span_views(spans@) =~= heading);
    }
    add_draw(draws, Draw::Line { area: title, line: Line::from_spans(spans) });
    let ghost top = screen::draw_views(draws@);
    let columns = help_columns(body.height as usize);
    proof {
        assert(help::column_views(columns@).len() == columns@.len());
    }
    render_columns(areas, columns, draws);
    add_draw(
        draws,
        Draw::Line {
            area: footer,
            line: Line::styled(" press any key to go back".to_owned(), Style::of(DIM)),
        },
    );
    proof {
        assert(screen::draw_views(draws@) =~= start + picture::help_drawn(
            title,
            body,
            footer,
            areas@,
        ));
    }
}

} // verus!
