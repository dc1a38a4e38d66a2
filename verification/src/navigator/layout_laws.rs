//! How the screen is shared out, where there is room for everything.
use crate::navigator::model::NavView;
use crate::navigator::picture::{self, AreasView};
use crate::screen::{self, Direction, Rect};
use vstd::prelude::*;

verus! {

broadcast use {vstd::seq::group_seq_axioms, vstd::seq_lib::group_seq_properties};

/// Whether a cell of the screen belongs to an area.
pub open spec fn holds(area: Rect, x: int, y: int) -> bool {
    area.x <= x < area.x + area.width && area.y <= y < area.y + area.height
}

/// To how many of two areas a cell belongs.
pub open spec fn holders(one: Rect, two: Rect, x: int, y: int) -> int {
    (if holds(one, x, y) {
        1int
    } else {
        0
    }) + (if holds(two, x, y) {
        1int
    } else {
        0
    })
}

/// On a screen with room for everything the last line has its two rows at the bottom,
/// whatever else is shown, with the rows of the plan above them.
pub proof fn law_the_last_line_is_always_there(s: NavView, area: Rect)
    requires
        picture::shows_listing(s),
        picture::roomy(s, area),
    ensures
        picture::places(s, area) matches AreasView::Normal { list, side, plan, bottom } && {
            &&& bottom.height == 2
            &&& bottom.y + bottom.height == area.y + area.height
            &&& bottom.x == area.x && bottom.width == area.width
            &&& plan.height == picture::plan_rows(s.plan.len())
            &&& picture::follows(plan, bottom)
            &&& plan.y > area.y
        },
{
}

/// On a screen with room for everything each cell belongs to exactly one of the listing,
/// what is shown beside it, the plan and the last line.
pub proof fn law_every_cell_has_one_place(s: NavView, area: Rect, x: int, y: int)
    requires
        picture::shows_listing(s),
        picture::roomy(s, area),
        holds(area, x, y),
    ensures
        picture::places(s, area) matches AreasView::Normal { list, side, plan, bottom } && holders(
            list,
            side,
            x,
            y,
        ) + holders(plan, bottom, x, y) == 1,
{
}

/// On a screen with room for everything each row of a page belongs to its title, its body
/// or its footer, the title having two of them and the footer one.
pub proof fn law_a_page_fills_the_screen(s: NavView, area: Rect)
    requires
        !picture::shows_listing(s),
        picture::roomy(s, area),
    ensures
        match picture::places(s, area) {
            AreasView::Help { title, body, footer, columns } => {
                &&& picture::page_divided(title, body, footer, area)
                &&& title.height == 2 && footer.height == 1 && body.height > 0
                &&& footer.y + footer.height == area.y + area.height
            },
            AreasView::Review { title, rows, footer } => {
                &&& picture::page_divided(title, rows, footer, area)
                &&& title.height == 2 && footer.height == 1 && rows.height > 0
                &&& footer.y + footer.height == area.y + area.height
            },
            AreasView::Normal { .. } => false,
        },
{
}

/// A larger share comes to no fewer cells, and to no more than there are.
proof fn lemma_share_grows(size: int, share: int, of: int)
    requires
        0 <= size,
        0 <= share < of,
    ensures
        0 <= screen::cells_of_share(size, share, of) <= screen::cells_of_share(
            size,
            share + 1,
            of,
        ),
{
    assert(0 <= (200 * size * share + of) / (2 * of) <= (200 * size * (share + 1) + of) / (2 * of))
        by (nonlinear_arith)
        requires
            0 <= size,
            0 <= share < of,
    ;
}

/// The whole comes to all the cells.
proof fn lemma_whole_share(size: int, of: int)
    requires
        0 <= size,
        0 < of,
    ensures
        screen::cells_of_share(size, of, of) == size,
{
    assert((200 * size * of + of) / (2 * of) == 100 * size) by (nonlinear_arith)
        requires
            0 <= size,
            0 < of,
    ;
}

/// No share comes to more cells than there are.
proof fn lemma_share_bounded(size: int, share: int, of: int)
    requires
        0 <= size,
        0 <= share <= of,
        0 < of,
    ensures
        0 <= screen::cells_of_share(size, share, of) <= size,
    decreases of - share,
{
    lemma_whole_share(size, of);
    if share < of {
        lemma_share_grows(size, share, of);
        lemma_share_bounded(size, share + 1, of);
    }
}

/// Equal columns fill the area they divide: the first starts where it starts, each of the
/// others where the one before it ends, and the last ends where it ends.
pub proof fn law_equal_columns_fill_the_area(area: Rect, count: nat)
    requires
        area.x + area.width <= u16::MAX,
        count > 0,
    ensures
        screen::lie_in(picture::equal_columns(area, count), area, Direction::Across),
        screen::touch(picture::equal_columns(area, count), Direction::Across),
        screen::end_of(picture::equal_columns(area, count).last(), Direction::Across)
            == screen::end_of(area, Direction::Across),
{
    let columns = picture::equal_columns(area, count);
    let size = area.width as int;
    let of = count as int;
    screen::lemma_no_share(size, of);
    lemma_whole_share(size, of);
    assert forall|i: int| 0 <= i < count implies screen::spans_across(
        #[trigger] columns[i],
        area,
        Direction::Across,
    ) && screen::lies_within(columns[i], area, Direction::Across) by {
        lemma_share_bounded(size, i, of);
        lemma_share_bounded(size, i + 1, of);
        lemma_share_grows(size, i, of);
    }
    assert forall|i: int, j: int| 0 <= i && j == i + 1 && j < count implies screen::start_of(
        #[trigger] columns[j],
        Direction::Across,
    ) == screen::end_of(#[trigger] columns[i], Direction::Across) by {
        lemma_share_bounded(size, i, of);
        lemma_share_bounded(size, j, of);
        lemma_share_grows(size, i, of);
    }
    lemma_share_bounded(size, of - 1, of);
    lemma_share_grows(size, of - 1, of);
}

/// On a screen with room for everything the listing has two fifths of the width beside the
/// preview, or three tenths of the height above the log, to the nearest cell; the other has
/// all the rest. The preview keeps a column free on either side.
pub proof fn law_how_the_screen_is_shared(s: NavView, area: Rect)
    requires
        picture::shows_listing(s),
        picture::roomy(s, area),
    ensures
        picture::places(s, area) matches AreasView::Normal { list, side, plan, bottom } && {
            let tall = area.height - plan.height - 2;
            &&& list.x == area.x && list.y == area.y
            &&& s.log_panel_visible ==> {
                &&& -50 <= 100 * list.height - 30 * tall <= 50
                &&& list.height + side.height == tall
                &&& list.width == area.width && side.width == area.width
                &&& side.y == list.y + list.height && side.x == area.x
            }
            &&& !s.log_panel_visible ==> {
                &&& -50 <= 100 * list.width - 40 * area.width <= 50
                &&& list.width + side.width == area.width
                &&& list.height == tall && side.height == tall
                &&& side.x == list.x + list.width && side.y == area.y
                &&& side.width >= 2 ==> screen::without_sides(side) == (Rect {
                    x: (side.x + 1) as u16,
                    y: side.y,
                    width: (side.width - 2) as u16,
                    height: side.height,
                })
            }
        },
{
    let staged = picture::plan_rows(s.plan.len());
    let rest = area.height - staged - 2;
    lemma_share_bounded(area.width as int, 40, 100);
    lemma_share_bounded(rest, 30, 100);
}

} // verus!
