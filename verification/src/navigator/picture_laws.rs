//! What holds of every frame.
use crate::navigator::model::NavView;
use crate::navigator::picture::{self, AreasView, FactsView, PreviewView};
use crate::screen;
use crate::text;
use vstd::prelude::*;

verus! {

broadcast use {vstd::seq::group_seq_axioms, vstd::seq_lib::group_seq_properties};

/// The entry under the cursor is always in sight, wherever the listing was scrolled
/// to before and however large the screen is now.
pub proof fn law_the_cursor_is_in_sight(s: NavView, visible: int)
    requires
        s.wf(),
        s.entries.len() > 0,
        s.scroll_offset >= 0,
        visible > 0,
    ensures
        picture::scrolled(s, visible) <= s.selected < picture::scrolled(s, visible) + visible,
{
}

/// How many rows of context the cursor is given on either side.
pub open spec fn context(visible: int) -> int {
    screen::least(8, visible / 2)
}

/// Where the screen has room for the context on both sides, that much of the listing
/// stands above and below the cursor, as far as there are entries.
pub proof fn law_the_cursor_has_context(s: NavView, visible: int)
    requires
        s.wf(),
        s.entries.len() > 0,
        s.scroll_offset >= 0,
        2 * context(visible) < visible,
    ensures
        picture::scrolled(s, visible) <= screen::less(s.selected, context(visible)),
        picture::scrolled(s, visible) + visible > screen::least(
            s.selected + context(visible),
            s.entries.len() - 1,
        ),
{
}

/// The listing is never scrolled past its end: either all of it is in sight, or
/// every row of the screen has an entry.
pub proof fn law_no_row_is_wasted(s: NavView, visible: int)
    requires
        s.wf(),
        s.scroll_offset >= 0,
        visible > 0,
    ensures
        0 <= picture::scrolled(s, visible),
        picture::scrolled(s, visible) == 0 || picture::scrolled(s, visible) + visible
            <= s.entries.len(),
{
}

/// Where the screen has room for the context on both sides, drawing twice scrolls
/// only once.
pub proof fn law_scrolling_settles(s: NavView, visible: int)
    requires
        s.wf(),
        s.scroll_offset >= 0,
        2 * context(visible) < visible,
    ensures
        ({
            let now = NavView { scroll_offset: picture::scrolled(s, visible), ..s };
            picture::scrolled(now, visible) == picture::scrolled(s, visible)
        }),
{
}

/// The selected operation is always in sight in the review.
pub proof fn law_the_selected_operation_is_in_sight(s: NavView, height: int)
    requires
        height > 0,
        0 <= s.review_selected < s.plan.len(),
    ensures
        picture::review_first(s, height) <= s.review_selected < picture::review_first(s, height)
            + height,
{
}

/// Drawing shows what is there and changes none of it: where it is scrolled to and
/// which image is kept are all that drawing sets.
pub proof fn law_drawing_changes_nothing_that_counts(
    s: NavView,
    areas: AreasView,
    facts: FactsView,
    preview: PreviewView,
)
    ensures
        ({
            let after = picture::drawn_state(s, areas, facts, preview);
            after == (NavView {
                scroll_offset: after.scroll_offset,
                log_scroll_offset: after.log_scroll_offset,
                cached_image: after.cached_image,
                ..s
            })
        }),
{
}

/// The plan panel has a row for its border and one for each operation, but for no more than
/// six of them, and takes none when nothing is staged. What it does not show, its title
/// counts.
pub proof fn law_the_plan_panel_stays_small(count: nat)
    ensures
        picture::plan_rows(count) <= picture::PLAN_PANEL_ROWS + 1,
        picture::plan_rows(count) == 0 <==> count == 0,
        1 <= count <= 6 ==> picture::plan_rows(count) == count + 1,
        count > 6 ==> picture::plan_rows(count) == 7,
        count <= 6 ==> picture::plan_title(count) == " plan ("@ + text::decimal_text(count)
            + ") "@,
        count > 6 ==> picture::plan_title(count) == " plan ("@ + text::decimal_text(count) + ", "@
            + text::decimal_text((count - 6) as nat) + " more) "@,
{
}

/// The listing is scrolled only where it has to be, and no further than it has to be: it
/// stays where it is while the cursor has its context on both sides, and otherwise moves
/// until the cursor has just that.
pub proof fn law_scrolling_goes_no_further_than_it_has_to(s: NavView, visible: int)
    requires
        s.wf(),
        s.scroll_offset >= 0,
        2 * context(visible) < visible,
        s.entries.len() >= visible,
        s.scroll_offset + visible <= s.entries.len(),
    ensures
        s.scroll_offset + context(visible) <= s.selected < s.scroll_offset + visible - context(
            visible,
        ) ==> picture::scrolled(s, visible) == s.scroll_offset,
        s.selected < s.scroll_offset + context(visible) && s.selected >= context(visible)
            ==> picture::scrolled(s, visible) + context(visible) == s.selected,
        s.selected < s.scroll_offset + context(visible) && s.selected < context(visible)
            ==> picture::scrolled(s, visible) == 0,
        s.selected >= s.scroll_offset + visible - context(visible) && s.selected + context(visible)
            < s.entries.len() ==> picture::scrolled(s, visible) + visible == s.selected + context(
            visible,
        ) + 1,
        s.selected >= s.scroll_offset + visible - context(visible) && s.selected + context(visible)
            >= s.entries.len() ==> picture::scrolled(s, visible) + visible == s.entries.len(),
{
}

} // verus!
