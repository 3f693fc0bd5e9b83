//! Screen geometry: rectangles of the terminal and the area of the edit window, computed with
//! `ratatui`'s layout solver.
use vstd::prelude::*;

verus! {

/// A rectangle of the terminal screen: its top-left corner and its size, in cells.
#[derive(Debug, Clone, Copy, PartialEq, Eq, Structural)]
pub struct Rect {
    pub x: u16,
    pub y: u16,
    pub width: u16,
    pub height: u16,
}

/// The direction in which an area is split.
#[derive(Debug, Clone, Copy, PartialEq, Eq, Structural)]
pub enum Direction {
    Horizontal,
    Vertical,
}

/// `inner` lies within `outer`.
pub open spec fn rect_within(inner: Rect, outer: Rect) -> bool {
    &&& outer.x <= inner.x
    &&& inner.x + inner.width <= outer.x + outer.width
    &&& outer.y <= inner.y
    &&& inner.y + inner.height <= outer.y + outer.height
}

/// The sum of the first `k` percentages.
pub open spec fn percent_prefix_sum(percentages: Seq<u16>, k: int) -> int
    decreases k,
{
    if k <= 0 {
        0
    } else {
        percent_prefix_sum(percentages, k - 1) + percentages[k - 1]
    }
}

/// The percentages add up to at most a hundred.
pub open spec fn percentages_fit(percentages: Seq<u16>) -> bool {
    percent_prefix_sum(percentages, percentages.len() as int) <= 100
}

/// `n / 100` rounded to the nearest integer, halves away from zero (for `n >= 0`).
pub open spec fn round_hundredths(n: int) -> int {
    (n + 50) / 100
}

/// The extent of an area along one axis once it is kept on the screen: a size that would
/// reach past the last cell is cut there (what `ratatui::layout::Rect::new` does).
pub open spec fn on_screen_extent(start: u16, size: u16) -> int {
    if size > 65535 - start {
        65535 - start
    } else {
        size as int
    }
}

/// Where, counted from the start of an area of the given extent, the area given to the `k`-th
/// percentage begins: the extent times the sum of the earlier percentages, over a hundred,
/// rounded to a cell.
pub open spec fn split_offset(percentages: Seq<u16>, k: int, extent: int) -> int {
    round_hundredths(extent * percent_prefix_sum(percentages, k))
}

/// The `i`-th area of a split of `area` by percentages that add up to at most a hundred, as
/// `ratatui::layout::Layout::split` gives it: along the split direction it runs from the
/// `i`-th offset to the next; across it, it keeps the area's position and extent.
pub open spec fn percentage_part(horizontal: bool, percentages: Seq<u16>, i: int, area: Rect) -> Rect {
    let w = on_screen_extent(area.x, area.width);
    let h = on_screen_extent(area.y, area.height);
    if horizontal {
        let s = split_offset(percentages, i, w);
        let e = split_offset(percentages, i + 1, w);
        Rect { x: (area.x + s) as u16, y: area.y, width: (e - s) as u16, height: h as u16 }
    } else {
        let s = split_offset(percentages, i, h);
        let e = split_offset(percentages, i + 1, h);
        Rect { x: area.x, y: (area.y + s) as u16, width: w as u16, height: (e - s) as u16 }
    }
}

/// Calls `ratatui::layout::Layout::split` (default flex, no margin, no spacing) with one
/// `Constraint::Percentage` per given percentage, on the area as `Rect::new` keeps it on the
/// screen. Claimed, for percentages adding up to at most a hundred: one area per constraint,
/// and each is the `percentage_part` above. The solver keeps every boundary within the area
/// by required constraints, keeps the areas next to each other from the area's start
/// (the first spacer empty, the others of the zero spacing), and meets every percentage
/// constraint exactly, since the percentages fit and only weaker constraints (growing
/// spacers and segments) conflict with them; a boundary at `100 * x + w * sum` hundredths of
/// a cell is then rounded to a cell, halves away from zero. With all required constraints
/// satisfiable together, its "failed to split" does not occur.
#[verifier::external_body]
fn split_by_percentages(direction: Direction, percentages: &Vec<u16>, area: Rect) -> (parts: Vec<Rect>)
    requires
        percentages_fit(percentages@),
    ensures
        parts@.len() == percentages@.len(),
        forall|i: int|
            0 <= i < parts@.len() ==> #[trigger] parts@[i] == percentage_part(
                direction == Direction::Horizontal,
                percentages@,
                i,
                area,
            ),
{
    let direction = match direction {
        Direction::Horizontal => ratatui::layout::Direction::Horizontal,
        Direction::Vertical => ratatui::layout::Direction::Vertical,
    };
    let constraints: Vec<ratatui::layout::Constraint> =
        percentages.iter().map(|p| ratatui::layout::Constraint::Percentage(*p)).collect();
    let area = ratatui::layout::Rect::new(area.x, area.y, area.width, area.height);
    ratatui::layout::Layout::default().direction(direction).constraints(constraints).split(area)
        .iter().map(|r| Rect { x: r.x, y: r.y, width: r.width, height: r.height }).collect()
}

proof fn lemma_prefix_sum_monotone(percentages: Seq<u16>, j: int, k: int)
    requires
        0 <= j <= k <= percentages.len(),
    ensures
        0 <= percent_prefix_sum(percentages, j) <= percent_prefix_sum(percentages, k),
    decreases k,
{
    if j < k {
        lemma_prefix_sum_monotone(percentages, j, k - 1);
    } else if k > 0 {
        lemma_prefix_sum_monotone(percentages, 0, k - 1);
    }
}

/// Every area of a split by percentages that fit lies within the split area.
pub proof fn lemma_percentage_part_within(horizontal: bool, percentages: Seq<u16>, i: int, area: Rect)
    requires
        percentages_fit(percentages),
        0 <= i < percentages.len(),
    ensures
        rect_within(percentage_part(horizontal, percentages, i, area), area),
{
    lemma_prefix_sum_monotone(percentages, i, i + 1);
    lemma_prefix_sum_monotone(percentages, i + 1, percentages.len() as int);
    let a = percent_prefix_sum(percentages, i);
    let b = percent_prefix_sum(percentages, i + 1);
    let w = on_screen_extent(area.x, area.width);
    let h = on_screen_extent(area.y, area.height);
    assert(0 <= w * a <= w * b <= w * 100) by (nonlinear_arith)
        requires
            0 <= w,
            0 <= a <= b <= 100,
    ;
    assert(0 <= h * a <= h * b <= h * 100) by (nonlinear_arith)
        requires
            0 <= h,
            0 <= a <= b <= 100,
    ;
    assert(0 <= split_offset(percentages, i, w) <= split_offset(percentages, i + 1, w) <= w);
    assert(0 <= split_offset(percentages, i, h) <= split_offset(percentages, i + 1, h) <= h);
}

/// The middle of three areas that split `r` in the given direction into `(100 - percent) / 2`,
/// `percent` and `(100 - percent) / 2` percent.
pub open spec fn middle_split(horizontal: bool, percent: u16, r: Rect) -> Rect {
    let side = ((100 - percent) / 2) as u16;
    percentage_part(horizontal, seq![side, percent, side], 1, r)
}

/// The area of `percent_x` by `percent_y` percent in the middle of `r`: the middle of a
/// vertical split, split again horizontally.
pub open spec fn centered_rect_spec(percent_x: u16, percent_y: u16, r: Rect) -> Rect {
    middle_split(true, percent_x, middle_split(false, percent_y, r))
}

/// The middle of three areas that split `r` into `(100 - percent) / 2`, `percent` and
/// `(100 - percent) / 2` percent.
fn middle_of_split(direction: Direction, percent: u16, r: Rect) -> (m: Rect)
    requires
        percent <= 100,
    ensures
        m == middle_split(direction == Direction::Horizontal, percent, r),
        rect_within(m, r),
{
    let side: u16 = (100 - percent) / 2;
    let mut percentages: Vec<u16> = Vec::new();
    percentages.push(side);
    percentages.push(percent);
    percentages.push(side);
    let ghost ps = seq![side, percent, side];
    assert(percentages@ =~= ps);
    assert(percent_prefix_sum(ps, 3) == side + percent + side) by {
        assert(percent_prefix_sum(ps, 0) == 0);
        assert(percent_prefix_sum(ps, 1) == side);
        assert(percent_prefix_sum(ps, 2) == side + percent);
    }
    let parts = split_by_percentages(direction, &percentages, r);
    proof {
        lemma_percentage_part_within(direction == Direction::Horizontal, ps, 1, r);
    }
    parts[1]
}

/// The area of the edit window: `percent_x` by `percent_y` percent of `r`, centred in it;
/// it lies within `r`.
pub fn centered_rect(percent_x: u16, percent_y: u16, r: Rect) -> (c: Rect)
    requires
        percent_x <= 100,
        percent_y <= 100,
    ensures
        c == centered_rect_spec(percent_x, percent_y, r),
        rect_within(c, r),
{
    let popup = middle_of_split(Direction::Vertical, percent_y, r);
    middle_of_split(Direction::Horizontal, percent_x, popup)
}

} // verus!
