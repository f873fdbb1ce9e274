use vstd::prelude::*;
use crate::app::AppState;
use crate::model::{AppMode, FocusArea, MemoHitRegion, TaskHitRegion};
use ratatui::layout::{Constraint, Direction, Layout, Rect};

verus! {

// ── Screen areas ─────────────────────────────────────────────────────────────

/// How much of a split one area asks for, in ratatui's terms: at least `n` cells, exactly
/// `n` cells, `p` percent, or the fraction `num / den`.
#[derive(Debug, Clone, Copy, PartialEq, Eq)]
pub enum Share {
    Min(u16),
    Length(u16),
    Percentage(u16),
    Ratio(u32, u32),
}

/// Where an area starts and how long it is along the vertical axis (`vertical`) or the
/// horizontal one.
pub open spec fn along(r: (u16, u16, u16, u16), vertical: bool) -> (u16, u16) {
    if vertical {
        (r.1, r.3)
    } else {
        (r.0, r.2)
    }
}

/// Where a stretch of `len` cells from `start` ends, capped at the last coordinate.
pub open spec fn axis_end(start: u16, len: u16) -> int {
    if start + len <= u16::MAX {
        start + len
    } else {
        u16::MAX as int
    }
}

/// How many cells of an area lie within the coordinates along an axis.
pub open spec fn extent(r: (u16, u16, u16, u16), vertical: bool) -> int {
    axis_end(along(r, vertical).0, along(r, vertical).1) - along(r, vertical).0
}

/// `inner` lies inside `outer` along an axis.
pub open spec fn within_along(inner: (u16, u16, u16, u16), outer: (u16, u16, u16, u16), vertical: bool) -> bool {
    &&& along(inner, vertical).0 >= along(outer, vertical).0
    &&& along(inner, vertical).0 + along(inner, vertical).1 <= axis_end(
        along(outer, vertical).0,
        along(outer, vertical).1,
    )
}

/// `len` cells are `p` percent of `total` cells, give or take less than two cells of rounding.
pub open spec fn near_share(len: int, p: int, total: int) -> bool {
    &&& 100 * len + 200 > p * total
    &&& 100 * len < p * total + 200
}

/// An area starting `off` cells into the split starts `p` percent of `total` cells in, give or
/// take less than one cell of rounding.
pub open spec fn near_offset(off: int, p: int, total: int) -> bool {
    &&& 100 * off + 100 > p * total
    &&& 100 * off < p * total + 100
}

/// The percentage a share asks for (0 for one of another kind).
pub open spec fn percent_of(s: Share) -> int {
    match s {
        Share::Percentage(p) => p as int,
        _ => 0,
    }
}

/// Every share is a percentage.
pub open spec fn all_percent(s: Seq<Share>) -> bool {
    forall|i: int| 0 <= i < s.len() ==> (#[trigger] s[i]) is Percentage
}

/// The sum of the percentages of the shares.
pub open spec fn percent_total(s: Seq<Share>) -> int
    decreases s.len(),
{
    if s.len() == 0 {
        0
    } else {
        percent_total(s.drop_last()) + percent_of(s.last())
    }
}

/// Splits `area` (x, y, width, height) with ratatui's `Layout::split` along the vertical axis
/// (`vertical`) or the horizontal one, one constraint per share. Its source shows:
/// - one area comes back per constraint, and each keeps the given area's position and extent
///   across the split axis;
/// - along the split axis each area lies inside the given one, since the area's bounds are
///   the solver's required constraints and each boundary is rounded to a whole cell;
/// - where all shares are percentages summing to at most 100, the solver can meet them all, and
///   with the default flex (`Start`) everything else it is asked is either met alongside them
///   or weaker (the space left over goes after the last area), so each area holds its
///   percentage of the cells and starts after the percentages of the areas before it, give or
///   take the rounding of its boundaries.
/// The exact rounding is not stated.
#[verifier::external_body]
fn split_area(vertical: bool, shares: &Vec<Share>, area: (u16, u16, u16, u16)) -> (r: Vec<
    (u16, u16, u16, u16),
>)
    ensures
        r@.len() == shares@.len(),
        forall|i: int|
            0 <= i < r@.len() ==> along(#[trigger] r@[i], !vertical) == along(area, !vertical)
                && within_along(r@[i], area, vertical),
        all_percent(shares@) && percent_total(shares@) <= 100 ==> forall|i: int|
            0 <= i < r@.len() ==> near_share(
                along(#[trigger] r@[i], vertical).1 as int,
                percent_of(shares@[i]),
                extent(area, vertical),
            ) && near_offset(
                along(r@[i], vertical).0 - along(area, vertical).0,
                percent_total(shares@.take(i)),
                extent(area, vertical),
            ),
{
    let direction = if vertical { Direction::Vertical } else { Direction::Horizontal };
    let constraints = shares.iter().map(|s| match *s {
        Share::Min(n) => Constraint::Min(n),
        Share::Length(n) => Constraint::Length(n),
        Share::Percentage(p) => Constraint::Percentage(p),
        Share::Ratio(a, b) => Constraint::Ratio(a, b),
    });
    let rects = Layout::default().direction(direction).constraints(constraints).split(
        Rect { x: area.0, y: area.1, width: area.2, height: area.3 },
    );
    rects.iter().map(|r| (r.x, r.y, r.width, r.height)).collect()
}

/// The three percentage shares of a split.
fn percent_shares(p: (u16, u16, u16)) -> (r: Vec<Share>)
    ensures
        r@ == seq![Share::Percentage(p.0), Share::Percentage(p.1), Share::Percentage(p.2)],
{
    let mut r: Vec<Share> = Vec::new();
    r.push(Share::Percentage(p.0));
    r.push(Share::Percentage(p.1));
    r.push(Share::Percentage(p.2));
    r
}

/// The three percentages that centre a share of `pct` percent: equal margins around it.
pub fn centered_shares(pct: u16) -> (r: (u16, u16, u16))
    requires
        pct <= 100,
    ensures
        r == (((100 - pct) / 2) as u16, pct, ((100 - pct) / 2) as u16),
{
    let side = (100 - pct) / 2;
    (side, pct, side)
}

/// Along one axis, `r` is the middle `pct` percent of `area`: inside it, starting after a
/// margin of `(100 - pct) / 2` percent and holding `pct` percent of its cells, each give or
/// take the rounding to whole cells.
pub open spec fn centered_along(r: (u16, u16, u16, u16), area: (u16, u16, u16, u16), vertical: bool, pct: u16) -> bool {
    &&& within_along(r, area, vertical)
    &&& near_offset(
        along(r, vertical).0 - along(area, vertical).0,
        (100 - pct) / 2,
        extent(area, vertical),
    )
    &&& near_share(along(r, vertical).1 as int, pct as int, extent(area, vertical))
}

proof fn lemma_centered_total(pct: u16)
    requires
        pct <= 100,
    ensures
        ({
            let side = ((100 - pct) / 2) as u16;
            let s = seq![Share::Percentage(side), Share::Percentage(pct), Share::Percentage(side)];
            &&& all_percent(s)
            &&& percent_total(s) <= 100
            &&& percent_total(s.take(1)) == side
        }),
{
    let side = ((100 - pct) / 2) as u16;
    let s = seq![Share::Percentage(side), Share::Percentage(pct), Share::Percentage(side)];
    assert(s.take(1).drop_last() =~= Seq::<Share>::empty());
    assert(s.drop_last().drop_last() =~= s.take(1));
    assert(percent_total(Seq::<Share>::empty()) == 0);
    assert(s.take(1).last() == s[0]);
    assert(percent_total(s.take(1)) == side);
    assert(percent_total(s.drop_last().drop_last()) == side);
    assert(percent_total(s.drop_last()) == side + pct);
}

/// Create a centred rect of the given percentage dimensions: the middle area of a vertical
/// split of `area` by `centered_shares(pct_y)`, then the middle area of a horizontal split of
/// that by `centered_shares(pct_x)`.
pub fn centered_rect(pct_x: u16, pct_y: u16, area: (u16, u16, u16, u16)) -> (r: (u16, u16, u16, u16))
    requires
        pct_x <= 100,
        pct_y <= 100,
    ensures
        centered_along(r, area, false, pct_x),
        centered_along(r, area, true, pct_y),
{
    let vert = split_area(true, &percent_shares(centered_shares(pct_y)), area);
    let horiz = split_area(false, &percent_shares(centered_shares(pct_x)), vert[1]);
    proof {
        lemma_centered_total(pct_y);
        lemma_centered_total(pct_x);
    }
    horiz[1]
}

/// The areas of the main screen, each as (x, y, width, height): the board above the status
/// bar, the kanban part of the board with its four columns and the memo panel under them,
/// and the detail panel to the kanban's right.
pub struct ScreenAreas {
    pub board: (u16, u16, u16, u16),
    pub kanban: (u16, u16, u16, u16),
    pub columns: Vec<(u16, u16, u16, u16)>,
    pub memo: (u16, u16, u16, u16),
    pub detail: (u16, u16, u16, u16),
    pub status: (u16, u16, u16, u16),
}

/// Whether the terminal is below the 40 by 12 cells that the screen needs.
pub open spec fn too_small(width: u16, height: u16) -> bool {
    width < 40 || height < 12
}

/// `r` spans `outer` across the split axis and lies inside it along it.
pub open spec fn split_part(r: (u16, u16, u16, u16), outer: (u16, u16, u16, u16), vertical: bool) -> bool {
    &&& along(r, !vertical) == along(outer, !vertical)
    &&& within_along(r, outer, vertical)
}

/// Along one axis, `r` starts `before` percent into `outer` and holds `pct` percent of it,
/// each give or take the rounding to whole cells.
pub open spec fn share_along(
    r: (u16, u16, u16, u16),
    outer: (u16, u16, u16, u16),
    vertical: bool,
    before: int,
    pct: int,
) -> bool {
    &&& near_offset(along(r, vertical).0 - along(outer, vertical).0, before, extent(outer, vertical))
    &&& near_share(along(r, vertical).1 as int, pct, extent(outer, vertical))
}

/// How the main screen is laid out in `area`:
/// - the board and the status bar span the area's width, one above the other inside it;
/// - the kanban and the detail panel span the board's height; the kanban takes the first 75%
///   of its width, the detail panel the last 25%;
/// - the memo panel spans the kanban's width and takes the last 20% of its height; the four
///   columns lie side by side inside the kanban's width, on the band of its first 80%.
pub open spec fn screen_layout(s: ScreenAreas, area: (u16, u16, u16, u16)) -> bool {
    &&& split_part(s.board, area, true)
    &&& split_part(s.status, area, true)
    &&& split_part(s.kanban, s.board, false)
    &&& split_part(s.detail, s.board, false)
    &&& share_along(s.kanban, s.board, false, 0, 75)
    &&& share_along(s.detail, s.board, false, 75, 25)
    &&& split_part(s.memo, s.kanban, true)
    &&& share_along(s.memo, s.kanban, true, 80, 20)
    &&& s.columns@.len() == 4
    &&& forall|i: int|
        0 <= i < 4 ==> {
            &&& within_along(#[trigger] s.columns@[i], s.kanban, false)
            &&& s.columns@[i].1 == s.kanban.1
            &&& near_share(s.columns@[i].3 as int, 80, extent(s.kanban, true))
        }
}

/// Lays out the main screen in `area`, or gives `None` where it is too small for it. The
/// board takes all rows but a one-line status bar below it; the board gives 75% of its width
/// to the kanban and 25% to the detail panel; the kanban gives 80% of its height to four
/// columns of a quarter each and 20% to the memo panel. Where ratatui's solver places the
/// board, the status bar and the columns along their splits is stated only as far as
/// `screen_layout` says.
pub fn screen_areas(area: (u16, u16, u16, u16)) -> (r: Option<ScreenAreas>)
    ensures
        r is None <==> too_small(area.2, area.3),
        match r {
            Some(s) => screen_layout(s, area),
            None => true,
        },
{
    if area.2 < 40 || area.3 < 12 {
        return None;
    }
    let mut rows_shares: Vec<Share> = Vec::new();
    rows_shares.push(Share::Min(3));
    rows_shares.push(Share::Length(1));
    let rows = split_area(true, &rows_shares, area);
    let board = rows[0];
    let status = rows[1];
    let cols = split_area(false, &percent_pair(75, 25), board);
    let kanban = cols[0];
    let detail = cols[1];
    let kanban_rows = split_area(true, &percent_pair(80, 20), kanban);
    let columns_area = kanban_rows[0];
    let memo = kanban_rows[1];
    let mut quarters: Vec<Share> = Vec::new();
    let mut i: usize = 0;
    while i < 4
        invariant
            i <= 4,
            quarters@.len() == i,
        decreases 4 - i,
    {
        quarters.push(Share::Ratio(1, 4));
        i = i + 1;
    }
    let columns = split_area(false, &quarters, columns_area);
    proof {
        lemma_pair_total(75, 25);
        lemma_pair_total(80, 20);
    }
    Some(ScreenAreas { board, kanban, columns, memo, detail, status })
}

proof fn lemma_pair_total(a: u16, b: u16)
    requires
        a + b <= 100,
    ensures
        ({
            let s = seq![Share::Percentage(a), Share::Percentage(b)];
            &&& all_percent(s)
            &&& percent_total(s) == a + b
            &&& percent_total(s.take(0)) == 0
            &&& percent_total(s.take(1)) == a
        }),
{
    let s = seq![Share::Percentage(a), Share::Percentage(b)];
    assert(s.take(0) =~= Seq::<Share>::empty());
    assert(s.take(1).drop_last() =~= Seq::<Share>::empty());
    assert(s.drop_last() =~= s.take(1));
    assert(percent_total(Seq::<Share>::empty()) == 0);
    assert(s.take(1).last() == s[0]);
    assert(percent_total(s.take(1)) == a);
}

/// The two percentage shares of a split.
fn percent_pair(a: u16, b: u16) -> (r: Vec<Share>)
    ensures
        r@ == seq![Share::Percentage(a), Share::Percentage(b)],
{
    let mut r: Vec<Share> = Vec::new();
    r.push(Share::Percentage(a));
    r.push(Share::Percentage(b));
    r
}

// ── Status bar and input popup ───────────────────────────────────────────────

/// The key hint shown in the status bar when there is no message.
pub open spec fn hint_for(area: FocusArea) -> Seq<char> {
    if area == FocusArea::Memo {
        "a:add  e:title  E:detail  D:del  hjkl:nav  k:back  q:quit"@
    } else {
        "a:add  e:title  E:detail  Enter:→  BS:←  D:del  J/K:move  j:memo  q:quit"@
    }
}

/// The status bar text: the message when there is one, else the key hint of the focused panel.
pub fn status_text(app: &AppState) -> (r: &str)
    ensures
        r@ == match app.status_msg {
            Some(m) => m@,
            None => hint_for(app.focus_area),
        },
{
    match &app.status_msg {
        Some(m) => m.as_str(),
        None => {
            if app.focus_area == FocusArea::Memo {
                "a:add  e:title  E:detail  D:del  hjkl:nav  k:back  q:quit"
            } else {
                "a:add  e:title  E:detail  Enter:→  BS:←  D:del  J/K:move  j:memo  q:quit"
            }
        },
    }
}

/// The input popup's title for its mode and for what it creates or edits.
pub open spec fn popup_title_spec(mode: AppMode, is_memo: bool, is_create: bool) -> Seq<char> {
    if mode == AppMode::InputTitle {
        if is_memo {
            if is_create {
                " Add Memo "@
            } else {
                " Edit Memo Title "@
            }
        } else if is_create {
            " Add Task "@
        } else {
            " Edit Title "@
        }
    } else if is_memo {
        " Edit Memo Detail "@
    } else {
        " Edit Detail "@
    }
}

/// The input popup's title (the popup is shown only outside Normal mode).
pub fn popup_title(mode: AppMode, is_memo: bool, is_create: bool) -> (r: &'static str)
    requires
        mode != AppMode::Normal,
    ensures
        r@ == popup_title_spec(mode, is_memo, is_create),
{
    if mode == AppMode::InputTitle {
        if is_memo {
            if is_create {
                " Add Memo "
            } else {
                " Edit Memo Title "
            }
        } else if is_create {
            " Add Task "
        } else {
            " Edit Title "
        }
    } else if is_memo {
        " Edit Memo Detail "
    } else {
        " Edit Detail "
    }
}

/// How the popup shows a cursor on visual row `cursor_row` in `height` rows: the first
/// visible row (scrolled just enough to keep the cursor in view), and the cursor's row on
/// screen when it is visible.
pub fn popup_view(cursor_row: usize, height: usize) -> (r: (usize, Option<usize>))
    ensures
        r.0 == if height > 0 && cursor_row >= height {
            cursor_row - height + 1
        } else {
            0
        },
        r.1 == if cursor_row - r.0 < height {
            Some((cursor_row - r.0) as usize)
        } else {
            None::<usize>
        },
{
    let scroll: usize = if height > 0 && cursor_row >= height {
        cursor_row - height + 1
    } else {
        0
    };
    let screen_row = cursor_row - scroll;
    if screen_row < height {
        (scroll, Some(screen_row))
    } else {
        (scroll, None)
    }
}

// ── Memo panel ───────────────────────────────────────────────────────────────

/// The width of one memo cell.
pub const MEMO_ITEM_WIDTH: u16 = 24;

/// How many memo cells fit side by side in a panel `width` wide (at least one).
pub fn memo_items_per_row(width: u16) -> (n: u16)
    ensures
        n == if width / MEMO_ITEM_WIDTH >= 1 {
            width / MEMO_ITEM_WIDTH
        } else {
            1
        },
{
    let n = width / MEMO_ITEM_WIDTH;
    if n >= 1 {
        n
    } else {
        1
    }
}

/// The screen cell of memo `idx` in a grid of `per_row` cells per row, inside the panel area
/// `inner` (x, y, width, height), one row per line; `None` once the rows run past the panel.
/// The last cell of a row is cut at the panel's right edge.
pub open spec fn memo_cell_spec(idx: int, per_row: u16, inner: (u16, u16, u16, u16)) -> Option<
    MemoHitRegion,
> {
    let row = idx / (per_row as int);
    let col = idx % (per_row as int);
    let x = inner.0 + col * MEMO_ITEM_WIDTH;
    let right = inner.0 + inner.2;
    if row >= inner.3 {
        None
    } else {
        Some(
            MemoHitRegion {
                row: (inner.1 + row) as u16,
                col_start: x as u16,
                col_end: (if x + MEMO_ITEM_WIDTH <= right {
                    x + MEMO_ITEM_WIDTH
                } else {
                    right
                }) as u16,
                memo_index: idx as usize,
            },
        )
    }
}

/// The screen cell of memo `idx`, as `memo_cell_spec` places it.
pub fn memo_cell(idx: usize, per_row: u16, inner: (u16, u16, u16, u16)) -> (r: Option<MemoHitRegion>)
    requires
        per_row >= 1,
        idx <= u16::MAX,
        inner.0 + inner.2 <= u16::MAX,
        inner.1 + inner.3 <= u16::MAX,
        (per_row - 1) * MEMO_ITEM_WIDTH < inner.2 || per_row == 1,
    ensures
        r == memo_cell_spec(idx as int, per_row, inner),
{
    let i = idx as u16;
    let row = i / per_row;
    let col = i % per_row;
    if row >= inner.3 {
        return None;
    }
    let y = inner.1 + row;
    assert(col * 24 <= (per_row - 1) * 24) by (nonlinear_arith)
        requires
            col < per_row,
    ;
    let x = inner.0 + col * MEMO_ITEM_WIDTH;
    let right = inner.0 + inner.2;
    let cell_width = if MEMO_ITEM_WIDTH <= right - x {
        MEMO_ITEM_WIDTH
    } else {
        right - x
    };
    Some(MemoHitRegion { row: y, col_start: x, col_end: x + cell_width, memo_index: idx })
}

/// The cells of the first `count` memos, in order, as far as the panel `inner` has rows for
/// them (and no further than the cell coordinates reach).
pub fn memo_cells(count: usize, per_row: u16, inner: (u16, u16, u16, u16)) -> (r: Vec<MemoHitRegion>)
    requires
        per_row >= 1,
        inner.0 + inner.2 <= u16::MAX,
        inner.1 + inner.3 <= u16::MAX,
        (per_row - 1) * MEMO_ITEM_WIDTH < inner.2 || per_row == 1,
    ensures
        r@.len() == vstd::math::min(vstd::math::min(count as int, per_row * inner.3), u16::MAX + 1),
        forall|k: int| 0 <= k < r@.len() ==> memo_cell_spec(k, per_row, inner) == Some(#[trigger] r@[k]),
{
    let mut r: Vec<MemoHitRegion> = Vec::new();
    let mut idx: usize = 0;
    while idx < count && idx <= 65535
        invariant
            per_row >= 1,
            inner.0 + inner.2 <= u16::MAX,
            inner.1 + inner.3 <= u16::MAX,
            (per_row - 1) * MEMO_ITEM_WIDTH < inner.2 || per_row == 1,
            idx <= count,
            idx <= u16::MAX + 1,
            idx <= per_row * inner.3,
            r@.len() == idx,
            forall|k: int| 0 <= k < r@.len() ==> memo_cell_spec(k, per_row, inner) == Some(#[trigger] r@[k]),
        decreases count - idx,
    {
        match memo_cell(idx, per_row, inner) {
            Some(c) => {
                proof {
                    lemma_row_bound(idx as int, per_row as int, inner.3 as int);
                }
                r.push(c);
            },
            None => {
                proof {
                    lemma_row_past(idx as int, per_row as int, inner.3 as int);
                }
                return r;
            },
        }
        idx = idx + 1;
    }
    r
}

proof fn lemma_row_bound(idx: int, per_row: int, h: int)
    requires
        idx >= 0,
        per_row >= 1,
        idx / per_row < h,
    ensures
        idx + 1 <= per_row * h,
{
    assert(idx + 1 <= per_row * h) by (nonlinear_arith)
        requires
            idx >= 0,
            per_row >= 1,
            idx / per_row < h,
    {
        assert(idx == per_row * (idx / per_row) + idx % per_row);
        assert(per_row * (idx / per_row) + per_row <= per_row * h);
    };
}

proof fn lemma_row_past(idx: int, per_row: int, h: int)
    requires
        idx >= 0,
        per_row >= 1,
        idx / per_row >= h,
        idx <= per_row * h,
    ensures
        idx == per_row * h,
{
    assert(idx >= per_row * h) by (nonlinear_arith)
        requires
            idx >= 0,
            per_row >= 1,
            idx / per_row >= h,
    {
        assert(idx == per_row * (idx / per_row) + idx % per_row);
        assert(per_row * (idx / per_row) >= per_row * h);
    };
}

// ── Kanban column ────────────────────────────────────────────────────────────

/// The rows taken by the first `k` cards of heights `hs`, each followed by a blank row.
pub open spec fn rows_before(hs: Seq<u16>, k: int) -> int
    decreases k,
{
    if k <= 0 {
        0
    } else {
        rows_before(hs, k - 1) + hs[k - 1] + 1
    }
}

proof fn lemma_rows_before_mono(hs: Seq<u16>, j: int, k: int)
    requires
        0 <= j <= k <= hs.len(),
    ensures
        rows_before(hs, j) <= rows_before(hs, k),
    decreases k - j,
{
    if j < k {
        lemma_rows_before_mono(hs, j, k - 1);
    }
}

/// The click regions of the cards of column `column`, drawn in `area` (x, y, width, height)
/// inside its border: card `k`, `hs[k]` rows high, starts below the cards before it and the
/// blank row after each, and spans the column's whole width.
pub fn task_regions(hs: &Vec<u16>, area: (u16, u16, u16, u16), column: usize) -> (r: Vec<TaskHitRegion>)
    requires
        area.0 + area.2 <= u16::MAX,
        area.1 + rows_before(hs@, hs@.len() as int) <= u16::MAX,
    ensures
        r@.len() == hs@.len(),
        forall|k: int|
            0 <= k < hs@.len() ==> {
                let top = area.1 + 1 + rows_before(hs@, k);
                &&& (#[trigger] r@[k]).row_start == top
                &&& r@[k].row_end == top + hs@[k]
                &&& r@[k].col_start == area.0
                &&& r@[k].col_end == area.0 + area.2
                &&& r@[k].column == column
                &&& r@[k].card_index == k
            },
{
    let mut r: Vec<TaskHitRegion> = Vec::new();
    let mut rows: u16 = 0;
    let mut k: usize = 0;
    while k < hs.len()
        invariant
            k <= hs@.len(),
            rows == rows_before(hs@, k as int),
            area.0 + area.2 <= u16::MAX,
            area.1 + rows_before(hs@, hs@.len() as int) <= u16::MAX,
            r@.len() == k,
            forall|j: int|
                0 <= j < k ==> {
                    let top = area.1 + 1 + rows_before(hs@, j);
                    &&& (#[trigger] r@[j]).row_start == top
                    &&& r@[j].row_end == top + hs@[j]
                    &&& r@[j].col_start == area.0
                    &&& r@[j].col_end == area.0 + area.2
                    &&& r@[j].column == column
                    &&& r@[j].card_index == j
                },
        decreases hs.len() - k,
    {
        proof {
            lemma_rows_before_mono(hs@, k + 1, hs@.len() as int);
        }
        let top = area.1 + 1 + rows;
        let h = hs[k];
        r.push(TaskHitRegion {
            row_start: top,
            row_end: top + h,
            col_start: area.0,
            col_end: area.0 + area.2,
            column,
            card_index: k,
        });
        rows = rows + h + 1;
        k += 1;
    }
    r
}

} // verus!
