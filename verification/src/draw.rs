//! Drawing primitives: what to put on a surface, as a list of plain commands.

use vstd::prelude::*;
use vstd::string::*;

use crate::color;
use crate::layout;

verus! {

/// A rectangle, physical pixels; right and bottom are exclusive.
#[derive(Clone, Copy, Debug, PartialEq, Eq, Structural)]
pub struct Rect {
    pub left: i32,
    pub top: i32,
    pub right: i32,
    pub bottom: i32,
}

#[derive(Clone, Copy, Debug, PartialEq, Eq, Structural)]
pub struct Point {
    pub x: i32,
    pub y: i32,
}

/// One drawing command.
#[derive(Debug)]
pub enum DrawOp {
    /// Fill a rectangle.
    Fill { rect: Rect, color: u32 },
    /// Outline a meter, one pixel wide; `chart` tells a chart from a bar.
    Frame { rect: Rect, color: u32, chart: bool },
    /// Draw the text once in each of the rectangles, left-aligned on one line.
    Text { text: String, rects: Vec<Rect>, color: u32 },
    /// Fill an area, without an outline of its own.
    Polygon { points: Vec<Point>, color: u32 },
}

/// What a drawing command says.
pub enum Op {
    Fill { rect: Rect, color: u32 },
    Frame { rect: Rect, color: u32, chart: bool },
    Text { text: Seq<char>, rects: Seq<Rect>, color: u32 },
    Polygon { points: Seq<Point>, color: u32 },
}

impl View for DrawOp {
    type V = Op;

    open spec fn view(&self) -> Op {
        match *self {
            DrawOp::Fill { rect, color } => Op::Fill { rect, color },
            DrawOp::Frame { rect, color, chart } => Op::Frame { rect, color, chart },
            DrawOp::Text { text, rects, color } => Op::Text { text: text@, rects: rects@, color },
            DrawOp::Polygon { points, color } => Op::Polygon { points: points@, color },
        }
    }
}

/// What a list of drawing commands says.
pub open spec fn ops(list: Seq<DrawOp>) -> Seq<Op> {
    Seq::new(list.len(), |i: int| list[i]@)
}

proof fn lemma_ops_push(list: Seq<DrawOp>, op: DrawOp)
    ensures
        ops(list.push(op)) == ops(list).push(op@),
{
    assert(ops(list.push(op)) =~= ops(list).push(op@));
}

/// Appends one command.
fn emit(out: &mut Vec<DrawOp>, op: DrawOp)
    ensures
        ops(final(out)@) == ops(old(out)@).push(op@),
{
    proof {
        lemma_ops_push(out@, op);
    }
    out.push(op);
}

/// A rectangle with whole-number corners.
pub open spec fn rect_of(left: int, top: int, right: int, bottom: int) -> Rect {
    Rect { left: left as i32, top: top as i32, right: right as i32, bottom: bottom as i32 }
}

/// `rect`, moved.
pub open spec fn shifted(rect: Rect, dx: int, dy: int) -> Rect {
    rect_of(rect.left + dx, rect.top + dy, rect.right + dx, rect.bottom + dy)
}

/// `rect` at every offset of up to `w` pixels on either axis, column by column
/// from the left.
pub open spec fn offset_box(rect: Rect, w: int) -> Seq<Rect> {
    let side = 2 * w + 1;
    Seq::new(
        (side * side) as nat,
        |k: int| shifted(rect, k / side - w, k % side - w),
    )
}

/// Where the outline of a text goes: everywhere around it but on the text
/// itself, which is in the middle of the box.
pub open spec fn outline_rects(rect: Rect, w: int) -> Seq<Rect> {
    if w <= 0 {
        Seq::empty()
    } else {
        offset_box(rect, w).remove(w * (2 * w + 1) + w)
    }
}

/// Whether an outline stays within 32-bit coordinates.
pub open spec fn outline_fits(rect: Rect, outline_width: u32) -> bool {
    let w = (outline_width as i32) as int;
    &&& w != i32::MIN
    &&& w > 0 ==> {
        &&& i32::MIN + w <= rect.left <= i32::MAX - w
        &&& i32::MIN + w <= rect.top <= i32::MAX - w
        &&& i32::MIN + w <= rect.right <= i32::MAX - w
        &&& i32::MIN + w <= rect.bottom <= i32::MAX - w
    }
}

/// A text with its outline underneath.
pub open spec fn row_text_ops(
    text: Seq<char>,
    rect: Rect,
    text_color: u32,
    outline_color: u32,
    outline_width: u32,
) -> Seq<Op> {
    let outline = if outline_width > 0 {
        seq![
            Op::Text {
                text,
                rects: outline_rects(rect, (outline_width as i32) as int),
                color: outline_color,
            },
        ]
    } else {
        Seq::empty()
    };
    outline + seq![Op::Text { text, rects: seq![rect], color: text_color }]
}

proof fn lemma_box_index(w: int, dx: int, dy: int)
    requires
        w > 0,
        -w <= dx <= w,
        -w <= dy <= w,
    ensures
        ({
            let side = 2 * w + 1;
            let k = (dx + w) * side + (dy + w);
            &&& 0 <= k < side * side
            &&& k / side - w == dx
            &&& k % side - w == dy
        }),
{
    let side = 2 * w + 1;
    let k = (dx + w) * side + (dy + w);
    vstd::arithmetic::div_mod::lemma_fundamental_div_mod_converse(k, side, dx + w, dy + w);
    assert(0 <= k < side * side) by (nonlinear_arith)
        requires
            side == 2 * w + 1,
            k == (dx + w) * side + (dy + w),
            0 <= dx + w < side,
            0 <= dy + w < side,
    ;
}

/// Where the outline of a text goes.
pub fn draw_text_outline(rect: Rect, outline_width: u32) -> (rects: Vec<Rect>)
    requires
        outline_fits(rect, outline_width),
    ensures
        rects@ == outline_rects(rect, (outline_width as i32) as int),
{
    let w: i32 = outline_width as i32;
    let mut rects: Vec<Rect> = Vec::new();
    if w <= 0 {
        return rects;
    }
    let ghost side = 2 * w + 1;
    let ghost all = offset_box(rect, w as int);
    let ghost centre = w * side + w;
    proof {
        lemma_box_index(w as int, 0, 0);
    }
    let mut dx: i32 = -w;
    let mut more_columns: bool = true;
    let ghost mut k: int = 0;
    proof {
        assert(all.take(0) =~= Seq::empty());
        assert((dx + w) * side == 0) by (nonlinear_arith)
            requires
                dx + w == 0,
        ;
    }
    while more_columns
        invariant
            w > 0,
            w == outline_width as i32,
            outline_fits(rect, outline_width),
            -w <= dx <= w,
            side == 2 * w + 1,
            all == offset_box(rect, w as int),
            centre == w * side + w,
            0 <= centre < side * side,
            more_columns ==> k == (dx + w) * side,
            !more_columns ==> k == side * side,
            k <= centre ==> rects@ == all.take(k),
            k > centre ==> rects@ == all.take(k).remove(centre),
            0 <= k <= side * side,
        decreases w - dx + (if more_columns { 1int } else { 0 }),
    {
        let mut dy: i32 = -w;
        let mut more_rows: bool = true;
        while more_rows
            invariant
                w > 0,
                w == outline_width as i32,
                outline_fits(rect, outline_width),
                -w <= dx <= w,
                -w <= dy <= w,
                side == 2 * w + 1,
                all == offset_box(rect, w as int),
                centre == w * side + w,
                0 <= centre < side * side,
                more_rows ==> k == (dx + w) * side + (dy + w),
                !more_rows ==> k == (dx + w) * side + side,
                k <= centre ==> rects@ == all.take(k),
                k > centre ==> rects@ == all.take(k).remove(centre),
                0 <= k <= side * side,
            decreases w - dy + (if more_rows { 1int } else { 0 }),
        {
            proof {
                lemma_box_index(w as int, dx as int, dy as int);
                assert(all[k] == shifted(rect, dx as int, dy as int));
                assert(all.take(k + 1) =~= all.take(k).push(all[k]));
                if k == centre {
                    assert(k / side - w == 0 && k % side - w == 0) by {
                        lemma_box_index(w as int, 0, 0);
                    }
                    assert(all.take(k + 1).remove(centre) =~= all.take(k));
                } else if k > centre {
                    assert(all.take(k + 1).remove(centre) =~= all.take(k).remove(centre).push(
                        all[k],
                    ));
                }
                if dx == 0 && dy == 0 {
                    assert(k == centre);
                }
            }
            if !(dx == 0 && dy == 0) {
                rects.push(
                    Rect {
                        left: rect.left + dx,
                        top: rect.top + dy,
                        right: rect.right + dx,
                        bottom: rect.bottom + dy,
                    },
                );
            }
            proof {
                k = k + 1;
            }
            if dy == w {
                more_rows = false;
            } else {
                dy = dy + 1;
            }
        }
        proof {
            assert((dx + w) * side + side == (dx + 1 + w) * side) by (nonlinear_arith);
        }
        if dx == w {
            more_columns = false;
        } else {
            dx = dx + 1;
        }
    }
    assert(all.take(side * side) =~= all);
    rects
}

/// Draws a text and its outline.
pub fn draw_row_text(
    out: &mut Vec<DrawOp>,
    text: &str,
    rect: Rect,
    text_color: u32,
    outline_color: u32,
    outline_width: u32,
)
    requires
        outline_width > 0 ==> outline_fits(rect, outline_width),
    ensures
        ops(final(out)@) == ops(old(out)@) + row_text_ops(
            text@,
            rect,
            text_color,
            outline_color,
            outline_width,
        ),
{
    if outline_width > 0 {
        let rects = draw_text_outline(rect, outline_width);
        emit(out, DrawOp::Text { text: text.to_owned(), rects, color: outline_color });
    }
    let mut rects: Vec<Rect> = Vec::new();
    rects.push(rect);
    assert(rects@ =~= seq![rect]);
    emit(out, DrawOp::Text { text: text.to_owned(), rects, color: text_color });
    assert(ops(out@) =~= ops(old(out)@) + row_text_ops(
        text@,
        rect,
        text_color,
        outline_color,
        outline_width,
    ));
}

/// The well, then `body`, then the frame on top so that the body cannot paint
/// over it.
pub open spec fn framed(
    rect: Rect,
    fill: u32,
    well: u32,
    chart: bool,
    body: Seq<Op>,
) -> Seq<Op> {
    seq![Op::Fill { rect, color: well }] + body + seq![
        Op::Frame { rect, color: color::shade_of(fill, color::TRACK_SHADE), chart },
    ]
}

/// How many pixels of a bar of `w` pixels a percentage fills.
pub open spec fn filled_width(w: int, percent: u32) -> int {
    layout::quot(w * min_100(percent), 100)
}

/// A percentage, clamped.
pub open spec fn min_100(percent: u32) -> int {
    if percent < 100 {
        percent as int
    } else {
        100
    }
}

/// Whether a bar stays within the machine's arithmetic.
pub open spec fn bar_fits(rect: Rect, percent: Option<u32>) -> bool {
    percent matches Some(p) ==> {
        &&& layout::fits(rect.right - rect.left)
        &&& layout::fits((rect.right - rect.left) * min_100(p))
    }
}

/// A progress bar: filled from the left, or empty if there is nothing to show.
pub open spec fn bar_ops(rect: Rect, percent: Option<u32>, fill: u32, well: u32) -> Seq<Op> {
    let body = match percent {
        Some(p) => {
            let filled = filled_width(rect.right - rect.left, p);
            if filled > 0 {
                seq![
                    Op::Fill {
                        rect: Rect { right: (rect.left + filled) as i32, ..rect },
                        color: fill,
                    },
                ]
            } else {
                Seq::empty()
            }
        },
        None => Seq::empty(),
    };
    framed(rect, fill, well, false, body)
}

/// The frame color of a meter.
fn track_color(fill: u32) -> (color: u32)
    ensures
        color == color::shade_of(fill, color::TRACK_SHADE),
{
    color::shade(fill, color::TRACK_SHADE)
}

/// Draws a progress bar.
pub fn draw_bar(out: &mut Vec<DrawOp>, rect: Rect, percent: Option<u32>, fill: u32, well: u32)
    requires
        bar_fits(rect, percent),
    ensures
        ops(final(out)@) == ops(old(out)@) + bar_ops(rect, percent, fill, well),
{
    emit(out, DrawOp::Fill { rect, color: well });
    if let Some(p) = percent {
        let w: i32 = rect.right - rect.left;
        let filled: i32 = w * p.min(100) as i32 / 100;
        if filled > 0 {
            proof {
                let m = min_100(p);
                assert(w <= 0 ==> w * m <= 0) by (nonlinear_arith)
                    requires
                        0 <= m,
                ;
                assert(w > 0);
                assert(w * m <= w * 100) by (nonlinear_arith)
                    requires
                        w > 0,
                        0 <= m <= 100,
                ;
            }
            emit(
                out,
                DrawOp::Fill {
                    rect: Rect {
                        left: rect.left,
                        top: rect.top,
                        right: rect.left + filled,
                        bottom: rect.bottom,
                    },
                    color: fill,
                },
            );
        }
    }
    emit(out, DrawOp::Frame { rect, color: track_color(fill), chart: false });
    assert(ops(out@) =~= ops(old(out)@) + bar_ops(rect, percent, fill, well));
}

/// Distance between two numbers.
pub open spec fn distance(a: int, b: int) -> int {
    if a < b {
        b - a
    } else {
        a - b
    }
}

/// Whether grid cell `a` suits a height of `h` better than `b` does: exact fit
/// first, closeness to the target second.
pub open spec fn better_cell(h: int, target: int, a: int, b: int) -> bool {
    ||| h % a < h % b
    ||| h % a == h % b && distance(a, target) < distance(b, target)
}

/// Whether `c` is the best grid cell of at most `n` pixels: as good as any, and
/// the smallest of the best.
pub open spec fn is_best_cell_up_to(h: int, target: int, n: int, c: int) -> bool {
    &&& 2 <= c <= n
    &&& forall|d: int| 2 <= d <= n ==> !(#[trigger] better_cell(h, target, d, c))
    &&& forall|d: int| 2 <= d < c ==> #[trigger] better_cell(h, target, c, d)
}

/// Whether `c` is the grid cell of a chart of height `h`: at least two pixels,
/// at least two to the height, as good as any, and the smallest of the best.
pub open spec fn is_best_cell(h: int, target: int, c: int) -> bool {
    is_best_cell_up_to(h, target, h / 2, c)
}

/// The grid cell of a chart of height `h`.
pub open spec fn best_cell(h: int, target: int) -> int {
    choose|c: int| is_best_cell(h, target, c)
}

/// There is only one best cell.
pub proof fn lemma_best_cell_is_unique(h: int, target: int, c: int)
    requires
        is_best_cell(h, target, c),
    ensures
        best_cell(h, target) == c,
{
    let d = best_cell(h, target);
    assert(is_best_cell(h, target, d));
    assert(!better_cell(h, target, d, c));
    assert(!better_cell(h, target, c, d));
}

/// The grid cell of a chart of height `h`.
pub fn grid_cell(h: i32, target: i32) -> (cell: i32)
    requires
        h >= 4,
        target >= 2,
    ensures
        is_best_cell(h as int, target as int, cell as int),
        cell == best_cell(h as int, target as int),
{
    let mut best: i32 = 2;
    let mut c: i32 = 3;
    while c <= h / 2
        invariant
            h >= 4,
            target >= 2,
            3 <= c <= h / 2 + 1,
            is_best_cell_up_to(h as int, target as int, c - 1, best as int),
        decreases h / 2 + 1 - c,
    {
        let far_c: i32 = if c < target {
            target - c
        } else {
            c - target
        };
        let far_best: i32 = if best < target {
            target - best
        } else {
            best - target
        };
        let ghost prev = best;
        if h % c < h % best || (h % c == h % best && far_c < far_best) {
            best = c;
        }
        proof {
            assert(better_cell(h as int, target as int, c as int, prev as int) == (best == c));
            assert forall|d: int| 2 <= d <= c implies !(#[trigger] better_cell(
                h as int,
                target as int,
                d,
                best as int,
            )) by {
                assert(d < c ==> !better_cell(h as int, target as int, d, prev as int));
            }
            assert forall|d: int| 2 <= d < best implies #[trigger] better_cell(
                h as int,
                target as int,
                best as int,
                d,
            ) by {
                assert(d < c ==> !better_cell(h as int, target as int, d, prev as int));
            }
        }
        c = c + 1;
    }
    proof {
        lemma_best_cell_is_unique(h as int, target as int, best as int);
    }
    best
}

/// Vertical grid lines, one every `cell` pixels from the right edge.
pub open spec fn vertical_lines(rect: Rect, cell: int, color: u32) -> Seq<Op> {
    Seq::new(
        ((rect.right - rect.left - 1) / cell) as nat,
        |k: int|
            Op::Fill {
                rect: rect_of(
                    rect.right - (k + 1) * cell,
                    rect.top as int,
                    rect.right - (k + 1) * cell + 1,
                    rect.bottom as int,
                ),
                color,
            },
    )
}

/// Horizontal grid lines, one every `cell` pixels from the bottom edge.
pub open spec fn horizontal_lines(rect: Rect, cell: int, color: u32) -> Seq<Op> {
    Seq::new(
        ((rect.bottom - rect.top - 1) / cell) as nat,
        |k: int|
            Op::Fill {
                rect: rect_of(
                    rect.left as int,
                    rect.bottom - (k + 1) * cell,
                    rect.right as int,
                    rect.bottom - (k + 1) * cell + 1,
                ),
                color,
            },
    )
}

/// Whether the sides of `rect` stay within the machine's arithmetic.
pub open spec fn sides_fit(rect: Rect) -> bool {
    &&& layout::fits(rect.right - rect.left)
    &&& layout::fits(rect.bottom - rect.top)
}

/// Faint reference lines in square cells, anchored bottom-right, on the zero
/// line and the newest sample; none if there is no room for them.
pub open spec fn grid_ops(rect: Rect, target: int, color: u32) -> Seq<Op> {
    let w = rect.right - rect.left;
    let h = rect.bottom - rect.top;
    if target < 2 || w < 4 || h < 4 {
        Seq::empty()
    } else {
        vertical_lines(rect, best_cell(h, target), color) + horizontal_lines(
            rect,
            best_cell(h, target),
            color,
        )
    }
}

/// Draws the grid of a chart. `target` is only a wish: the cell picked is the
/// one that divides the height evenly, closest to that wish, because a cell
/// that does not divide it leaves a one-pixel sliver of a row at the top. The
/// same cell then goes across.
pub fn draw_grid(out: &mut Vec<DrawOp>, rect: Rect, target: i32, color: u32)
    requires
        sides_fit(rect),
    ensures
        ops(final(out)@) == ops(old(out)@) + grid_ops(rect, target as int, color),
{
    let w: i32 = rect.right - rect.left;
    let h: i32 = rect.bottom - rect.top;
    if target < 2 || w < 4 || h < 4 {
        assert(ops(out@) =~= ops(old(out)@) + grid_ops(rect, target as int, color));
        return;
    }
    let cell: i32 = grid_cell(h, target);
    let ghost before = ops(out@);

    let columns: i32 = (w - 1) / cell;
    let ghost vertical = vertical_lines(rect, cell as int, color);
    assert(vertical.take(0) =~= Seq::empty());
    let mut x: i32 = rect.right;
    let mut k: i32 = 0;
    while k < columns
        invariant
            cell >= 2,
            w >= 4,
            w == rect.right - rect.left,
            columns == (w - 1) / (cell as int),
            0 <= k <= columns,
            x == rect.right - k * cell,
            vertical == vertical_lines(rect, cell as int, color),
            vertical.len() == columns,
            ops(out@) == before + vertical.take(k as int),
        decreases columns - k,
    {
        proof {
            lemma_line_is_inside(w as int, cell as int, k as int);
        }
        x = x - cell;
        emit(
            out,
            DrawOp::Fill {
                rect: Rect { left: x, top: rect.top, right: x + 1, bottom: rect.bottom },
                color,
            },
        );
        proof {
            assert(vertical.take(k + 1) =~= vertical.take(k as int).push(vertical[k as int]));
        }
        k = k + 1;
    }
    assert(vertical.take(columns as int) =~= vertical);

    let rows: i32 = (h - 1) / cell;
    let ghost horizontal = horizontal_lines(rect, cell as int, color);
    let ghost middle = ops(out@);
    assert(horizontal.take(0) =~= Seq::empty());
    let mut y: i32 = rect.bottom;
    let mut j: i32 = 0;
    while j < rows
        invariant
            cell >= 2,
            h >= 4,
            h == rect.bottom - rect.top,
            rows == (h - 1) / (cell as int),
            0 <= j <= rows,
            y == rect.bottom - j * cell,
            horizontal == horizontal_lines(rect, cell as int, color),
            horizontal.len() == rows,
            ops(out@) == middle + horizontal.take(j as int),
        decreases rows - j,
    {
        proof {
            lemma_line_is_inside(h as int, cell as int, j as int);
        }
        y = y - cell;
        emit(
            out,
            DrawOp::Fill {
                rect: Rect { left: rect.left, top: y, right: rect.right, bottom: y + 1 },
                color,
            },
        );
        proof {
            assert(horizontal.take(j + 1) =~= horizontal.take(j as int).push(
                horizontal[j as int],
            ));
        }
        j = j + 1;
    }
    assert(horizontal.take(rows as int) =~= horizontal);
    assert(ops(out@) =~= ops(old(out)@) + grid_ops(rect, target as int, color));
}

proof fn lemma_line_is_inside(size: int, cell: int, k: int)
    requires
        cell >= 2,
        size >= 1,
        0 <= k < (size - 1) / cell,
    ensures
        0 <= k * cell < (k + 1) * cell <= size - 1,
        (k + 1) * cell == k * cell + cell,
{
    let n = (size - 1) / cell;
    assert(n * cell <= size - 1) by {
        vstd::arithmetic::div_mod::lemma_fundamental_div_mod(size - 1, cell);
        assert(cell * n == n * cell) by (nonlinear_arith);
    }
    assert((k + 1) * cell <= n * cell && 0 <= k * cell && (k + 1) * cell == k * cell + cell)
        by (nonlinear_arith)
        requires
            0 <= k < n,
            cell >= 2,
    ;
}

/// Whether a chart has enough samples and room to draw an area.
pub open spec fn graph_is_drawn(rect: Rect, samples: int, capacity: usize) -> bool {
    &&& samples >= 2
    &&& capacity >= 2
    &&& rect.right - rect.left > 1
    &&& rect.bottom - rect.top > 0
}

/// Pixels between the newest sample and the one `from_right` samples older.
pub open spec fn steps_left(rect: Rect, from_right: int, capacity: usize) -> int {
    layout::quot((from_right as i32) * (rect.right - rect.left), (capacity as i32) - 1)
}

/// Where a sample goes: the newest sits on the right edge and older ones step
/// left by a fixed slot, so a half-full history scrolls in instead of
/// stretching to fill the width.
pub open spec fn sample_point(rect: Rect, percent: u32, from_right: int, capacity: usize) -> Point {
    Point {
        x: layout::max(
            rect.right - steps_left(rect, from_right, capacity),
            rect.left as int,
        ) as i32,
        y: (rect.bottom - layout::quot(
            min_100(percent) * (rect.bottom - rect.top),
            100,
        )) as i32,
    }
}

/// The samples of a history, oldest first.
pub open spec fn sample_points(rect: Rect, history: Seq<u32>, capacity: usize) -> Seq<Point> {
    Seq::new(
        history.len(),
        |i: int| sample_point(rect, history[i], history.len() - 1 - i, capacity),
    )
}

/// The samples of a history, closed along the bottom edge.
pub open spec fn area_points(rect: Rect, history: Seq<u32>, capacity: usize) -> Seq<Point> {
    let points = sample_points(rect, history, capacity);
    points + seq![
        Point { x: points.last().x, y: rect.bottom },
        Point { x: points[0].x, y: rect.bottom },
    ]
}

/// Whether one sample stays within the machine's arithmetic.
pub open spec fn sample_fits(rect: Rect, percent: u32, from_right: int, capacity: usize) -> bool {
    &&& layout::fits((from_right as i32) * (rect.right - rect.left))
    &&& layout::fits(steps_left(rect, from_right, capacity))
    &&& layout::fits(rect.right - steps_left(rect, from_right, capacity))
    &&& layout::fits(min_100(percent) * (rect.bottom - rect.top))
}

/// Whether a chart stays within the machine's arithmetic.
pub open spec fn graph_fits(rect: Rect, history: Seq<u32>, capacity: usize) -> bool {
    &&& sides_fit(rect)
    &&& graph_is_drawn(rect, history.len() as int, capacity) ==> {
        &&& (capacity as i32) > i32::MIN
        &&& (capacity as i32) != 1
        &&& forall|i: int|
            0 <= i < history.len() ==> sample_fits(
                rect,
                #[trigger] history[i],
                history.len() - 1 - i,
                capacity,
            )
    }
}

/// A load history as a filled area over a grid.
pub open spec fn graph_ops(
    rect: Rect,
    history: Seq<u32>,
    capacity: usize,
    fill: u32,
    well: u32,
    grid_target: int,
) -> Seq<Op> {
    let grid = grid_ops(rect, grid_target, color::shade_of(fill, color::GRID_SHADE));
    let area = if graph_is_drawn(rect, history.len() as int, capacity) {
        seq![Op::Polygon { points: area_points(rect, history, capacity), color: fill }]
    } else {
        Seq::empty()
    };
    framed(rect, fill, well, true, grid + area)
}

proof fn lemma_height_share(percent: int, h: int)
    requires
        0 <= percent <= 100,
        0 <= h,
    ensures
        0 <= layout::quot(percent * h, 100) <= h,
{
    assert(0 <= percent * h <= 100 * h) by (nonlinear_arith)
        requires
            0 <= percent <= 100,
            0 <= h,
    ;
}

/// Draws a load history.
pub fn draw_graph(
    out: &mut Vec<DrawOp>,
    rect: Rect,
    history: &Vec<u32>,
    capacity: usize,
    fill: u32,
    well: u32,
    grid_target: i32,
)
    requires
        graph_fits(rect, history@, capacity),
    ensures
        ops(final(out)@) == ops(old(out)@) + graph_ops(
            rect,
            history@,
            capacity,
            fill,
            well,
            grid_target as int,
        ),
{
    emit(out, DrawOp::Fill { rect, color: well });
    draw_grid(out, rect, grid_target, color::shade(fill, color::GRID_SHADE));
    let w: i32 = rect.right - rect.left;
    let h: i32 = rect.bottom - rect.top;
    if history.len() >= 2 && capacity >= 2 && w > 1 && h > 0 {
        let last: usize = history.len() - 1;
        let slots: i32 = capacity as i32 - 1;
        let mut points: Vec<Point> = Vec::new();
        let ghost all = sample_points(rect, history@, capacity);
        let mut i: usize = 0;
        while i < history.len()
            invariant
                i <= history@.len(),
                last == history@.len() - 1,
                w == rect.right - rect.left,
                h == rect.bottom - rect.top,
                h > 0,
                slots == (capacity as i32) - 1,
                slots != 0,
                forall|j: int|
                    0 <= j < history@.len() ==> sample_fits(
                        rect,
                        #[trigger] history@[j],
                        history@.len() - 1 - j,
                        capacity,
                    ),
                all == sample_points(rect, history@, capacity),
                points@ == all.take(i as int),
            decreases history@.len() - i,
        {
            let percent: u32 = history[i];
            assert(sample_fits(rect, history@[i as int], history@.len() - 1 - i, capacity));
            let x: i32 = (rect.right - layout::divide((last - i) as i32 * w, slots)).max(rect.left);
            proof {
                lemma_height_share(min_100(percent), h as int);
            }
            let y: i32 = rect.bottom - percent.min(100) as i32 * h / 100;
            points.push(Point { x, y });
            assert(all.take(i + 1) =~= all.take(i as int).push(all[i as int]));
            i = i + 1;
        }
        assert(all.take(history@.len() as int) =~= all);
        let newest: i32 = points[last].x;
        let oldest: i32 = points[0].x;
        points.push(Point { x: newest, y: rect.bottom });
        points.push(Point { x: oldest, y: rect.bottom });
        assert(points@ =~= area_points(rect, history@, capacity));
        emit(out, DrawOp::Polygon { points, color: fill });
    }
    emit(out, DrawOp::Frame { rect, color: track_color(fill), chart: true });
    assert(ops(out@) =~= ops(old(out)@) + graph_ops(
        rect,
        history@,
        capacity,
        fill,
        well,
        grid_target as int,
    ));
}

/// Whether an outline stays within 32-bit coordinates.
pub fn can_outline(rect: Rect, outline_width: u32) -> (b: bool)
    ensures
        b == outline_fits(rect, outline_width),
{
    let w: i32 = outline_width as i32;
    if w == i32::MIN {
        return false;
    }
    if w <= 0 {
        return true;
    }
    let low: i32 = i32::MIN + w;
    let high: i32 = i32::MAX - w;
    low <= rect.left && rect.left <= high && low <= rect.top && rect.top <= high && low
        <= rect.right && rect.right <= high && low <= rect.bottom && rect.bottom <= high
}

/// Whether a bar stays within the machine's arithmetic.
pub fn can_draw_bar(rect: Rect, percent: Option<u32>) -> (b: bool)
    ensures
        b == bar_fits(rect, percent),
{
    match percent {
        None => true,
        Some(p) => {
            let w: i64 = rect.right as i64 - rect.left as i64;
            layout::in_range(w) && layout::in_range(
                layout::wide_product(w as i32, p.min(100) as i32),
            )
        },
    }
}

/// Whether a chart stays within the machine's arithmetic.
pub fn can_draw_graph(rect: Rect, history: &Vec<u32>, capacity: usize) -> (b: bool)
    ensures
        b == graph_fits(rect, history@, capacity),
{
    let w: i64 = rect.right as i64 - rect.left as i64;
    let h: i64 = rect.bottom as i64 - rect.top as i64;
    if !layout::in_range(w) || !layout::in_range(h) {
        return false;
    }
    if history.len() < 2 || capacity < 2 || w <= 1 || h <= 0 {
        return true;
    }
    if capacity as i32 == i32::MIN || capacity as i32 == 1 {
        return false;
    }
    let slots: i64 = capacity as i32 as i64 - 1;
    let mut i: usize = 0;
    while i < history.len()
        invariant
            i <= history@.len(),
            w == rect.right - rect.left,
            h == rect.bottom - rect.top,
            sides_fit(rect),
            graph_is_drawn(rect, history@.len() as int, capacity),
            (capacity as i32) > i32::MIN,
            (capacity as i32) != 1,
            slots == (capacity as i32) - 1,
            forall|j: int|
                0 <= j < i ==> sample_fits(
                    rect,
                    #[trigger] history@[j],
                    history@.len() - 1 - j,
                    capacity,
                ),
        decreases history@.len() - i,
    {
        let product: i64 = layout::wide_product((history.len() - 1 - i) as i32, w as i32);
        if !layout::in_range(product) {
            assert(!sample_fits(rect, history@[i as int], history@.len() - 1 - i, capacity));
            return false;
        }
        let steps: i64 = layout::wide_quot(product, slots);
        let fits: bool = layout::in_range(steps) && layout::in_range(
            rect.right as i64 - steps,
        ) && layout::in_range(layout::wide_product(history[i].min(100) as i32, h as i32));
        assert(fits == sample_fits(
            rect,
            history@[i as int],
            history@.len() - 1 - i,
            capacity,
        ));
        if !fits {
            return false;
        }
        i = i + 1;
    }
    true
}

/// A text with an outline of `w` pixels is drawn at every offset of a box of
/// `2w + 1` pixels a side, the text itself being the one in the middle.
pub proof fn law_outline_is_a_full_box(rect: Rect, w: int)
    requires
        w >= 0,
    ensures
        outline_rects(rect, w).len() + 1 == (2 * w + 1) * (2 * w + 1),
        forall|dx: int, dy: int|
            -w <= dx <= w && -w <= dy <= w && !(dx == 0 && dy == 0) ==> outline_rects(
                rect,
                w,
            ).contains(#[trigger] shifted(rect, dx, dy)),
{
    if w > 0 {
        lemma_box_index(w, 0, 0);
        let side = 2 * w + 1;
        let all = offset_box(rect, w);
        let centre = w * side + w;
        assert forall|dx: int, dy: int|
            -w <= dx <= w && -w <= dy <= w && !(dx == 0 && dy == 0) implies outline_rects(
            rect,
            w,
        ).contains(#[trigger] shifted(rect, dx, dy)) by {
            lemma_box_index(w, dx, dy);
            let k = (dx + w) * side + (dy + w);
            assert(all[k] == shifted(rect, dx, dy));
            if k < centre {
                assert(all.remove(centre)[k] == all[k]);
            } else {
                assert(k != centre);
                assert(all.remove(centre)[k - 1] == all[k]);
            }
        }
    } else {
        assert((2 * w + 1) * (2 * w + 1) == 1) by (nonlinear_arith)
            requires
                w == 0,
        ;
    }
}

/// A bar is empty at nothing and full at a hundred percent, and a higher
/// percentage never fills less of it.
pub proof fn law_bar_fills_with_the_percentage(w: int, p: u32, q: u32)
    requires
        w >= 0,
        p <= q,
    ensures
        0 <= filled_width(w, p) <= filled_width(w, q) <= w,
        filled_width(w, 0) == 0,
        q >= 100 ==> filled_width(w, q) == w,
{
    let (a, b) = (min_100(p), min_100(q));
    assert(0 <= w * a <= w * b <= w * 100) by (nonlinear_arith)
        requires
            0 <= w,
            0 <= a <= b <= 100,
    ;
    assert(w * 0 == 0) by (nonlinear_arith);
}

/// If some cell divides the height of a chart, the one picked does, and none
/// that divides it is closer to the target.
pub proof fn law_grid_cell_divides_the_height_when_one_can(h: int, target: int, c: int, d: int)
    requires
        is_best_cell(h, target, c),
        2 <= d <= h / 2,
        h % d == 0,
    ensures
        h % c == 0,
        distance(c, target) <= distance(d, target),
{
    assert(!better_cell(h, target, d, c));
}

/// Every chart that is at least four pixels high has a grid cell.
pub proof fn law_there_is_a_grid_cell(h: int, target: int)
    requires
        h >= 4,
    ensures
        is_best_cell(h, target, best_cell(h, target)),
{
    let n = h / 2;
    lemma_best_cell_up_to(h, target, n);
    let c = choose|c: int| is_best_cell_up_to(h, target, n, c);
    assert(is_best_cell(h, target, c));
}

proof fn lemma_best_cell_up_to(h: int, target: int, n: int)
    requires
        2 <= n <= h / 2,
    ensures
        exists|c: int| is_best_cell_up_to(h, target, n, c),
    decreases n,
{
    if n == 2 {
        assert(is_best_cell_up_to(h, target, n, 2));
    } else {
        lemma_best_cell_up_to(h, target, n - 1);
        let m = n - 1;
        let c = choose|c: int| is_best_cell_up_to(h, target, m, c);
        assert(is_best_cell_up_to(h, target, m, c));
        if better_cell(h, target, n, c) {
            assert forall|d: int| 2 <= d <= n implies !(#[trigger] better_cell(
                h,
                target,
                d,
                n,
            )) by {
                assert(d < n ==> !better_cell(h, target, d, c));
            }
            assert forall|d: int| 2 <= d < n implies #[trigger] better_cell(h, target, n, d) by {
                assert(!better_cell(h, target, d, c));
            }
            assert(is_best_cell_up_to(h, target, n, n));
        } else {
            assert(is_best_cell_up_to(h, target, n, c));
        }
    }
}

/// The newest sample of a chart is on its right edge; once the history is as
/// long as the chart is scaled for, the oldest is on its left edge.
pub proof fn law_samples_span_the_chart(rect: Rect, history: Seq<u32>, capacity: usize)
    requires
        graph_fits(rect, history, capacity),
        graph_is_drawn(rect, history.len() as int, capacity),
        capacity <= i32::MAX,
    ensures
        sample_points(rect, history, capacity).last().x == rect.right,
        history.len() == capacity ==> sample_points(rect, history, capacity)[0].x == rect.left,
{
    let w = rect.right - rect.left;
    assert(0 * w == 0);
    assert(sample_fits(rect, history[0], history.len() - 1, capacity));
    if history.len() == capacity {
        assert(((capacity - 1) * w) / (capacity - 1) == w) by {
            vstd::arithmetic::div_mod::lemma_div_multiples_vanish(w, capacity - 1);
            assert((capacity - 1) * w == w * (capacity - 1)) by (nonlinear_arith);
        }
        assert((capacity - 1) * w >= 0) by (nonlinear_arith)
            requires
                capacity >= 2,
                w > 1,
        ;
    }
}

/// Every sample is drawn inside its chart, higher loads higher up.
pub proof fn law_samples_stay_inside_the_chart(
    rect: Rect,
    percent: u32,
    from_right: int,
    capacity: usize,
)
    requires
        rect.left < rect.right,
        rect.top < rect.bottom,
        2 <= capacity <= i32::MAX,
        0 <= from_right <= i32::MAX,
    ensures
        ({
            let p = sample_point(rect, percent, from_right, capacity);
            &&& rect.left <= p.x <= rect.right
            &&& rect.top <= p.y <= rect.bottom
            &&& percent == 0 ==> p.y == rect.bottom
            &&& percent >= 100 ==> p.y == rect.top
        }),
{
    let (w, h) = (rect.right - rect.left, rect.bottom - rect.top);
    lemma_height_share(min_100(percent), h);
    assert(0 * h == 0);
    assert(from_right * w >= 0) by (nonlinear_arith)
        requires
            from_right >= 0,
            w > 0,
    ;
    assert(from_right * w / (capacity - 1) >= 0) by {
        vstd::arithmetic::div_mod::lemma_div_pos_is_pos(from_right * w, capacity - 1);
    }
}

/// A sample only ever moves left, and stays at its height, as newer ones come in.
pub proof fn law_older_samples_are_further_left(
    rect: Rect,
    percent: u32,
    newer: int,
    older: int,
    capacity: usize,
)
    requires
        rect.left < rect.right,
        2 <= capacity <= i32::MAX,
        0 <= newer <= older <= i32::MAX,
    ensures
        sample_point(rect, percent, older, capacity).x <= sample_point(
            rect,
            percent,
            newer,
            capacity,
        ).x,
        sample_point(rect, percent, older, capacity).y == sample_point(
            rect,
            percent,
            newer,
            capacity,
        ).y,
{
    let w = rect.right - rect.left;
    assert(0 <= newer * w <= older * w) by (nonlinear_arith)
        requires
            0 <= newer <= older,
            w > 0,
    ;
    vstd::arithmetic::div_mod::lemma_div_is_ordered(newer * w, older * w, capacity - 1);
    vstd::arithmetic::div_mod::lemma_div_pos_is_pos(newer * w, capacity - 1);
}

/// Grid lines stay strictly inside their chart, and if the cell divides the
/// height, the topmost line is a whole cell below the top: there is no sliver.
pub proof fn law_grid_leaves_no_sliver(rect: Rect, cell: int, color: u32, k: int)
    requires
        cell >= 2,
        rect.top < rect.bottom,
        rect.bottom - rect.top <= i32::MAX,
        0 <= k < horizontal_lines(rect, cell, color).len(),
    ensures
        horizontal_lines(rect, cell, color)[k] matches Op::Fill { rect: line, .. } && rect.top
            < line.top < rect.bottom && line.bottom == line.top + 1,
        k == horizontal_lines(rect, cell, color).len() - 1 && (rect.bottom - rect.top) % cell == 0
            ==> horizontal_lines(rect, cell, color)[k]->Fill_rect.top == rect.top + cell,
{
    let h = rect.bottom - rect.top;
    lemma_line_is_inside(h, cell, k);
    if k == horizontal_lines(rect, cell, color).len() - 1 && h % cell == 0 {
        let m = h / cell;
        vstd::arithmetic::div_mod::lemma_fundamental_div_mod(h, cell);
        assert(h - 1 == (m - 1) * cell + (cell - 1)) by (nonlinear_arith)
            requires
                h == cell * m,
        ;
        vstd::arithmetic::div_mod::lemma_fundamental_div_mod_converse(
            h - 1,
            cell,
            m - 1,
            cell - 1,
        );
        assert((k + 1) * cell == h - cell) by (nonlinear_arith)
            requires
                k + 1 == m - 1,
                h == cell * m,
        ;
    }
}

/// A text is drawn once, in its own color, at its own place, and on top of its
/// outline; the outline is the same text in the outline's color, and is there
/// exactly if it has a width.
pub proof fn law_texts_are_drawn_over_their_outline(
    text: Seq<char>,
    rect: Rect,
    text_color: u32,
    outline_color: u32,
    outline_width: u32,
)
    ensures
        ({
            let drawn = row_text_ops(text, rect, text_color, outline_color, outline_width);
            &&& drawn.len() == if outline_width == 0 {
                1nat
            } else {
                2nat
            }
            &&& drawn.last() == Op::Text { text, rects: seq![rect], color: text_color }
            &&& outline_width > 0 ==> {
                &&& drawn[0] matches Op::Text { text: t, rects, color }
                &&& t == text
                &&& color == outline_color
                &&& rects == outline_rects(rect, (outline_width as i32) as int)
            }
        }),
{
}

/// An outline of `w` pixels is the text moved by up to `w` pixels on either
/// axis, each move once, but for no move at all.
pub proof fn law_outlines_surround_the_text(rect: Rect, w: int)
    requires
        w >= 0,
    ensures
        outline_rects(rect, w).len() + 1 == (2 * w + 1) * (2 * w + 1),
        forall|dx: int, dy: int|
            -w <= dx <= w && -w <= dy <= w && !(dx == 0 && dy == 0) ==> outline_rects(
                rect,
                w,
            ).contains(
                #[trigger] rect_of(rect.left + dx, rect.top + dy, rect.right + dx, rect.bottom + dy),
            ),
{
    law_outline_is_a_full_box(rect, w);
    assert forall|dx: int, dy: int|
        -w <= dx <= w && -w <= dy <= w && !(dx == 0 && dy == 0) implies outline_rects(
        rect,
        w,
    ).contains(
        #[trigger] rect_of(rect.left + dx, rect.top + dy, rect.right + dx, rect.bottom + dy),
    ) by {
        assert(outline_rects(rect, w).contains(shifted(rect, dx, dy)));
    }
}

/// A rectangle keeps its four sides.
pub proof fn law_rectangles_keep_their_sides(left: int, top: int, right: int, bottom: int)
    requires
        layout::fits(left),
        layout::fits(top),
        layout::fits(right),
        layout::fits(bottom),
    ensures
        rect_of(left, top, right, bottom).left == left,
        rect_of(left, top, right, bottom).top == top,
        rect_of(left, top, right, bottom).right == right,
        rect_of(left, top, right, bottom).bottom == bottom,
{
}

/// A bar is its well, the filled part and the frame, in this order. The filled
/// part is as high as the bar, starts on its left edge, has its color, and is
/// as wide as the percentage, a hundred at most, says, rounded down; with no
/// whole pixel to fill, or no percentage, there is none.
pub proof fn law_bars_are_filled_from_the_left(rect: Rect, p: u32, fill: u32, well: u32)
    requires
        rect.left <= rect.right,
        rect.right - rect.left <= i32::MAX,
    ensures
        ({
            let w = rect.right - rect.left;
            let share = w * if p > 100 {
                100
            } else {
                p as int
            };
            let drawn = bar_ops(rect, Some(p), fill, well);
            let empty = bar_ops(rect, None, fill, well);
            let frame = Op::Frame { rect, color: color::shade_of(fill, 5), chart: false };
            &&& drawn[0] == Op::Fill { rect, color: well }
            &&& drawn.last() == frame
            &&& drawn.len() == if share >= 100 {
                3nat
            } else {
                2nat
            }
            &&& share >= 100 ==> {
                &&& drawn[1] matches Op::Fill { rect: part, color }
                &&& color == fill
                &&& part.left == rect.left
                &&& part.top == rect.top
                &&& part.bottom == rect.bottom
                &&& 100 * (part.right - rect.left) <= share < 100 * (part.right - rect.left) + 100
            }
            &&& empty.len() == 2
            &&& empty[0] == Op::Fill { rect, color: well }
            &&& empty[1] == frame
        }),
{
    let w = rect.right - rect.left;
    let m = min_100(p);
    assert(0 <= w * m <= w * 100) by (nonlinear_arith)
        requires
            0 <= w,
            0 <= m <= 100,
    ;
}

/// A chart is its well, the grid, the area and the frame, in this order. Grid
/// and frame are shades of its color and the area has it; there is an area as
/// soon as there are two samples and room for them.
pub proof fn law_charts_are_drawn_in_layers(
    rect: Rect,
    history: Seq<u32>,
    capacity: usize,
    fill: u32,
    well: u32,
    grid_target: int,
)
    ensures
        ({
            let drawn = graph_ops(rect, history, capacity, fill, well, grid_target);
            let grid = grid_ops(rect, grid_target, color::shade_of(fill, 7));
            let area = history.len() > 1 && capacity > 1 && rect.right > rect.left + 1
                && rect.bottom > rect.top;
            &&& drawn.len() == grid.len() + if area {
                3nat
            } else {
                2nat
            }
            &&& drawn[0] == Op::Fill { rect, color: well }
            &&& drawn.subrange(1, grid.len() as int + 1) == grid
            &&& drawn.last() == Op::Frame { rect, color: color::shade_of(fill, 5), chart: true }
            &&& area ==> drawn[drawn.len() - 2] == Op::Polygon {
                points: area_points(rect, history, capacity),
                color: fill,
            }
        }),
{
    let drawn = graph_ops(rect, history, capacity, fill, well, grid_target);
    let grid = grid_ops(rect, grid_target, color::shade_of(fill, 7));
    assert(drawn.subrange(1, grid.len() as int + 1) =~= grid);
}

/// The grid cell leaves as little of the height over as any cell of two pixels
/// to half the height; among those it is closest to the target, and among the
/// closest it is the smaller one.
pub proof fn law_grid_cell_is_the_best_there_is(h: int, target: int, d: int)
    requires
        h >= 4,
        2 <= d,
        2 * d <= h,
    ensures
        ({
            let c = best_cell(h, target);
            let far_c = if c > target {
                c - target
            } else {
                target - c
            };
            let far_d = if d > target {
                d - target
            } else {
                target - d
            };
            &&& 2 <= c
            &&& 2 * c <= h
            &&& h % c <= h % d
            &&& h % c == h % d ==> far_c <= far_d
            &&& h % c == h % d && far_c == far_d ==> c <= d
        }),
{
    law_there_is_a_grid_cell(h, target);
    let c = best_cell(h, target);
    assert(!better_cell(h, target, d, c));
    if d < c {
        assert(better_cell(h, target, c, d));
    }
}

/// Whether `op` fills a column of one pixel at `x`, as high as `rect`.
pub open spec fn is_column(op: Op, rect: Rect, x: int, color: u32) -> bool {
    op matches Op::Fill { rect: line, color: c } && c == color && line.left == x && line.right == x
        + 1 && line.top == rect.top && line.bottom == rect.bottom
}

/// Whether `op` fills a row of one pixel at `y`, as wide as `rect`.
pub open spec fn is_row(op: Op, rect: Rect, y: int, color: u32) -> bool {
    op matches Op::Fill { rect: line, color: c } && c == color && line.top == y && line.bottom == y
        + 1 && line.left == rect.left && line.right == rect.right
}

/// The grid has a line wherever a whole number of cells fits between it and the
/// right edge, or the bottom edge, strictly inside the chart.
pub proof fn law_grid_lines_are_a_cell_apart(rect: Rect, target: int, color: u32, x: int, y: int)
    requires
        target >= 2,
        4 <= rect.right - rect.left <= i32::MAX,
        4 <= rect.bottom - rect.top <= i32::MAX,
    ensures
        ({
            let cell = best_cell(rect.bottom - rect.top, target);
            let grid = grid_ops(rect, target, color);
            &&& rect.left < x < rect.right && (rect.right - x) % cell == 0 ==> exists|j: int|
                0 <= j < grid.len() && #[trigger] is_column(grid[j], rect, x, color)
            &&& rect.top < y < rect.bottom && (rect.bottom - y) % cell == 0 ==> exists|j: int|
                0 <= j < grid.len() && #[trigger] is_row(grid[j], rect, y, color)
        }),
{
    let (w, h) = (rect.right - rect.left, rect.bottom - rect.top);
    let cell = best_cell(h, target);
    let grid = grid_ops(rect, target, color);
    law_there_is_a_grid_cell(h, target);
    let columns = vertical_lines(rect, cell, color);
    let rows = horizontal_lines(rect, cell, color);
    assert(grid == columns + rows);
    assert((w - 1) / cell >= 0 && (h - 1) / cell >= 0) by {
        vstd::arithmetic::div_mod::lemma_div_pos_is_pos(w - 1, cell);
        vstd::arithmetic::div_mod::lemma_div_pos_is_pos(h - 1, cell);
    }
    if rect.left < x < rect.right && (rect.right - x) % cell == 0 {
        let k = (rect.right - x) / cell - 1;
        lemma_whole_cells(w, cell, rect.right - x);
        assert(grid[k] == columns[k]);
        assert(is_column(grid[k], rect, x, color));
    }
    if rect.top < y < rect.bottom && (rect.bottom - y) % cell == 0 {
        let k = (rect.bottom - y) / cell - 1;
        lemma_whole_cells(h, cell, rect.bottom - y);
        let j = columns.len() + k;
        assert(grid[j] == rows[k]);
        assert(is_row(grid[j], rect, y, color));
    }
}

proof fn lemma_whole_cells(size: int, cell: int, d: int)
    requires
        cell >= 2,
        0 < d < size,
        d % cell == 0,
    ensures
        0 <= d / cell - 1 < (size - 1) / cell,
        (d / cell - 1 + 1) * cell == d,
{
    let q = d / cell;
    vstd::arithmetic::div_mod::lemma_fundamental_div_mod(d, cell);
    assert(q * cell == d) by (nonlinear_arith)
        requires
            d == cell * q,
    ;
    assert(q >= 1) by (nonlinear_arith)
        requires
            d == cell * q,
            d > 0,
            cell >= 2,
    ;
    vstd::arithmetic::div_mod::lemma_div_is_ordered(d, size - 1, cell);
}

/// The grid has no other lines: each is one of these, and there are none at all
/// in a chart that is too small for them.
pub proof fn law_grid_has_no_other_lines(rect: Rect, target: int, color: u32, j: int)
    requires
        rect.right - rect.left <= i32::MAX,
        rect.bottom - rect.top <= i32::MAX,
    ensures
        ({
            let cell = best_cell(rect.bottom - rect.top, target);
            let grid = grid_ops(rect, target, color);
            &&& grid.len() > 0 <==> target >= 2 && rect.right - rect.left >= 4 && rect.bottom
                - rect.top >= 4
            &&& 0 <= j < grid.len() ==> {
                ||| exists|x: int|
                    rect.left < x < rect.right && (rect.right - x) % cell == 0
                        && #[trigger] is_column(grid[j], rect, x, color)
                ||| exists|y: int|
                    rect.top < y < rect.bottom && (rect.bottom - y) % cell == 0
                        && #[trigger] is_row(grid[j], rect, y, color)
            }
        }),
{
    let (w, h) = (rect.right - rect.left, rect.bottom - rect.top);
    let cell = best_cell(h, target);
    let grid = grid_ops(rect, target, color);
    if target >= 2 && w >= 4 && h >= 4 {
        law_there_is_a_grid_cell(h, target);
        let columns = vertical_lines(rect, cell, color);
        let rows = horizontal_lines(rect, cell, color);
        assert(grid == columns + rows);
        assert((h - 1) / cell >= 1) by {
            assert(h - 1 >= cell);
            vstd::arithmetic::div_mod::lemma_div_is_ordered(cell, h - 1, cell);
            assert(cell / cell == 1) by {
                vstd::arithmetic::div_mod::lemma_div_by_self(cell);
            }
        }
        assert((w - 1) / cell >= 0) by {
            vstd::arithmetic::div_mod::lemma_div_pos_is_pos(w - 1, cell);
        }
        if 0 <= j < columns.len() {
            lemma_line_is_inside(w, cell, j);
            lemma_multiple(j + 1, cell);
            let x = rect.right - (j + 1) * cell;
            assert(grid[j] == columns[j]);
            assert(is_column(grid[j], rect, x, color));
        } else if columns.len() <= j < grid.len() {
            let k = j - columns.len();
            lemma_line_is_inside(h, cell, k);
            lemma_multiple(k + 1, cell);
            let y = rect.bottom - (k + 1) * cell;
            assert(grid[j] == rows[k]);
            assert(is_row(grid[j], rect, y, color));
        }
    }
}

proof fn lemma_multiple(n: int, cell: int)
    requires
        cell > 0,
    ensures
        (n * cell) % cell == 0,
{
    vstd::arithmetic::div_mod::lemma_mod_multiples_basic(n, cell);
}

/// A sample stands as high above the bottom of its chart as its percentage, a
/// hundred at most, of the chart's height, and as far from the right edge as
/// its age of the chart's width, both rounded down; past the left edge it stays
/// on it.
pub proof fn law_samples_are_drawn_in_proportion(
    rect: Rect,
    percent: u32,
    from_right: int,
    capacity: usize,
)
    requires
        rect.left < rect.right,
        rect.top < rect.bottom,
        2 <= capacity <= i32::MAX,
        0 <= from_right <= i32::MAX,
    ensures
        ({
            let p = sample_point(rect, percent, from_right, capacity);
            let (w, h) = (rect.right - rect.left, rect.bottom - rect.top);
            let (up, back) = (rect.bottom - p.y, rect.right - p.x);
            let share = h * if percent > 100 {
                100
            } else {
                percent as int
            };
            let slots = capacity - 1;
            &&& 100 * up <= share < 100 * up + 100
            &&& from_right <= slots ==> slots * back <= from_right * w < slots * back + slots
            &&& from_right >= slots ==> p.x == rect.left
        }),
{
    let (w, h) = (rect.right - rect.left, rect.bottom - rect.top);
    let m = min_100(percent);
    let slots = capacity - 1;
    lemma_height_share(m, h);
    assert(m * h == h * m) by (nonlinear_arith);
    let total = from_right * w;
    assert(total >= 0) by (nonlinear_arith)
        requires
            from_right >= 0,
            w > 0,
            total == from_right * w,
    ;
    let steps = total / slots;
    vstd::arithmetic::div_mod::lemma_fundamental_div_mod(total, slots);
    vstd::arithmetic::div_mod::lemma_mod_bound(total, slots);
    assert(steps_left(rect, from_right, capacity) == steps);
    assert(steps >= 0) by {
        vstd::arithmetic::div_mod::lemma_div_pos_is_pos(total, slots);
    }
    if from_right <= slots {
        assert(steps <= w) by (nonlinear_arith)
            requires
                slots * steps <= from_right * w,
                from_right <= slots,
                slots > 0,
                w > 0,
        ;
    }
    if from_right >= slots {
        assert(steps >= w) by (nonlinear_arith)
            requires
                from_right * w < slots * steps + slots,
                from_right >= slots,
                slots > 0,
                w > 0,
        ;
    }
}

/// The area of a chart has a corner for each sample, the oldest first and the
/// newest last, and is closed along the bottom edge right under its ends.
pub proof fn law_areas_are_closed_along_the_bottom(
    rect: Rect,
    history: Seq<u32>,
    capacity: usize,
    i: int,
)
    requires
        0 <= i < history.len(),
    ensures
        ({
            let n = history.len() as int;
            let area = area_points(rect, history, capacity);
            &&& area.len() == n + 2
            &&& area[i] == sample_point(rect, history[i], n - 1 - i, capacity)
            &&& area[n].x == area[n - 1].x && area[n].y == rect.bottom
            &&& area[n + 1].x == area[0].x && area[n + 1].y == rect.bottom
        }),
{
}

/// A command says what it holds, and a list of commands what its commands say
/// in order.
pub proof fn law_commands_say_what_they_hold(list: Seq<DrawOp>, i: int)
    requires
        0 <= i < list.len(),
    ensures
        ops(list).len() == list.len(),
        list[i] matches DrawOp::Fill { rect, color } ==> ops(list)[i] == (Op::Fill { rect, color }),
        list[i] matches DrawOp::Frame { rect, color, chart } ==> ops(list)[i] == (Op::Frame {
            rect,
            color,
            chart,
        }),
        list[i] matches DrawOp::Text { text, rects, color } ==> ops(list)[i] == (Op::Text {
            text: text@,
            rects: rects@,
            color,
        }),
        list[i] matches DrawOp::Polygon { points, color } ==> ops(list)[i] == (Op::Polygon {
            points: points@,
            color,
        }),
{
}

} // verus!
