//! The finished picture: which parts of it are opaque.

use vstd::prelude::*;

use crate::color;
use crate::config::Config;
use crate::draw;
use crate::draw::{DrawOp, Op, Rect};
use crate::render;
use crate::render::{Canvas, RowModel};

verus! {

/// Whether a command is the frame of a chart.
pub open spec fn is_chart_frame(op: Op) -> bool {
    op matches Op::Frame { chart, .. } && chart
}

/// The charts of a picture: whatever has the frame of one.
pub open spec fn charts(ops: Seq<Op>) -> Seq<Rect>
    decreases ops.len(),
{
    if ops.len() == 0 {
        Seq::empty()
    } else {
        match ops.last() {
            Op::Frame { rect, chart: true, .. } => charts(ops.drop_last()).push(rect),
            _ => charts(ops.drop_last()),
        }
    }
}

/// The charts of a picture.
pub fn chart_areas(list: &Vec<DrawOp>) -> (areas: Vec<Rect>)
    ensures
        areas@ == charts(draw::ops(list@)),
{
    let ghost all = draw::ops(list@);
    let mut areas: Vec<Rect> = Vec::new();
    let mut i: usize = 0;
    assert(all.take(0) =~= Seq::empty());
    while i < list.len()
        invariant
            i <= list@.len(),
            all == draw::ops(list@),
            areas@ == charts(all.take(i as int)),
        decreases list@.len() - i,
    {
        assert(all.take(i + 1).drop_last() =~= all.take(i as int));
        assert(all.take(i + 1).last() == list@[i as int]@);
        match &list[i] {
            DrawOp::Frame { rect, chart, .. } => {
                if *chart {
                    areas.push(*rect);
                }
            },
            _ => {},
        }
        i = i + 1;
    }
    assert(all.take(list@.len() as int) =~= all);
    areas
}

/// Whether a pixel belongs to a rectangle.
pub open spec fn inside(rect: Rect, x: int, y: int) -> bool {
    rect.left <= x < rect.right && rect.top <= y < rect.bottom
}

/// Whether a pixel belongs to a chart.
pub open spec fn in_chart(areas: Seq<Rect>, x: int, y: int) -> bool {
    exists|i: int| 0 <= i < areas.len() && inside(#[trigger] areas[i], x, y)
}

/// Opacity of a pixel: charts are solid, everything else is as configured.
pub open spec fn alpha_at(areas: Seq<Rect>, opacity: u8, x: int, y: int) -> int {
    if in_chart(areas, x, y) {
        255
    } else {
        opacity as int
    }
}

/// A color of an opaque surface at a given opacity: every channel weighted by
/// it, and the opacity itself in the top byte.
pub open spec fn weighted(pixel: u32, alpha: int) -> int {
    color::from_channels(
        color::channel(pixel as int, 0) * alpha / 255,
        color::channel(pixel as int, 1) * alpha / 255,
        color::channel(pixel as int, 2) * alpha / 255,
    ) + 0x1000000 * alpha
}

fn is_in_chart(areas: &Vec<Rect>, x: usize, y: usize) -> (b: bool)
    ensures
        b == in_chart(areas@, x as int, y as int),
{
    let mut i: usize = 0;
    while i < areas.len()
        invariant
            i <= areas@.len(),
            forall|j: int| 0 <= j < i ==> !inside(#[trigger] areas@[j], x as int, y as int),
        decreases areas@.len() - i,
    {
        let r = areas[i];
        if r.left as i128 <= x as i128 && (x as i128) < r.right as i128 && r.top as i128
            <= y as i128 && (y as i128) < r.bottom as i128 {
            assert(inside(areas@[i as int], x as int, y as int));
            return true;
        }
        i = i + 1;
    }
    false
}

fn weigh(pixel: u32, alpha: u8) -> (p: u32)
    ensures
        p == weighted(pixel, alpha as int),
{
    let c0: u32 = pixel % 256;
    let c1: u32 = pixel / 256 % 256;
    let c2: u32 = pixel / 65536 % 256;
    proof {
        lemma_weighted_channel(c0 as int, alpha as int);
        lemma_weighted_channel(c1 as int, alpha as int);
        lemma_weighted_channel(c2 as int, alpha as int);
    }
    let a: u32 = alpha as u32;
    c0 * a / 255 + 256 * (c1 * a / 255) + 65536 * (c2 * a / 255) + 0x1000000 * a
}

proof fn lemma_weighted_channel(c: int, alpha: int)
    requires
        0 <= c < 256,
        0 <= alpha < 256,
    ensures
        0 <= c * alpha <= 65025,
        0 <= c * alpha / 255 <= c,
{
    assert(0 <= c * alpha <= c * 255 <= 65025) by (nonlinear_arith)
        requires
            0 <= c < 256,
            0 <= alpha < 256,
    ;
}

/// Bakes the opacity into every pixel of a picture that is `width` pixels wide.
pub fn bake_opacity(pixels: &mut Vec<u32>, width: usize, areas: &Vec<Rect>, opacity: u8)
    requires
        width > 0,
    ensures
        final(pixels)@.len() == old(pixels)@.len(),
        forall|i: int|
            0 <= i < old(pixels)@.len() ==> #[trigger] final(pixels)@[i] == weighted(
                old(pixels)@[i],
                alpha_at(areas@, opacity, i % (width as int), i / (width as int)),
            ),
{
    let ghost before = pixels@;
    let mut i: usize = 0;
    while i < pixels.len()
        invariant
            width > 0,
            before == old(pixels)@,
            pixels@.len() == before.len(),
            i <= before.len(),
            forall|j: int|
                0 <= j < i ==> #[trigger] pixels@[j] == weighted(
                    before[j],
                    alpha_at(areas@, opacity, j % (width as int), j / (width as int)),
                ),
            forall|j: int| i <= j < before.len() ==> #[trigger] pixels@[j] == before[j],
        decreases before.len() - i,
    {
        let alpha: u8 = if is_in_chart(areas, i % width, i / width) {
            255
        } else {
            opacity
        };
        let p: u32 = weigh(pixels[i], alpha);
        pixels.set(i, p);
        i = i + 1;
    }
}

proof fn lemma_charts_concat(a: Seq<Op>, b: Seq<Op>)
    ensures
        charts(a + b) == charts(a) + charts(b),
    decreases b.len(),
{
    if b.len() == 0 {
        assert(a + b =~= a);
        assert(charts(a) + charts(b) =~= charts(a));
    } else {
        lemma_charts_concat(a, b.drop_last());
        assert((a + b).drop_last() =~= a + b.drop_last());
        assert((a + b).last() == b.last());
        assert(charts(a + b) =~= charts(a) + charts(b));
    }
}

proof fn lemma_no_charts(ops: Seq<Op>)
    requires
        forall|i: int| 0 <= i < ops.len() ==> !is_chart_frame(#[trigger] ops[i]),
    ensures
        charts(ops) == Seq::<Rect>::empty(),
    decreases ops.len(),
{
    if ops.len() > 0 {
        assert(!is_chart_frame(ops[ops.len() - 1]));
        lemma_no_charts(ops.drop_last());
    }
}

proof fn lemma_framed_is_one_chart(rect: Rect, fill: u32, well: u32, body: Seq<Op>)
    requires
        forall|i: int| 0 <= i < body.len() ==> !is_chart_frame(#[trigger] body[i]),
    ensures
        charts(draw::framed(rect, fill, well, true, body)) == seq![rect],
{
    let all = draw::framed(rect, fill, well, true, body);
    let front = seq![Op::Fill { rect, color: well }] + body;
    assert(all.drop_last() =~= front);
    lemma_no_charts(front);
    assert(charts(all) =~= seq![rect]);
}

proof fn lemma_row_charts(c: Canvas, row: RowModel, i: int)
    ensures
        charts(c.row_ops(row, i)) == if row is Graph {
            seq![c.meter_rect(i)]
        } else {
            Seq::empty()
        },
{
    match row {
        RowModel::Text(s) => {
            lemma_no_charts(c.text_ops(s, i, c.pad_left as int));
        },
        _ => {
            let head = c.text_ops(row.label().unwrap(), i, c.pad_left as int);
            let meter = c.meter_ops(row, i);
            let tail = c.text_ops(
                render::percent_chars(row.percent()),
                i,
                c.meter_right() + c.gap,
            );
            lemma_no_charts(head);
            lemma_no_charts(tail);
            lemma_charts_concat(head, meter);
            lemma_charts_concat(head + meter, tail);
            match row {
                RowModel::Graph { history, capacity, .. } => {
                    let rect = c.meter_rect(i);
                    let grid = draw::grid_ops(
                        rect,
                        c.grid_cell as int,
                        color::shade_of(c.meter_color, color::GRID_SHADE),
                    );
                    let area = if draw::graph_is_drawn(rect, history.len() as int, capacity) {
                        seq![
                            Op::Polygon {
                                points: draw::area_points(rect, history, capacity),
                                color: c.meter_color,
                            },
                        ]
                    } else {
                        Seq::empty()
                    };
                    lemma_framed_is_one_chart(rect, c.meter_color, c.outline_color, grid + area);
                },
                _ => {
                    let rect = c.meter_rect(i);
                    let track = color::shade_of(c.meter_color, color::TRACK_SHADE);
                    lemma_no_charts(draw::bar_ops(rect, row.percent(), c.meter_color, track));
                },
            }
            assert(charts(c.row_ops(row, i)) =~= if row is Graph {
                seq![c.meter_rect(i)]
            } else {
                Seq::empty()
            });
        },
    }
}

/// The graphs among the first `n` rows, from top to bottom.
pub open spec fn graphs(c: Canvas, rows: Seq<RowModel>, n: int) -> Seq<Rect>
    decreases n,
{
    if n <= 0 {
        Seq::empty()
    } else if rows[n - 1] is Graph {
        graphs(c, rows, n - 1).push(c.meter_rect(n - 1))
    } else {
        graphs(c, rows, n - 1)
    }
}

proof fn lemma_rows_charts(c: Canvas, rows: Seq<RowModel>, n: int)
    requires
        0 <= n <= rows.len(),
    ensures
        charts(c.rows_ops(rows, n)) == graphs(c, rows, n),
    decreases n,
{
    if n > 0 {
        lemma_rows_charts(c, rows, n - 1);
        lemma_row_charts(c, rows[n - 1], n - 1);
        lemma_charts_concat(c.rows_ops(rows, n - 1), c.row_ops(rows[n - 1], n - 1));
        assert(charts(c.rows_ops(rows, n)) =~= graphs(c, rows, n));
    }
}

/// The charts of a picture are exactly the graphs among its rows; no text and no
/// bar is one.
pub proof fn law_charts_are_the_graphs(
    rows: Seq<RowModel>,
    cfg: Config,
    width: i32,
    height: i32,
    dpi: u32,
    label_width: i32,
)
    requires
        render::is_painted(rows.len(), width, height),
    ensures
        charts(render::paint_ops(rows, cfg, width, height, dpi, label_width)) == graphs(
            render::canvas_of(cfg, rows.len(), width, height, dpi, label_width),
            rows,
            rows.len() as int,
        ),
{
    let c = render::canvas_of(cfg, rows.len(), width, height, dpi, label_width);
    let base = seq![
        Op::Fill {
            rect: draw::rect_of(0, 0, width as int, height as int),
            color: render::BACKGROUND,
        },
    ];
    lemma_no_charts(base);
    lemma_rows_charts(c, rows, rows.len() as int);
    lemma_charts_concat(base, c.rows_ops(rows, rows.len() as int));
    assert(charts(render::paint_ops(rows, cfg, width, height, dpi, label_width)) =~= graphs(
        c,
        rows,
        rows.len() as int,
    ));
}

/// Charts are solid and keep their colors, whatever the configured opacity.
pub proof fn law_charts_stay_opaque(areas: Seq<Rect>, opacity: u8, x: int, y: int, pixel: u32)
    requires
        in_chart(areas, x, y),
    ensures
        weighted(pixel, alpha_at(areas, opacity, x, y)) == 0xFF000000 + pixel % 0x1000000,
{
    let c0 = color::channel(pixel as int, 0);
    let c1 = color::channel(pixel as int, 1);
    let c2 = color::channel(pixel as int, 2);
    assert(c0 * 255 / 255 == c0 && c1 * 255 / 255 == c1 && c2 * 255 / 255 == c2);
    lemma_three_bytes(pixel as int);
}

proof fn lemma_three_bytes(n: int)
    requires
        n >= 0,
    ensures
        n % 0x1000000 == color::from_channels(
            color::channel(n, 0),
            color::channel(n, 1),
            color::channel(n, 2),
        ),
{
    let high = n / 0x1000000;
    assert(n == n % 256 + 256 * (n / 256));
    assert(n / 256 == n / 256 % 256 + 256 * (n / 65536));
    assert(n / 65536 == n / 65536 % 256 + 256 * high);
}

/// A pixel keeps each of its three channels at the share that its opacity is of
/// 255, rounded down, and holds its opacity in the top byte.
pub proof fn law_pixels_are_weighted_by_their_opacity(
    c0: int,
    c1: int,
    c2: int,
    high: int,
    alpha: int,
)
    requires
        0 <= c0 < 256,
        0 <= c1 < 256,
        0 <= c2 < 256,
        0 <= high < 256,
        0 <= alpha < 256,
    ensures
        weighted((c0 + 256 * c1 + 65536 * c2 + 16777216 * high) as u32, alpha) == c0 * alpha / 255
            + 256 * (c1 * alpha / 255) + 65536 * (c2 * alpha / 255) + 16777216 * alpha,
{
    let pixel = c0 + 256 * c1 + 65536 * c2 + 16777216 * high;
    assert(pixel / 256 == c1 + 256 * c2 + 65536 * high);
    assert(pixel / 65536 == c2 + 256 * high);
    assert(color::channel(pixel, 0) == c0);
    assert(color::channel(pixel, 1) == c1);
    assert(color::channel(pixel, 2) == c2);
}

/// Exactly the pixels of charts are solid, from the left and top edge of one up
/// to, but not on, its right and bottom edge; all others have the configured
/// opacity.
pub proof fn law_only_charts_are_solid(
    areas: Seq<Rect>,
    opacity: u8,
    x: int,
    y: int,
    i: int,
)
    requires
        0 <= i < areas.len(),
    ensures
        areas[i].left <= x && x < areas[i].right && areas[i].top <= y && y < areas[i].bottom
            ==> alpha_at(areas, opacity, x, y) == 255,
        (forall|k: int|
            0 <= k < areas.len() ==> x < (#[trigger] areas[k]).left || x >= areas[k].right || y
                < areas[k].top || y >= areas[k].bottom) ==> alpha_at(areas, opacity, x, y)
            == opacity,
        alpha_at(Seq::empty(), opacity, x, y) == opacity,
{
    if inside(areas[i], x, y) {
        assert(in_chart(areas, x, y));
    }
    if forall|k: int|
        0 <= k < areas.len() ==> x < (#[trigger] areas[k]).left || x >= areas[k].right || y
            < areas[k].top || y >= areas[k].bottom {
        if in_chart(areas, x, y) {
            let k = choose|k: int| 0 <= k < areas.len() && inside(#[trigger] areas[k], x, y);
            assert(x < areas[k].left || x >= areas[k].right || y < areas[k].top || y
                >= areas[k].bottom);
        }
    }
}

/// The charts of a picture are the rectangles of its chart frames, each of them
/// and no others: what stands before and what stands after adds its own.
pub proof fn law_charts_are_the_chart_frames(a: Seq<Op>, b: Seq<Op>, op: Op)
    ensures
        charts(a + b) == charts(a) + charts(b),
        op matches Op::Frame { rect, chart, .. } ==> chart ==> charts(seq![op]) == seq![rect],
        !(op matches Op::Frame { chart, .. } && chart) ==> charts(seq![op]).len() == 0,
        charts(Seq::empty()).len() == 0,
{
    lemma_charts_concat(a, b);
    assert(seq![op].drop_last() =~= Seq::<Op>::empty());
    assert(seq![op].last() == op);
    reveal_with_fuel(charts, 2);
    if let Op::Frame { rect, chart, .. } = op {
        if chart {
            assert(charts(seq![op]) =~= seq![rect]);
        }
    }
}

} // verus!
