//! The rows of the overlay: what they say, how much room they need and how
//! they are drawn.

use vstd::prelude::*;
use vstd::string::*;

use crate::color;
use crate::config::Config;
use crate::draw;
use crate::draw::{DrawOp, Op, Rect};
use crate::layout;
use crate::text;

verus! {

/// One line of the overlay. Providers are text; the system block draws itself.
#[derive(Debug)]
pub enum Row {
    Text(String),
    /// Instantaneous value, drawn as a filled progress bar.
    Bar { label: &'static str, percent: Option<u32> },
    /// Load history, drawn as a filled area chart, newest sample on the right.
    Graph {
        label: &'static str,
        percent: Option<u32>,
        history: Vec<u32>,
        /// Samples the chart is scaled for, so it scrolls in at a constant
        /// speed instead of stretching while the history fills up.
        capacity: usize,
    },
}

/// What a row says.
pub enum RowModel {
    Text(Seq<char>),
    Bar { label: Seq<char>, percent: Option<u32> },
    Graph { label: Seq<char>, percent: Option<u32>, history: Seq<u32>, capacity: usize },
}

impl RowModel {
    /// The label of a meter row.
    pub open spec fn label(self) -> Option<Seq<char>> {
        match self {
            RowModel::Text(_) => None,
            RowModel::Bar { label, .. } => Some(label),
            RowModel::Graph { label, .. } => Some(label),
        }
    }

    /// The value of a meter row.
    pub open spec fn percent(self) -> Option<u32> {
        match self {
            RowModel::Text(_) => None,
            RowModel::Bar { percent, .. } => percent,
            RowModel::Graph { percent, .. } => percent,
        }
    }
}

impl View for Row {
    type V = RowModel;

    open spec fn view(&self) -> RowModel {
        match *self {
            Row::Text(t) => RowModel::Text(t@),
            Row::Bar { label, percent } => RowModel::Bar { label: label@, percent },
            Row::Graph { label, percent, history, capacity } => RowModel::Graph {
                label: label@,
                percent,
                history: history@,
                capacity,
            },
        }
    }
}

/// What a list of rows says.
pub open spec fn model(rows: Seq<Row>) -> Seq<RowModel> {
    Seq::new(rows.len(), |i: int| rows[i]@)
}

/// A longer list says what the shorter one says, and then the new row.
pub proof fn lemma_model_push(rows: Seq<Row>, row: Row)
    ensures
        model(rows.push(row)) == model(rows).push(row@),
{
    assert(model(rows.push(row)) =~= model(rows).push(row@));
}

impl Clone for Row {
    fn clone(&self) -> (row: Self)
        ensures
            row@ == self@,
    {
        match self {
            Row::Text(t) => Row::Text(t.clone()),
            Row::Bar { label, percent } => Row::Bar { label: *label, percent: *percent },
            Row::Graph { label, percent, history, capacity } => {
                let copy = history.clone();
                assert(copy@ =~= history@);
                Row::Graph { label: *label, percent: *percent, history: copy, capacity: *capacity }
            },
        }
    }
}

impl Row {
    /// The label of a meter row.
    pub fn label(&self) -> (label: Option<&'static str>)
        ensures
            label is Some <==> self@.label() is Some,
            label matches Some(l) ==> self@.label() == Some(l@),
    {
        match self {
            Row::Text(_) => None,
            Row::Bar { label, .. } => Some(*label),
            Row::Graph { label, .. } => Some(*label),
        }
    }

    /// The value of a meter row.
    pub fn percent(&self) -> (percent: Option<u32>)
        ensures
            percent == self@.percent(),
    {
        match self {
            Row::Text(_) => None,
            Row::Bar { percent, .. } => *percent,
            Row::Graph { percent, .. } => *percent,
        }
    }
}

/// How a percentage is written.
pub open spec fn percent_chars(percent: Option<u32>) -> Seq<char> {
    match percent {
        Some(p) => text::pad_left(text::decimal(p as nat), 3) + "%"@,
        None => "  --"@,
    }
}

/// Percentages are padded to a fixed width so the column does not jitter.
pub fn percent_text(percent: Option<u32>) -> (s: String)
    ensures
        s@ == percent_chars(percent),
{
    match percent {
        Some(p) => text::padded_text(p as u64, 3).concat("%"),
        None => "  --".to_owned(),
    }
}

/// Whether the width of a meter row stays within the machine's arithmetic.
pub open spec fn meter_row_fits(
    percent_width: int,
    label_width: int,
    meter_width: int,
    dpi: u32,
) -> bool {
    let gap = layout::scaled(layout::METER_GAP as int, dpi);
    &&& layout::scale_fits(layout::METER_GAP as int, dpi)
    &&& layout::fits(label_width + gap)
    &&& layout::fits(label_width + gap + meter_width)
    &&& layout::fits(label_width + gap + meter_width + gap)
    &&& layout::fits(label_width + gap + meter_width + gap + percent_width)
}

/// Width a meter row needs.
pub open spec fn meter_row_width_of(
    percent_width: int,
    label_width: int,
    meter_width: int,
    dpi: u32,
) -> int {
    label_width + meter_width + percent_width + 2 * layout::scaled(layout::METER_GAP as int, dpi)
}

/// Width a meter row needs: label, meter, and the percentage column, which is
/// as wide as the text of a full percentage. Shared by measuring and drawing so
/// that they cannot drift apart.
pub fn meter_row_width(percent_width: i32, label_width: i32, meter_width: i32, dpi: u32) -> (w: i32)
    requires
        meter_row_fits(percent_width as int, label_width as int, meter_width as int, dpi),
    ensures
        w == meter_row_width_of(percent_width as int, label_width as int, meter_width as int, dpi),
{
    let gap: i32 = layout::scale(layout::METER_GAP, dpi);
    label_width + gap + meter_width + gap + percent_width
}

/// Whether `w` is the width of the label column: the widest label, or nothing
/// if there is no meter row.
pub open spec fn is_label_column(rows: Seq<RowModel>, widths: Seq<i32>, w: int) -> bool {
    &&& forall|i: int|
        0 <= i < rows.len() && (#[trigger] rows[i]).label() is Some ==> widths[i] <= w
    &&& if exists|i: int| 0 <= i < rows.len() && (#[trigger] rows[i]).label() is Some {
        exists|i: int|
            0 <= i < rows.len() && (#[trigger] rows[i]).label() is Some && widths[i] == w
    } else {
        w == 0
    }
}

/// The widest label among the meter rows; all meters share it so their bars
/// start at the same x even in a proportional font. `widths` holds the measured
/// width of each row's label; what it holds for a text row does not matter.
pub fn label_column_width(rows: &Vec<Row>, widths: &Vec<i32>) -> (w: i32)
    requires
        widths@.len() == rows@.len(),
    ensures
        is_label_column(model(rows@), widths@, w as int),
{
    let mut found: bool = false;
    let mut widest: i32 = 0;
    let ghost all = model(rows@);
    let mut i: usize = 0;
    while i < rows.len()
        invariant
            i <= rows@.len(),
            widths@.len() == rows@.len(),
            all == model(rows@),
            !found ==> widest == 0 && forall|j: int|
                0 <= j < i ==> (#[trigger] all[j]).label() is None,
            found ==> (forall|j: int|
                0 <= j < i && (#[trigger] all[j]).label() is Some ==> widths@[j] <= widest) && (
            exists|j: int|
                0 <= j < i && (#[trigger] all[j]).label() is Some && widths@[j] == widest),
        decreases rows@.len() - i,
    {
        assert(all[i as int] == rows@[i as int]@);
        if rows[i].label().is_some() && (!found || widths[i] > widest) {
            widest = widths[i];
            found = true;
            assert(all[i as int].label() is Some && widths@[i as int] == widest);
        }
        i = i + 1;
    }
    widest
}

/// What the surface of the window is filled with before anything is drawn.
pub const BACKGROUND: u32 = 0x00202020;

/// Everything that the rows of one picture share.
#[derive(Clone, Copy, Debug)]
pub struct Canvas {
    pub width: i32,
    pub line_height: i32,
    pub pad_left: i32,
    pub gap: i32,
    pub meter_width: i32,
    pub grid_cell: i32,
    /// Width of the label column.
    pub label_width: i32,
    pub text_color: u32,
    pub outline_color: u32,
    pub meter_color: u32,
    pub outline_width: u32,
}

/// Whether the shared lengths stay within the machine's arithmetic.
pub open spec fn canvas_fits(cfg: Config, count: nat, dpi: u32) -> bool {
    &&& layout::scale_fits(layout::PAD_LEFT as int, dpi)
    &&& layout::scale_fits(layout::METER_GAP as int, dpi)
    &&& layout::scale_fits(cfg.meter_width as int, dpi)
    &&& layout::scale_fits(layout::GRID_CELL as int, dpi)
    &&& (count as i32) != 0
}

/// What `count` rows share on a surface of a given size.
pub open spec fn canvas_of(
    cfg: Config,
    count: nat,
    width: i32,
    height: i32,
    dpi: u32,
    label_width: i32,
) -> Canvas {
    Canvas {
        width,
        line_height: layout::quot(height as int, (count as i32) as int) as i32,
        pad_left: layout::scaled(layout::PAD_LEFT as int, dpi) as i32,
        gap: layout::scaled(layout::METER_GAP as int, dpi) as i32,
        meter_width: layout::scaled(cfg.meter_width as int, dpi) as i32,
        grid_cell: layout::scaled(layout::GRID_CELL as int, dpi) as i32,
        label_width,
        text_color: color::color_of(cfg.text_color@) as u32,
        outline_color: color::color_of(cfg.outline_color@) as u32,
        meter_color: color::color_of(cfg.meter_color@) as u32,
        outline_width: cfg.outline_width,
    }
}

/// What `count` rows share on a surface of a given size.
fn canvas(
    cfg: &Config,
    count: usize,
    width: i32,
    height: i32,
    dpi: u32,
    label_width: i32,
) -> (c: Canvas)
    requires
        canvas_fits(*cfg, count as nat, dpi),
        height > 0,
    ensures
        c == canvas_of(*cfg, count as nat, width, height, dpi, label_width),
{
    Canvas {
        width,
        line_height: layout::divide(height, count as i32),
        pad_left: layout::scale(layout::PAD_LEFT, dpi),
        gap: layout::scale(layout::METER_GAP, dpi),
        meter_width: layout::scale(cfg.meter_width, dpi),
        grid_cell: layout::scale(layout::GRID_CELL, dpi),
        label_width,
        text_color: color::parse_hex_color(cfg.text_color.as_str()),
        outline_color: color::parse_hex_color(cfg.outline_color.as_str()),
        meter_color: color::parse_hex_color(cfg.meter_color.as_str()),
        outline_width: cfg.outline_width,
    }
}

impl Canvas {
    /// Top of row `i`.
    pub open spec fn top(self, i: int) -> int {
        (i as i32) * self.line_height
    }

    /// Where a text of row `i` goes that starts at `left`.
    pub open spec fn text_rect(self, i: int, left: int) -> Rect {
        draw::rect_of(left, self.top(i) + 4, self.width - 4, self.top(i) + self.line_height)
    }

    /// Height of a meter: a band reads better than a full-height block.
    pub open spec fn meter_height(self) -> int {
        layout::max(layout::quot(self.line_height * 5, 9), 4)
    }

    /// Top of the meter of row `i`, which is centred in its row.
    pub open spec fn meter_top(self, i: int) -> int {
        self.top(i) + layout::quot(self.line_height - self.meter_height(), 2)
    }

    /// Left edge of every meter.
    pub open spec fn meter_left(self) -> int {
        self.pad_left + self.label_width + self.gap
    }

    /// Right edge of every meter.
    pub open spec fn meter_right(self) -> int {
        self.meter_left() + self.meter_width
    }

    /// Where the meter of row `i` goes.
    pub open spec fn meter_rect(self, i: int) -> Rect {
        draw::rect_of(
            self.meter_left(),
            self.meter_top(i),
            self.meter_right(),
            self.meter_top(i) + self.meter_height(),
        )
    }

    /// Whether a text of row `i` stays within 32-bit coordinates.
    pub open spec fn text_fits(self, i: int, left: int) -> bool {
        &&& layout::fits(self.top(i))
        &&& layout::fits(self.top(i) + 4)
        &&& layout::fits(self.width - 4)
        &&& layout::fits(self.top(i) + self.line_height)
        &&& self.outline_width > 0 ==> draw::outline_fits(
            self.text_rect(i, left),
            self.outline_width,
        )
    }

    /// Whether the meter of row `i` stays within the machine's arithmetic.
    pub open spec fn meter_fits(self, i: int) -> bool {
        &&& layout::fits(self.top(i))
        &&& layout::fits(self.line_height * 5)
        &&& layout::fits(self.line_height - self.meter_height())
        &&& layout::fits(self.meter_top(i))
        &&& layout::fits(self.pad_left + self.label_width)
        &&& layout::fits(self.meter_left())
        &&& layout::fits(self.meter_right())
        &&& layout::fits(self.meter_top(i) + self.meter_height())
        &&& layout::fits(self.meter_right() + self.gap)
    }

    /// Whether row `i` stays within the machine's arithmetic.
    pub open spec fn row_fits(self, row: RowModel, i: int) -> bool {
        &&& self.text_fits(i, self.pad_left as int)
        &&& row.label() is Some ==> {
            &&& self.meter_fits(i)
            &&& self.text_fits(i, self.meter_right() + self.gap)
            &&& match row {
                RowModel::Graph { history, capacity, .. } => draw::graph_fits(
                    self.meter_rect(i),
                    history,
                    capacity,
                ),
                _ => draw::bar_fits(self.meter_rect(i), row.percent()),
            }
        }
    }

    /// A text of row `i` that starts at `left`.
    pub open spec fn text_ops(self, s: Seq<char>, i: int, left: int) -> Seq<Op> {
        draw::row_text_ops(
            s,
            self.text_rect(i, left),
            self.text_color,
            self.outline_color,
            self.outline_width,
        )
    }

    /// The meter of row `i`.
    pub open spec fn meter_ops(self, row: RowModel, i: int) -> Seq<Op> {
        match row {
            RowModel::Graph { history, capacity, .. } => draw::graph_ops(
                self.meter_rect(i),
                history,
                capacity,
                self.meter_color,
                self.outline_color,
                self.grid_cell as int,
            ),
            _ => draw::bar_ops(
                self.meter_rect(i),
                row.percent(),
                self.meter_color,
                color::shade_of(self.meter_color, color::TRACK_SHADE),
            ),
        }
    }

    /// Row `i`: its text, or its label, meter and percentage.
    pub open spec fn row_ops(self, row: RowModel, i: int) -> Seq<Op> {
        match row {
            RowModel::Text(s) => self.text_ops(s, i, self.pad_left as int),
            _ => self.text_ops(row.label().unwrap(), i, self.pad_left as int) + self.meter_ops(
                row,
                i,
            ) + self.text_ops(percent_chars(row.percent()), i, self.meter_right() + self.gap),
        }
    }

    /// The first `n` rows.
    pub open spec fn rows_ops(self, rows: Seq<RowModel>, n: int) -> Seq<Op>
        decreases n,
    {
        if n <= 0 {
            Seq::empty()
        } else {
            self.rows_ops(rows, n - 1) + self.row_ops(rows[n - 1], n - 1)
        }
    }

    /// Draws a text of row `i` that starts at `left`.
    fn draw_text(&self, out: &mut Vec<DrawOp>, s: &str, i: usize, left: i32)
        requires
            self.text_fits(i as int, left as int),
        ensures
            draw::ops(final(out)@) == draw::ops(old(out)@) + self.text_ops(
                s@,
                i as int,
                left as int,
            ),
    {
        let y: i32 = i as i32 * self.line_height;
        let rect = Rect {
            left,
            top: y + 4,
            right: self.width - 4,
            bottom: y + self.line_height,
        };
        draw::draw_row_text(
            out,
            s,
            rect,
            self.text_color,
            self.outline_color,
            self.outline_width,
        );
    }

    /// Where the meter of row `i` goes.
    fn meter(&self, i: usize) -> (rect: Rect)
        requires
            self.meter_fits(i as int),
        ensures
            rect == self.meter_rect(i as int),
            rect.right == self.meter_right(),
    {
        let y: i32 = i as i32 * self.line_height;
        let meter_h: i32 = (self.line_height * 5 / 9).max(4);
        let meter_top: i32 = y + (self.line_height - meter_h) / 2;
        let meter_x: i32 = self.pad_left + self.label_width + self.gap;
        Rect {
            left: meter_x,
            top: meter_top,
            right: meter_x + self.meter_width,
            bottom: meter_top + meter_h,
        }
    }

    /// Whether a text of row `i` stays within 32-bit coordinates.
    fn can_draw_text(&self, i: usize, left: i32) -> (b: bool)
        ensures
            b == self.text_fits(i as int, left as int),
    {
        let y: i64 = layout::wide_product(i as i32, self.line_height);
        if !layout::in_range(y) || !layout::in_range(y + 4) || !layout::in_range(
            self.width as i64 - 4,
        ) || !layout::in_range(y + self.line_height as i64) {
            return false;
        }
        let rect = Rect {
            left,
            top: (y + 4) as i32,
            right: self.width - 4,
            bottom: (y + self.line_height as i64) as i32,
        };
        self.outline_width == 0 || draw::can_outline(rect, self.outline_width)
    }

    /// Whether the meter of row `i` stays within the machine's arithmetic.
    fn can_draw_meter(&self, i: usize) -> (b: bool)
        ensures
            b == self.meter_fits(i as int),
    {
        let y: i64 = layout::wide_product(i as i32, self.line_height);
        let tall: i64 = layout::wide_product(self.line_height, 5);
        if !layout::in_range(y) || !layout::in_range(tall) {
            return false;
        }
        let meter_h: i64 = (tall / 9).max(4);
        let spare: i64 = self.line_height as i64 - meter_h;
        let meter_top: i64 = y + spare / 2;
        let label_right: i64 = self.pad_left as i64 + self.label_width as i64;
        let meter_x: i64 = label_right + self.gap as i64;
        let meter_right: i64 = meter_x + self.meter_width as i64;
        layout::in_range(spare) && layout::in_range(meter_top) && layout::in_range(label_right)
            && layout::in_range(meter_x) && layout::in_range(meter_right) && layout::in_range(
            meter_top + meter_h,
        ) && layout::in_range(meter_right + self.gap as i64)
    }

    /// Whether row `i` stays within the machine's arithmetic.
    fn can_draw_row(&self, row: &Row, i: usize) -> (b: bool)
        ensures
            b == self.row_fits(row@, i as int),
    {
        if !self.can_draw_text(i, self.pad_left) {
            return false;
        }
        match row {
            Row::Text(_) => true,
            Row::Bar { percent, .. } => {
                if !self.can_draw_meter(i) {
                    return false;
                }
                let meter = self.meter(i);
                self.can_draw_text(i, meter.right + self.gap) && draw::can_draw_bar(meter, *percent)
            },
            Row::Graph { history, capacity, .. } => {
                if !self.can_draw_meter(i) {
                    return false;
                }
                let meter = self.meter(i);
                self.can_draw_text(i, meter.right + self.gap) && draw::can_draw_graph(
                    meter,
                    history,
                    *capacity,
                )
            },
        }
    }

    /// Draws row `i`.
    fn draw_row(&self, out: &mut Vec<DrawOp>, row: &Row, i: usize)
        requires
            self.row_fits(row@, i as int),
        ensures
            draw::ops(final(out)@) == draw::ops(old(out)@) + self.row_ops(row@, i as int),
    {
        match row {
            Row::Text(s) => self.draw_text(out, s.as_str(), i, self.pad_left),
            Row::Bar { label, percent } => {
                self.draw_text(out, label, i, self.pad_left);
                let meter = self.meter(i);
                // A bar is one color throughout; only charts sit in a well.
                let track: u32 = color::shade(self.meter_color, color::TRACK_SHADE);
                draw::draw_bar(out, meter, *percent, self.meter_color, track);
                let value = percent_text(*percent);
                self.draw_text(out, value.as_str(), i, meter.right + self.gap);
                assert(draw::ops(out@) =~= draw::ops(old(out)@) + self.row_ops(row@, i as int));
            },
            Row::Graph { label, percent, history, capacity } => {
                self.draw_text(out, label, i, self.pad_left);
                let meter = self.meter(i);
                draw::draw_graph(
                    out,
                    meter,
                    history,
                    *capacity,
                    self.meter_color,
                    self.outline_color,
                    self.grid_cell,
                );
                let value = percent_text(*percent);
                self.draw_text(out, value.as_str(), i, meter.right + self.gap);
                assert(draw::ops(out@) =~= draw::ops(old(out)@) + self.row_ops(row@, i as int));
            },
        }
    }
}

/// Whether there is anything to draw, and anywhere to draw it.
pub open spec fn is_painted(count: nat, width: i32, height: i32) -> bool {
    count > 0 && width > 0 && height > 0
}

/// Whether a picture stays within the machine's arithmetic.
pub open spec fn paint_fits(
    rows: Seq<RowModel>,
    cfg: Config,
    width: i32,
    height: i32,
    dpi: u32,
    label_width: i32,
) -> bool {
    is_painted(rows.len(), width, height) ==> {
        &&& canvas_fits(cfg, rows.len(), dpi)
        &&& forall|i: int|
            0 <= i < rows.len() ==> canvas_of(
                cfg,
                rows.len(),
                width,
                height,
                dpi,
                label_width,
            ).row_fits(#[trigger] rows[i], i)
    }
}

/// A picture of all rows, from top to bottom, over the background.
pub open spec fn paint_ops(
    rows: Seq<RowModel>,
    cfg: Config,
    width: i32,
    height: i32,
    dpi: u32,
    label_width: i32,
) -> Seq<Op> {
    if is_painted(rows.len(), width, height) {
        seq![Op::Fill { rect: draw::rect_of(0, 0, width as int, height as int), color: BACKGROUND }]
            + canvas_of(cfg, rows.len(), width, height, dpi, label_width).rows_ops(
            rows,
            rows.len() as int,
        )
    } else {
        Seq::empty()
    }
}

/// Draws all rows on a surface of a given size. `label_width` is the width of
/// the label column.
pub fn paint(
    rows: &Vec<Row>,
    cfg: &Config,
    width: i32,
    height: i32,
    dpi: u32,
    label_width: i32,
) -> (out: Vec<DrawOp>)
    requires
        paint_fits(model(rows@), *cfg, width, height, dpi, label_width),
    ensures
        draw::ops(out@) == paint_ops(model(rows@), *cfg, width, height, dpi, label_width),
{
    let mut out: Vec<DrawOp> = Vec::new();
    let ghost all = model(rows@);
    if rows.len() == 0 || width <= 0 || height <= 0 {
        assert(draw::ops(out@) =~= Seq::empty());
        return out;
    }
    let c = canvas(cfg, rows.len(), width, height, dpi, label_width);
    let surface = Rect { left: 0, top: 0, right: width, bottom: height };
    out.push(DrawOp::Fill { rect: surface, color: BACKGROUND });
    let ghost base = draw::ops(out@);
    assert(base =~= seq![Op::Fill { rect: surface, color: BACKGROUND }]);
    let mut i: usize = 0;
    assert(base + c.rows_ops(all, 0) =~= base);
    while i < rows.len()
        invariant
            i <= rows@.len(),
            all == model(rows@),
            forall|j: int| 0 <= j < all.len() ==> c.row_fits(#[trigger] all[j], j),
            draw::ops(out@) == base + c.rows_ops(all, i as int),
        decreases rows@.len() - i,
    {
        assert(all[i as int] == rows@[i as int]@);
        c.draw_row(&mut out, &rows[i], i);
        assert(draw::ops(out@) =~= base + c.rows_ops(all, i + 1));
        i = i + 1;
    }
    out
}

/// Whether a picture stays within the machine's arithmetic.
pub fn can_paint(
    rows: &Vec<Row>,
    cfg: &Config,
    width: i32,
    height: i32,
    dpi: u32,
    label_width: i32,
) -> (b: bool)
    ensures
        b == paint_fits(model(rows@), *cfg, width, height, dpi, label_width),
{
    if rows.len() == 0 || width <= 0 || height <= 0 {
        return true;
    }
    if !layout::can_scale(layout::PAD_LEFT, dpi) || !layout::can_scale(layout::METER_GAP, dpi)
        || !layout::can_scale(cfg.meter_width, dpi) || !layout::can_scale(layout::GRID_CELL, dpi)
        || rows.len() as i32 == 0 {
        return false;
    }
    let c = canvas(cfg, rows.len(), width, height, dpi, label_width);
    let ghost all = model(rows@);
    let mut i: usize = 0;
    while i < rows.len()
        invariant
            i <= rows@.len(),
            all == model(rows@),
            is_painted(all.len(), width, height),
            canvas_fits(*cfg, all.len(), dpi),
            c == canvas_of(*cfg, all.len(), width, height, dpi, label_width),
            forall|j: int| 0 <= j < i ==> c.row_fits(#[trigger] all[j], j),
        decreases rows@.len() - i,
    {
        assert(all[i as int] == rows@[i as int]@);
        if !c.can_draw_row(&rows[i], i) {
            return false;
        }
        i = i + 1;
    }
    true
}

/// Width a row needs inside the insets of the window.
pub open spec fn row_width_of(
    row: RowModel,
    text_width: int,
    label_width: int,
    percent_width: int,
    meter_width: int,
    dpi: u32,
) -> int {
    match row {
        RowModel::Text(_) => text_width,
        _ => meter_row_width_of(percent_width, label_width, meter_width, dpi),
    }
}

/// Width that the widest of the first `n` rows needs.
pub open spec fn content_width(
    rows: Seq<RowModel>,
    text_widths: Seq<i32>,
    label_width: int,
    percent_width: int,
    meter_width: int,
    dpi: u32,
    n: int,
) -> int
    decreases n,
{
    if n <= 0 {
        0
    } else {
        layout::max(
            content_width(
                rows,
                text_widths,
                label_width,
                percent_width,
                meter_width,
                dpi,
                n - 1,
            ),
            row_width_of(
                rows[n - 1],
                text_widths[n - 1] as int,
                label_width,
                percent_width,
                meter_width,
                dpi,
            ),
        )
    }
}

/// Width of a window that holds the rows and its insets.
pub open spec fn window_width(
    rows: Seq<RowModel>,
    cfg: Config,
    text_widths: Seq<i32>,
    label_width: int,
    percent_width: int,
    dpi: u32,
) -> int {
    layout::scaled(layout::PAD_LEFT as int, dpi) + content_width(
        rows,
        text_widths,
        label_width,
        percent_width,
        layout::scaled(cfg.meter_width as int, dpi),
        dpi,
        rows.len() as int,
    ) + layout::scaled(layout::PAD_RIGHT as int, dpi)
}

/// Whether the place and size of the window stay within the machine's
/// arithmetic.
pub open spec fn window_fits(
    rows: Seq<RowModel>,
    cfg: Config,
    text_widths: Seq<i32>,
    label_width: int,
    percent_width: int,
    dpi: u32,
) -> bool {
    let meter_width = layout::scaled(cfg.meter_width as int, dpi);
    let pad_left = layout::scaled(layout::PAD_LEFT as int, dpi);
    let pad_right = layout::scaled(layout::PAD_RIGHT as int, dpi);
    let content = content_width(
        rows,
        text_widths,
        label_width,
        percent_width,
        meter_width,
        dpi,
        rows.len() as int,
    );
    &&& layout::scale_fits(cfg.pos_x as int, dpi)
    &&& layout::scale_fits(cfg.pos_y as int, dpi)
    &&& layout::scale_fits(layout::PAD_LEFT as int, dpi)
    &&& layout::scale_fits(layout::PAD_RIGHT as int, dpi)
    &&& layout::scale_fits(cfg.meter_width as int, dpi)
    &&& layout::line_height_fits(cfg.font_size, dpi)
    &&& rows.len() <= i32::MAX
    &&& layout::fits(layout::line_height_of(cfg.font_size, dpi) * rows.len())
    &&& forall|i: int|
        0 <= i < rows.len() && (#[trigger] rows[i]).label() is Some ==> meter_row_fits(
            percent_width,
            label_width,
            meter_width,
            dpi,
        )
    &&& layout::fits(pad_left + content)
    &&& layout::fits(pad_left + content + pad_right)
}

/// Place and size of the window as left, top, width and height.
pub open spec fn window_of(
    rows: Seq<RowModel>,
    cfg: Config,
    text_widths: Seq<i32>,
    label_width: int,
    percent_width: int,
    dpi: u32,
) -> (int, int, int, int) {
    (
        layout::scaled(cfg.pos_x as int, dpi),
        layout::scaled(cfg.pos_y as int, dpi),
        window_width(rows, cfg, text_widths, label_width, percent_width, dpi),
        layout::line_height_of(cfg.font_size, dpi) * rows.len(),
    )
}

/// Width that the widest row needs.
fn widest_row(
    rows: &Vec<Row>,
    text_widths: &Vec<i32>,
    label_width: i32,
    percent_width: i32,
    meter_width: i32,
    dpi: u32,
) -> (w: i32)
    requires
        text_widths@.len() == rows@.len(),
        forall|i: int|
            0 <= i < rows@.len() && (#[trigger] model(rows@)[i]).label() is Some ==> meter_row_fits(
                percent_width as int,
                label_width as int,
                meter_width as int,
                dpi,
            ),
    ensures
        w == content_width(
            model(rows@),
            text_widths@,
            label_width as int,
            percent_width as int,
            meter_width as int,
            dpi,
            rows@.len() as int,
        ),
{
    let ghost all = model(rows@);
    let mut widest: i32 = 0;
    let mut i: usize = 0;
    while i < rows.len()
        invariant
            i <= rows@.len(),
            text_widths@.len() == rows@.len(),
            all == model(rows@),
            forall|j: int|
                0 <= j < rows@.len() && (#[trigger] all[j]).label() is Some ==> meter_row_fits(
                    percent_width as int,
                    label_width as int,
                    meter_width as int,
                    dpi,
                ),
            widest == content_width(
                all,
                text_widths@,
                label_width as int,
                percent_width as int,
                meter_width as int,
                dpi,
                i as int,
            ),
        decreases rows@.len() - i,
    {
        assert(all[i as int] == rows@[i as int]@);
        let w: i32 = match rows[i].label() {
            None => text_widths[i],
            Some(_) => meter_row_width(percent_width, label_width, meter_width, dpi),
        };
        widest = widest.max(w);
        i = i + 1;
    }
    widest
}

/// Place and size of the window as left, top, width and height: at the
/// configured corner, and as large as its contents. `text_widths` holds the
/// measured width of each text row, `percent_width` that of a full percentage.
pub fn window_rect(
    rows: &Vec<Row>,
    cfg: &Config,
    text_widths: &Vec<i32>,
    label_width: i32,
    percent_width: i32,
    dpi: u32,
) -> (r: (i32, i32, i32, i32))
    requires
        text_widths@.len() == rows@.len(),
        window_fits(
            model(rows@),
            *cfg,
            text_widths@,
            label_width as int,
            percent_width as int,
            dpi,
        ),
    ensures
        r.0 == layout::scaled(cfg.pos_x as int, dpi),
        r.1 == layout::scaled(cfg.pos_y as int, dpi),
        r.2 == window_width(
            model(rows@),
            *cfg,
            text_widths@,
            label_width as int,
            percent_width as int,
            dpi,
        ),
        r.3 == layout::line_height_of(cfg.font_size, dpi) * rows@.len(),
        (r.0 as int, r.1 as int, r.2 as int, r.3 as int) == window_of(
            model(rows@),
            *cfg,
            text_widths@,
            label_width as int,
            percent_width as int,
            dpi,
        ),
{
    let meter_width: i32 = layout::scale(cfg.meter_width, dpi);
    let content: i32 = widest_row(
        rows,
        text_widths,
        label_width,
        percent_width,
        meter_width,
        dpi,
    );
    (
        layout::scale(cfg.pos_x, dpi),
        layout::scale(cfg.pos_y, dpi),
        layout::scale(layout::PAD_LEFT, dpi) + content + layout::scale(layout::PAD_RIGHT, dpi),
        layout::line_height(cfg, dpi) * rows.len() as i32,
    )
}

/// Whether the width of a meter row stays within the machine's arithmetic.
pub fn can_meter_row_width(
    percent_width: i32,
    label_width: i32,
    meter_width: i32,
    dpi: u32,
) -> (b: bool)
    ensures
        b == meter_row_fits(percent_width as int, label_width as int, meter_width as int, dpi),
{
    if !layout::can_scale(layout::METER_GAP, dpi) {
        return false;
    }
    let gap: i64 = layout::scale(layout::METER_GAP, dpi) as i64;
    let a: i64 = label_width as i64 + gap;
    let b: i64 = a + meter_width as i64;
    let c: i64 = b + gap;
    let d: i64 = c + percent_width as i64;
    layout::in_range(a) && layout::in_range(b) && layout::in_range(c) && layout::in_range(d)
}

/// Whether the place and size of the window stay within the machine's
/// arithmetic.
pub fn can_window_rect(
    rows: &Vec<Row>,
    cfg: &Config,
    text_widths: &Vec<i32>,
    label_width: i32,
    percent_width: i32,
    dpi: u32,
) -> (b: bool)
    requires
        text_widths@.len() == rows@.len(),
    ensures
        b == window_fits(
            model(rows@),
            *cfg,
            text_widths@,
            label_width as int,
            percent_width as int,
            dpi,
        ),
{
    if !layout::can_scale(cfg.pos_x, dpi) || !layout::can_scale(cfg.pos_y, dpi)
        || !layout::can_scale(layout::PAD_LEFT, dpi) || !layout::can_scale(layout::PAD_RIGHT, dpi)
        || !layout::can_scale(cfg.meter_width, dpi) || !layout::can_line_height(cfg, dpi)
        || rows.len() > 0x7FFF_FFFF {
        return false;
    }
    let height: i64 = layout::wide_product(layout::line_height(cfg, dpi), rows.len() as i32);
    if !layout::in_range(height) {
        return false;
    }
    let meter_width: i32 = layout::scale(cfg.meter_width, dpi);
    let ghost all = model(rows@);
    let meters_fit: bool = can_meter_row_width(percent_width, label_width, meter_width, dpi);
    let mut i: usize = 0;
    while i < rows.len()
        invariant
            i <= rows@.len(),
            all == model(rows@),
            meter_width == layout::scaled(cfg.meter_width as int, dpi),
            meters_fit == meter_row_fits(
                percent_width as int,
                label_width as int,
                meter_width as int,
                dpi,
            ),
            forall|j: int| 0 <= j < i && (#[trigger] all[j]).label() is Some ==> meters_fit,
        decreases rows@.len() - i,
    {
        assert(all[i as int] == rows@[i as int]@);
        if rows[i].label().is_some() && !meters_fit {
            return false;
        }
        i = i + 1;
    }
    let content: i64 = widest_row(
        rows,
        text_widths,
        label_width,
        percent_width,
        meter_width,
        dpi,
    ) as i64;
    let left: i64 = layout::scale(layout::PAD_LEFT, dpi) as i64;
    let right: i64 = layout::scale(layout::PAD_RIGHT, dpi) as i64;
    layout::in_range(left + content) && layout::in_range(left + content + right)
}

/// Percentages of up to three digits, and a missing one, are all written with
/// four characters.
pub proof fn law_percent_column_has_a_fixed_width(percent: Option<u32>)
    requires
        percent matches Some(p) ==> p < 1000,
    ensures
        percent_chars(percent).len() == 4,
{
    reveal_strlit("%");
    reveal_strlit("  --");
    if let Some(p) = percent {
        text::lemma_decimal_short(p as nat);
    }
}

/// All meters of a picture start and end at the same x.
pub proof fn law_meters_line_up(c: Canvas, i: int, j: int)
    ensures
        c.meter_rect(i).left == c.meter_rect(j).left,
        c.meter_rect(i).right == c.meter_rect(j).right,
{
}

/// A row ends before the next one starts.
pub proof fn law_rows_do_not_overlap(c: Canvas, i: int, j: int)
    requires
        0 <= i < j <= i32::MAX,
        c.line_height >= 0,
    ensures
        c.top(i) + c.line_height <= c.top(j),
{
    assert(i * c.line_height + c.line_height <= j * c.line_height) by (nonlinear_arith)
        requires
            i + 1 <= j,
            c.line_height >= 0,
    ;
}

/// A meter stays within its row.
pub proof fn law_meter_is_inside_its_row(c: Canvas, i: int)
    requires
        c.line_height >= 4,
    ensures
        c.top(i) <= c.meter_top(i),
        c.meter_top(i) + c.meter_height() <= c.top(i) + c.line_height,
{
}

/// A window as high as its lines is drawn with lines of that very height.
pub proof fn law_measured_and_drawn_lines_agree(
    cfg: Config,
    count: nat,
    width: i32,
    height: i32,
    dpi: u32,
    label_width: i32,
)
    requires
        0 < count <= i32::MAX,
        layout::line_height_of(cfg.font_size, dpi) >= 0,
        height == layout::line_height_of(cfg.font_size, dpi) * count,
    ensures
        canvas_of(cfg, count, width, height, dpi, label_width).line_height
            == layout::line_height_of(cfg.font_size, dpi),
{
    let lh = layout::line_height_of(cfg.font_size, dpi);
    vstd::arithmetic::div_mod::lemma_div_multiples_vanish(lh, count as int);
    assert(lh * count == count * lh) by (nonlinear_arith);
    assert(lh <= lh * count) by (nonlinear_arith)
        requires
            lh >= 0,
            count >= 1,
    ;
    assert(lh * count >= 0) by (nonlinear_arith)
        requires
            lh >= 0,
            count >= 1,
    ;
}

proof fn lemma_content_holds_row(
    rows: Seq<RowModel>,
    text_widths: Seq<i32>,
    label_width: int,
    percent_width: int,
    meter_width: int,
    dpi: u32,
    n: int,
    i: int,
)
    requires
        0 <= i < n,
    ensures
        row_width_of(
            rows[i],
            text_widths[i] as int,
            label_width,
            percent_width,
            meter_width,
            dpi,
        ) <= content_width(rows, text_widths, label_width, percent_width, meter_width, dpi, n),
    decreases n,
{
    if i < n - 1 {
        lemma_content_holds_row(
            rows,
            text_widths,
            label_width,
            percent_width,
            meter_width,
            dpi,
            n - 1,
            i,
        );
    }
}

/// In a window sized to its contents every row has the room it was measured
/// for: a text ends before the right edge of its rectangle, and so does the
/// percentage of a meter.
pub proof fn law_every_row_fits_in_the_window(
    rows: Seq<RowModel>,
    cfg: Config,
    text_widths: Seq<i32>,
    label_width: i32,
    percent_width: i32,
    width: i32,
    height: i32,
    dpi: u32,
    i: int,
)
    requires
        0 <= i < rows.len(),
        text_widths.len() == rows.len(),
        window_fits(rows, cfg, text_widths, label_width as int, percent_width as int, dpi),
        width == window_width(
            rows,
            cfg,
            text_widths,
            label_width as int,
            percent_width as int,
            dpi,
        ),
        layout::scaled(layout::PAD_RIGHT as int, dpi) >= 4,
    ensures
        ({
            let c = canvas_of(cfg, rows.len(), width, height, dpi, label_width);
            match rows[i] {
                RowModel::Text(_) => c.pad_left + text_widths[i] <= c.width - 4,
                _ => c.meter_right() + c.gap + percent_width <= c.width - 4,
            }
        }),
{
    lemma_content_holds_row(
        rows,
        text_widths,
        label_width as int,
        percent_width as int,
        layout::scaled(cfg.meter_width as int, dpi),
        dpi,
        rows.len() as int,
        i,
    );
    if rows[i].label() is Some {
        assert(meter_row_fits(
            percent_width as int,
            label_width as int,
            layout::scaled(cfg.meter_width as int, dpi),
            dpi,
        ));
    }
}

/// A percentage is written as its digits, with spaces in front of them up to
/// three characters, and a percent sign; a missing one as two dashes.
pub proof fn law_written_percentage_reads_back(p: u32)
    ensures
        ({
            let s = percent_chars(Some(p));
            let digits = text::decimal(p as nat);
            &&& s.last() == '%'
            &&& s.drop_last().skip(s.len() - 1 - digits.len()) == digits
            &&& s.len() - 1 == if digits.len() < 3 {
                3
            } else {
                digits.len() as int
            }
            &&& forall|i: int| 0 <= i < s.len() - 1 - digits.len() ==> #[trigger] s[i] == ' '
            &&& percent_chars(None) == seq![' ', ' ', '-', '-']
        }),
{
    reveal_strlit("%");
    reveal_strlit("  --");
    let s = percent_chars(Some(p));
    let digits = text::decimal(p as nat);
    let padded = text::pad_left(digits, 3);
    text::law_padding_only_adds_spaces_in_front(digits, 3);
    assert(s.drop_last() =~= padded);
    assert forall|i: int| 0 <= i < s.len() - 1 - digits.len() implies #[trigger] s[i] == ' ' by {
        assert(s[i] == padded[i]);
    }
    assert(percent_chars(None) =~= seq![' ', ' ', '-', '-']);
}

/// Whether two operations draw in the same place, the same text where they draw
/// one; their colors may differ.
pub open spec fn same_shape(a: Op, b: Op) -> bool {
    match a {
        Op::Fill { rect, .. } => b matches Op::Fill { rect: r, .. } && r == rect,
        Op::Frame { rect, chart, .. } => b matches Op::Frame { rect: r, chart: c, .. } && r == rect
            && c == chart,
        Op::Text { text, rects, .. } => b matches Op::Text { text: t, rects: r, .. } && t == text
            && r == rects,
        Op::Polygon { points, .. } => b matches Op::Polygon { points: p, .. } && p == points,
    }
}

/// Whether two pictures differ in nothing but colors.
pub open spec fn same_shapes(a: Seq<Op>, b: Seq<Op>) -> bool {
    &&& a.len() == b.len()
    &&& forall|j: int| 0 <= j < a.len() ==> same_shape(#[trigger] a[j], b[j])
}

proof fn lemma_same_shapes_concat(a: Seq<Op>, b: Seq<Op>, c: Seq<Op>, d: Seq<Op>)
    requires
        same_shapes(a, b),
        same_shapes(c, d),
    ensures
        same_shapes(a + c, b + d),
{
    assert forall|j: int| 0 <= j < (a + c).len() implies same_shape(
        #[trigger] (a + c)[j],
        (b + d)[j],
    ) by {
        if j < a.len() {
            assert(same_shape(a[j], b[j]));
        } else {
            assert(same_shape(c[j - a.len()], d[j - a.len()]));
        }
    }
}

/// Whether two canvases differ in nothing but colors.
pub open spec fn same_but_for_colors(c: Canvas, d: Canvas) -> bool {
    &&& c.width == d.width
    &&& c.line_height == d.line_height
    &&& c.pad_left == d.pad_left
    &&& c.gap == d.gap
    &&& c.meter_width == d.meter_width
    &&& c.grid_cell == d.grid_cell
    &&& c.label_width == d.label_width
    &&& c.outline_width == d.outline_width
}

proof fn lemma_meter_shapes(c: Canvas, d: Canvas, row: RowModel, i: int)
    requires
        same_but_for_colors(c, d),
    ensures
        same_shapes(c.meter_ops(row, i), d.meter_ops(row, i)),
{
    let rect = c.meter_rect(i);
    assert(rect == d.meter_rect(i));
    match row {
        RowModel::Graph { history, capacity, .. } => {
            let a = draw::grid_ops(
                rect,
                c.grid_cell as int,
                color::shade_of(c.meter_color, color::GRID_SHADE),
            );
            let b = draw::grid_ops(
                rect,
                d.grid_cell as int,
                color::shade_of(d.meter_color, color::GRID_SHADE),
            );
            assert(same_shapes(a, b));
            let x = c.meter_ops(row, i);
            let y = d.meter_ops(row, i);
            assert(x.len() == y.len());
            assert forall|j: int| 0 <= j < x.len() implies same_shape(#[trigger] x[j], y[j]) by {
                if 1 <= j <= a.len() {
                    assert(x[j] == a[j - 1]);
                    assert(y[j] == b[j - 1]);
                    assert(same_shape(a[j - 1], b[j - 1]));
                }
            }
        },
        _ => {},
    }
}

proof fn lemma_row_shapes(c: Canvas, d: Canvas, row: RowModel, i: int)
    requires
        same_but_for_colors(c, d),
    ensures
        same_shapes(c.row_ops(row, i), d.row_ops(row, i)),
{
    match row {
        RowModel::Text(s) => {},
        _ => {
            let (a, b) = (
                c.text_ops(row.label().unwrap(), i, c.pad_left as int),
                d.text_ops(row.label().unwrap(), i, d.pad_left as int),
            );
            let (x, y) = (c.meter_ops(row, i), d.meter_ops(row, i));
            let (p, q) = (
                c.text_ops(percent_chars(row.percent()), i, c.meter_right() + c.gap),
                d.text_ops(percent_chars(row.percent()), i, d.meter_right() + d.gap),
            );
            assert(same_shapes(a, b));
            assert(same_shapes(p, q));
            lemma_meter_shapes(c, d, row, i);
            lemma_same_shapes_concat(a, b, x, y);
            lemma_same_shapes_concat(a + x, b + y, p, q);
        },
    }
}

proof fn lemma_rows_shapes(c: Canvas, d: Canvas, rows: Seq<RowModel>, n: int)
    requires
        same_but_for_colors(c, d),
    ensures
        same_shapes(c.rows_ops(rows, n), d.rows_ops(rows, n)),
    decreases n,
{
    if n > 0 {
        lemma_rows_shapes(c, d, rows, n - 1);
        lemma_row_shapes(c, d, rows[n - 1], n - 1);
        lemma_same_shapes_concat(
            c.rows_ops(rows, n - 1),
            d.rows_ops(rows, n - 1),
            c.row_ops(rows[n - 1], n - 1),
            d.row_ops(rows[n - 1], n - 1),
        );
    }
}

/// The three colors move nothing: settings with the same meters and outlines
/// draw the same texts, polygons, frames and fills in the same places.
pub proof fn law_colors_move_nothing(
    rows: Seq<RowModel>,
    a: Config,
    b: Config,
    width: i32,
    height: i32,
    dpi: u32,
    label_width: i32,
)
    requires
        a.meter_width == b.meter_width,
        a.outline_width == b.outline_width,
    ensures
        same_shapes(
            paint_ops(rows, a, width, height, dpi, label_width),
            paint_ops(rows, b, width, height, dpi, label_width),
        ),
{
    if is_painted(rows.len(), width, height) {
        let c = canvas_of(a, rows.len(), width, height, dpi, label_width);
        let d = canvas_of(b, rows.len(), width, height, dpi, label_width);
        let base = seq![
            Op::Fill {
                rect: draw::rect_of(0, 0, width as int, height as int),
                color: BACKGROUND,
            },
        ];
        lemma_rows_shapes(c, d, rows, rows.len() as int);
        lemma_same_shapes_concat(
            base,
            base,
            c.rows_ops(rows, rows.len() as int),
            d.rows_ops(rows, rows.len() as int),
        );
    }
}

/// Whether an operation on a row uses the colors as it should: the meter's for
/// areas and filled bars, shades of it for frames, bar wells and grid lines, the
/// text's for a text itself, and the outline's for outlines and chart wells.
pub open spec fn is_colored(op: Op, text: int, outline: int, meter: int) -> bool {
    match op {
        Op::Polygon { color, .. } => color == meter,
        Op::Frame { color, .. } => color == color::shade_of(meter as u32, 5),
        Op::Text { rects, color, .. } => if rects.len() == 1 {
            color == text
        } else {
            color == outline
        },
        Op::Fill { color, .. } => {
            ||| color == meter
            ||| color == outline
            ||| color == color::shade_of(meter as u32, 5)
            ||| color == color::shade_of(meter as u32, 7)
        },
    }
}

proof fn lemma_text_colors(c: Canvas, s: Seq<char>, i: int, left: int, j: int)
    requires
        0 <= j < c.text_ops(s, i, left).len(),
    ensures
        is_colored(
            c.text_ops(s, i, left)[j],
            c.text_color as int,
            c.outline_color as int,
            c.meter_color as int,
        ),
{
    let rect = c.text_rect(i, left);
    let w = (c.outline_width as i32) as int;
    if w > 0 {
        draw::law_outlines_surround_the_text(rect, w);
        assert((2 * w + 1) * (2 * w + 1) >= 9) by (nonlinear_arith)
            requires
                w >= 1,
        ;
    }
}

proof fn lemma_row_colors(c: Canvas, row: RowModel, i: int, j: int)
    requires
        0 <= j < c.row_ops(row, i).len(),
    ensures
        is_colored(
            c.row_ops(row, i)[j],
            c.text_color as int,
            c.outline_color as int,
            c.meter_color as int,
        ),
{
    match row {
        RowModel::Text(s) => {
            lemma_text_colors(c, s, i, c.pad_left as int, j);
        },
        _ => {
            let a = c.text_ops(row.label().unwrap(), i, c.pad_left as int);
            let x = c.meter_ops(row, i);
            let p = c.text_ops(percent_chars(row.percent()), i, c.meter_right() + c.gap);
            if j < a.len() {
                assert(c.row_ops(row, i)[j] == a[j]);
                lemma_text_colors(c, row.label().unwrap(), i, c.pad_left as int, j);
            } else if j < a.len() + x.len() {
                assert(c.row_ops(row, i)[j] == x[j - a.len()]);
            } else {
                let k = j - a.len() - x.len();
                assert(c.row_ops(row, i)[j] == p[k]);
                lemma_text_colors(
                    c,
                    percent_chars(row.percent()),
                    i,
                    c.meter_right() + c.gap,
                    k,
                );
            }
        },
    }
}

proof fn lemma_rows_colors(c: Canvas, rows: Seq<RowModel>, n: int, j: int)
    requires
        0 <= j < c.rows_ops(rows, n).len(),
    ensures
        is_colored(
            c.rows_ops(rows, n)[j],
            c.text_color as int,
            c.outline_color as int,
            c.meter_color as int,
        ),
    decreases n,
{
    if n > 0 {
        let before = c.rows_ops(rows, n - 1);
        if j < before.len() {
            lemma_rows_colors(c, rows, n - 1, j);
        } else {
            lemma_row_colors(c, rows[n - 1], n - 1, j - before.len());
        }
    }
}

/// A picture uses the configured colors: every polygon has the one that the
/// meter setting names, every frame a shade of that one, every text the one
/// that the text setting names and every outline the one that the outline
/// setting names. Only the first operation, which fills the whole surface, has
/// a color that is not configured.
pub proof fn law_pictures_use_the_configured_colors(
    rows: Seq<RowModel>,
    cfg: Config,
    width: i32,
    height: i32,
    dpi: u32,
    label_width: i32,
    j: int,
)
    requires
        0 <= j < paint_ops(rows, cfg, width, height, dpi, label_width).len(),
    ensures
        j == 0 ==> paint_ops(rows, cfg, width, height, dpi, label_width)[j] == (Op::Fill {
            rect: draw::rect_of(0, 0, width as int, height as int),
            color: 0x202020,
        }),
        j > 0 ==> is_colored(
            paint_ops(rows, cfg, width, height, dpi, label_width)[j],
            color::color_of(cfg.text_color@),
            color::color_of(cfg.outline_color@),
            color::color_of(cfg.meter_color@),
        ),
{
    color::law_colors_have_three_bytes(cfg.text_color@);
    color::law_colors_have_three_bytes(cfg.outline_color@);
    color::law_colors_have_three_bytes(cfg.meter_color@);
    if j > 0 {
        let c = canvas_of(cfg, rows.len(), width, height, dpi, label_width);
        lemma_rows_colors(c, rows, rows.len() as int, j - 1);
    }
}

/// The meter color is the meters' alone: two settings that differ in nothing
/// else draw the same texts and outlines in the same colors, and the same areas
/// each in its own color.
pub proof fn law_meter_color_colors_meters_only(
    rows: Seq<RowModel>,
    a: Config,
    b: Config,
    width: i32,
    height: i32,
    dpi: u32,
    label_width: i32,
    j: int,
)
    requires
        a.meter_width == b.meter_width,
        a.outline_width == b.outline_width,
        a.text_color@ == b.text_color@,
        a.outline_color@ == b.outline_color@,
        0 <= j < paint_ops(rows, a, width, height, dpi, label_width).len(),
    ensures
        ({
            let p = paint_ops(rows, a, width, height, dpi, label_width);
            let q = paint_ops(rows, b, width, height, dpi, label_width);
            &&& p.len() == q.len()
            &&& p[j] is Text ==> q[j] == p[j]
            &&& p[j] matches Op::Polygon { points, color } ==> {
                &&& color == color::color_of(a.meter_color@)
                &&& q[j] matches Op::Polygon { points: other, color: own }
                &&& other == points
                &&& own == color::color_of(b.meter_color@)
            }
            &&& p[j] matches Op::Frame { rect, color, chart } ==> {
                &&& color == color::shade_of(color::color_of(a.meter_color@) as u32, 5)
                &&& q[j] matches Op::Frame { rect: other, color: own, chart: same }
                &&& other == rect
                &&& same == chart
                &&& own == color::shade_of(color::color_of(b.meter_color@) as u32, 5)
            }
        }),
{
    let p = paint_ops(rows, a, width, height, dpi, label_width);
    let q = paint_ops(rows, b, width, height, dpi, label_width);
    law_colors_move_nothing(rows, a, b, width, height, dpi, label_width);
    law_pictures_use_the_configured_colors(rows, a, width, height, dpi, label_width, j);
    law_pictures_use_the_configured_colors(rows, b, width, height, dpi, label_width, j);
    assert(same_shape(p[j], q[j]));
}

/// Row `i` of `count` as it is to be drawn, straight from the settings: its text,
/// or its label, its meter and its percentage. All lengths but the heights of
/// lines and meters are logical pixels scaled by the DPI.
pub open spec fn row_picture(
    row: RowModel,
    i: int,
    count: nat,
    cfg: Config,
    width: i32,
    height: i32,
    dpi: u32,
    label_width: i32,
) -> Seq<Op> {
    let line = height as int / count as int;
    let (top, bottom) = (i * line, i * line + line);
    let start = layout::scaled(8, dpi);
    let meter_left = start + label_width + layout::scaled(6, dpi);
    let meter_right = meter_left + layout::scaled(cfg.meter_width as int, dpi);
    let meter_height = if line * 5 / 9 > 4 {
        line * 5 / 9
    } else {
        4
    };
    let meter_top = top + layout::quot(line - meter_height, 2);
    let meter = draw::rect_of(meter_left, meter_top, meter_right, meter_top + meter_height);
    let text_color = color::color_of(cfg.text_color@) as u32;
    let outline_color = color::color_of(cfg.outline_color@) as u32;
    let meter_color = color::color_of(cfg.meter_color@) as u32;
    let written = |s: Seq<char>, left: int|
        draw::row_text_ops(
            s,
            draw::rect_of(left, top + 4, width - 4, bottom),
            text_color,
            outline_color,
            cfg.outline_width,
        );
    match row {
        RowModel::Text(s) => written(s, start),
        RowModel::Bar { label, percent } => written(label, start) + draw::bar_ops(
            meter,
            percent,
            meter_color,
            color::shade_of(meter_color, 5),
        ) + written(percent_chars(percent), meter_right + layout::scaled(6, dpi)),
        RowModel::Graph { label, percent, history, capacity } => written(label, start)
            + draw::graph_ops(
            meter,
            history,
            capacity,
            meter_color,
            outline_color,
            layout::scaled(5, dpi),
        ) + written(percent_chars(percent), meter_right + layout::scaled(6, dpi)),
    }
}

proof fn lemma_row_picture(
    rows: Seq<RowModel>,
    cfg: Config,
    width: i32,
    height: i32,
    dpi: u32,
    label_width: i32,
    i: int,
)
    requires
        is_painted(rows.len(), width, height),
        paint_fits(rows, cfg, width, height, dpi, label_width),
        rows.len() <= i32::MAX,
        0 <= i < rows.len(),
    ensures
        canvas_of(cfg, rows.len(), width, height, dpi, label_width).row_ops(rows[i], i)
            == row_picture(rows[i], i, rows.len(), cfg, width, height, dpi, label_width),
{
    let c = canvas_of(cfg, rows.len(), width, height, dpi, label_width);
    let count = rows.len() as int;
    assert(0 <= height as int / count <= height) by {
        vstd::arithmetic::div_mod::lemma_div_pos_is_pos(height as int, count);
        vstd::arithmetic::div_mod::lemma_div_is_ordered_by_denominator(height as int, 1, count);
    }
    assert(c.line_height == height as int / count);
    assert(c.top(i) == i * (height as int / count));
    assert(c.pad_left == layout::scaled(8, dpi));
    assert(c.gap == layout::scaled(6, dpi));
    assert(c.grid_cell == layout::scaled(5, dpi));
    assert(c.meter_width == layout::scaled(cfg.meter_width as int, dpi));
}

proof fn lemma_row_is_in_rows(c: Canvas, rows: Seq<RowModel>, n: int, i: int)
    requires
        0 <= i < n <= rows.len(),
    ensures
        c.rows_ops(rows, i).len() + c.row_ops(rows[i], i).len() <= c.rows_ops(rows, n).len(),
        c.rows_ops(rows, n).subrange(
            c.rows_ops(rows, i).len() as int,
            c.rows_ops(rows, i).len() + c.row_ops(rows[i], i).len() as int,
        ) == c.row_ops(rows[i], i),
    decreases n,
{
    let all = c.rows_ops(rows, n);
    let from = c.rows_ops(rows, i).len() as int;
    let to = from + c.row_ops(rows[i], i).len();
    if i < n - 1 {
        lemma_row_is_in_rows(c, rows, n - 1, i);
        assert(all.subrange(from, to) =~= c.rows_ops(rows, n - 1).subrange(from, to));
    } else {
        assert(all.subrange(from, to) =~= c.row_ops(rows[i], i));
    }
}

/// Every row of a picture is drawn whole, in its place, and below the rows
/// before it; texts, areas, bars and grids all have the sizes and colors that
/// the settings give them.
pub proof fn law_rows_are_drawn_as_configured(
    rows: Seq<RowModel>,
    cfg: Config,
    width: i32,
    height: i32,
    dpi: u32,
    label_width: i32,
    i: int,
    k: int,
)
    requires
        width > 0,
        height > 0,
        rows.len() <= i32::MAX,
        paint_fits(rows, cfg, width, height, dpi, label_width),
        0 <= i < k < rows.len(),
    ensures
        ({
            let all = paint_ops(rows, cfg, width, height, dpi, label_width);
            let upper = row_picture(rows[i], i, rows.len(), cfg, width, height, dpi, label_width);
            let lower = row_picture(rows[k], k, rows.len(), cfg, width, height, dpi, label_width);
            exists|a: int, b: int|
                {
                    &&& 1 <= a
                    &&& a + upper.len() <= b
                    &&& b + lower.len() <= all.len()
                    &&& #[trigger] all.subrange(a, a + upper.len()) == upper
                    &&& #[trigger] all.subrange(b, b + lower.len()) == lower
                }
        }),
{
    let c = canvas_of(cfg, rows.len(), width, height, dpi, label_width);
    let n = rows.len() as int;
    let all = paint_ops(rows, cfg, width, height, dpi, label_width);
    let body = c.rows_ops(rows, n);
    lemma_row_picture(rows, cfg, width, height, dpi, label_width, i);
    lemma_row_picture(rows, cfg, width, height, dpi, label_width, k);
    lemma_row_is_in_rows(c, rows, n, i);
    lemma_row_is_in_rows(c, rows, n, k);
    lemma_row_is_in_rows(c, rows, k, i);
    let upper = c.row_ops(rows[i], i);
    let lower = c.row_ops(rows[k], k);
    let a = c.rows_ops(rows, i).len() as int + 1;
    let b = c.rows_ops(rows, k).len() as int + 1;
    assert(all.subrange(a, a + upper.len()) =~= body.subrange(a - 1, a - 1 + upper.len()));
    assert(all.subrange(b, b + lower.len()) =~= body.subrange(b - 1, b - 1 + lower.len()));
}

/// A picture of a single row is that row over the background, and a surface
/// without rows or without room stays empty.
pub proof fn law_a_single_row_is_the_whole_picture(
    row: RowModel,
    cfg: Config,
    width: i32,
    height: i32,
    dpi: u32,
    label_width: i32,
)
    requires
        paint_fits(seq![row], cfg, width, height, dpi, label_width),
    ensures
        ({
            let all = paint_ops(seq![row], cfg, width, height, dpi, label_width);
            if width > 0 && height > 0 {
                &&& all.len() > 0
                &&& all.skip(1) == row_picture(row, 0, 1, cfg, width, height, dpi, label_width)
            } else {
                all.len() == 0
            }
        }),
        paint_ops(Seq::empty(), cfg, width, height, dpi, label_width).len() == 0,
{
    let rows = seq![row];
    if width > 0 && height > 0 {
        let c = canvas_of(cfg, 1, width, height, dpi, label_width);
        lemma_row_picture(rows, cfg, width, height, dpi, label_width, 0);
        reveal_with_fuel(Canvas::rows_ops, 2);
        assert(c.rows_ops(rows, 1) =~= c.row_ops(row, 0));
        assert(paint_ops(rows, cfg, width, height, dpi, label_width).skip(1) =~= c.rows_ops(
            rows,
            1,
        ));
    }
}

proof fn lemma_op_is_of_a_row(c: Canvas, rows: Seq<RowModel>, n: int, j: int)
    requires
        0 <= n <= rows.len(),
        0 <= j < c.rows_ops(rows, n).len(),
    ensures
        exists|i: int, o: int|
            0 <= i < n && 0 <= o < c.row_ops(rows[i], i).len() && c.rows_ops(rows, n)[j]
                == #[trigger] c.row_ops(rows[i], i)[o],
    decreases n,
{
    if n > 0 {
        let before = c.rows_ops(rows, n - 1);
        if j < before.len() {
            lemma_op_is_of_a_row(c, rows, n - 1, j);
        } else {
            let o = j - before.len();
            assert(c.rows_ops(rows, n)[j] == c.row_ops(rows[n - 1], n - 1)[o]);
        }
    }
}

/// Nothing is drawn over the background that does not belong to a row.
pub proof fn law_nothing_but_rows_is_drawn(
    rows: Seq<RowModel>,
    cfg: Config,
    width: i32,
    height: i32,
    dpi: u32,
    label_width: i32,
    j: int,
)
    requires
        rows.len() <= i32::MAX,
        paint_fits(rows, cfg, width, height, dpi, label_width),
        1 <= j < paint_ops(rows, cfg, width, height, dpi, label_width).len(),
    ensures
        exists|i: int, o: int|
            0 <= i < rows.len() && 0 <= o && paint_ops(
                rows,
                cfg,
                width,
                height,
                dpi,
                label_width,
            )[j] == #[trigger] row_picture(
                rows[i],
                i,
                rows.len(),
                cfg,
                width,
                height,
                dpi,
                label_width,
            )[o],
{
    let c = canvas_of(cfg, rows.len(), width, height, dpi, label_width);
    let n = rows.len() as int;
    lemma_op_is_of_a_row(c, rows, n, j - 1);
    let (i, o) = choose|i: int, o: int|
        0 <= i < n && 0 <= o < c.row_ops(rows[i], i).len() && c.rows_ops(rows, n)[j - 1]
            == #[trigger] c.row_ops(rows[i], i)[o];
    lemma_row_picture(rows, cfg, width, height, dpi, label_width, i);
    assert(paint_ops(rows, cfg, width, height, dpi, label_width)[j] == row_picture(
        rows[i],
        i,
        rows.len(),
        cfg,
        width,
        height,
        dpi,
        label_width,
    )[o]);
}

/// A meter is five ninths as high as its row, rounded down, or four pixels if
/// that is more, and has as much of its row above it as below it, give or take
/// a pixel.
pub proof fn law_meters_are_centred_bands(c: Canvas, i: int)
    requires
        c.line_height >= 4,
    ensures
        ({
            let h = c.meter_height();
            let above = c.meter_top(i) - c.top(i);
            let below = c.line_height - h - above;
            &&& h == 4 || 9 * h <= 5 * c.line_height
            &&& h >= 4
            &&& 5 * c.line_height < 9 * h + 9
            &&& 0 <= above <= below <= above + 1
        }),
{
}

/// A meter row is as wide as its label column, its meter and its percentage,
/// with six scaled pixels on either side of the meter.
pub proof fn law_meter_rows_have_a_gap_on_either_side(
    percent_width: int,
    label_width: int,
    meter_width: int,
    dpi: u32,
)
    ensures
        meter_row_width_of(percent_width, label_width, meter_width, dpi) == label_width
            + layout::scaled(6, dpi) + meter_width + layout::scaled(6, dpi) + percent_width,
{
}

/// The label column is as wide as some label and no label is wider, texts not
/// counted; with texts only it has no width.
pub proof fn law_label_column_is_the_widest_label(
    rows: Seq<RowModel>,
    widths: Seq<i32>,
    w: int,
    i: int,
)
    requires
        is_label_column(rows, widths, w),
        0 <= i < rows.len(),
    ensures
        !(rows[i] is Text) ==> widths[i] <= w,
        !(rows[i] is Text) ==> exists|j: int|
            0 <= j < rows.len() && !(#[trigger] rows[j] is Text) && widths[j] == w,
        (forall|j: int| 0 <= j < rows.len() ==> #[trigger] rows[j] is Text) ==> w == 0,
{
    if !(rows[i] is Text) {
        assert(rows[i].label() is Some);
        let j = choose|j: int|
            0 <= j < rows.len() && (#[trigger] rows[j]).label() is Some && widths[j] == w;
        assert(!(rows[j] is Text) && widths[j] == w);
    }
}

proof fn lemma_content_is_a_row(
    rows: Seq<RowModel>,
    text_widths: Seq<i32>,
    label_width: int,
    percent_width: int,
    meter_width: int,
    dpi: u32,
    n: int,
)
    requires
        0 <= n <= rows.len(),
    ensures
        ({
            let w = content_width(
                rows,
                text_widths,
                label_width,
                percent_width,
                meter_width,
                dpi,
                n,
            );
            ||| w == 0
            ||| exists|i: int|
                0 <= i < n && w == #[trigger] row_width_of(
                    rows[i],
                    text_widths[i] as int,
                    label_width,
                    percent_width,
                    meter_width,
                    dpi,
                )
        }),
    decreases n,
{
    if n > 0 {
        lemma_content_is_a_row(
            rows,
            text_widths,
            label_width,
            percent_width,
            meter_width,
            dpi,
            n - 1,
        );
        let last = row_width_of(
            rows[n - 1],
            text_widths[n - 1] as int,
            label_width,
            percent_width,
            meter_width,
            dpi,
        );
    }
}

/// The window stands at the configured corner and is a line high for each row.
/// Between an inset of eight scaled pixels on the left and one of six on the
/// right it is as wide as its widest row needs, and no wider.
pub proof fn law_windows_are_as_large_as_their_contents(
    rows: Seq<RowModel>,
    cfg: Config,
    text_widths: Seq<i32>,
    label_width: int,
    percent_width: int,
    dpi: u32,
    i: int,
)
    requires
        text_widths.len() == rows.len(),
    ensures
        ({
            let window = window_of(rows, cfg, text_widths, label_width, percent_width, dpi);
            let inner = window.2 - layout::scaled(8, dpi) - layout::scaled(6, dpi);
            let meter = label_width + layout::scaled(6, dpi) + layout::scaled(
                cfg.meter_width as int,
                dpi,
            ) + layout::scaled(6, dpi) + percent_width;
            &&& window.0 == layout::scaled(cfg.pos_x as int, dpi)
            &&& window.1 == layout::scaled(cfg.pos_y as int, dpi)
            &&& window.3 == layout::line_height_of(cfg.font_size, dpi) * rows.len()
            &&& inner >= 0
            &&& 0 <= i < rows.len() && rows[i] is Text ==> inner >= text_widths[i]
            &&& 0 <= i < rows.len() && !(rows[i] is Text) ==> inner >= meter
            &&& inner > 0 ==> exists|j: int|
                0 <= j < rows.len() && if #[trigger] rows[j] is Text {
                    inner == text_widths[j]
                } else {
                    inner == meter
                }
        }),
{
    let n = rows.len() as int;
    let m = layout::scaled(cfg.meter_width as int, dpi);
    let w = content_width(rows, text_widths, label_width, percent_width, m, dpi, n);
    lemma_content_is_a_row(rows, text_widths, label_width, percent_width, m, dpi, n);
    lemma_content_is_not_negative(rows, text_widths, label_width, percent_width, m, dpi, n);
    if 0 <= i < n {
        lemma_content_holds_row(rows, text_widths, label_width, percent_width, m, dpi, n, i);
    }
    if w > 0 {
        let j = choose|j: int|
            0 <= j < n && w == #[trigger] row_width_of(
                rows[j],
                text_widths[j] as int,
                label_width,
                percent_width,
                m,
                dpi,
            );
        assert(if rows[j] is Text {
            w == text_widths[j]
        } else {
            w == meter_row_width_of(percent_width, label_width, m, dpi)
        });
    }
}

proof fn lemma_content_is_not_negative(
    rows: Seq<RowModel>,
    text_widths: Seq<i32>,
    label_width: int,
    percent_width: int,
    meter_width: int,
    dpi: u32,
    n: int,
)
    ensures
        content_width(rows, text_widths, label_width, percent_width, meter_width, dpi, n) >= 0,
    decreases n,
{
    if n > 0 {
        lemma_content_is_not_negative(
            rows,
            text_widths,
            label_width,
            percent_width,
            meter_width,
            dpi,
            n - 1,
        );
    }
}

/// A row says what it holds, and a list of rows what its rows say in order.
pub proof fn law_rows_say_what_they_hold(rows: Seq<Row>, i: int)
    requires
        0 <= i < rows.len(),
    ensures
        model(rows).len() == rows.len(),
        rows[i] matches Row::Text(t) ==> model(rows)[i] == RowModel::Text(t@),
        rows[i] matches Row::Bar { label, percent } ==> model(rows)[i] == (RowModel::Bar {
            label: label@,
            percent,
        }),
        rows[i] matches Row::Graph { label, percent, history, capacity } ==> model(rows)[i] == (
        RowModel::Graph { label: label@, percent, history: history@, capacity }),
{
}

/// Whether a row is of everyday size: a chart is scaled for two to a thousand
/// samples and holds no more than a thousand.
pub open spec fn is_everyday_row(row: RowModel) -> bool {
    row matches RowModel::Graph { history, capacity, .. } ==> 2 <= capacity <= 1000
        && history.len() <= 1000
}

proof fn lemma_everyday_chart_fits(rect: Rect, history: Seq<u32>, capacity: usize)
    requires
        0 <= rect.left <= rect.right <= 1_000_000,
        rect.right - rect.left <= 100_000,
        0 <= rect.bottom - rect.top <= 100_000,
        2 <= capacity <= 1000,
        history.len() <= 1000,
    ensures
        draw::graph_fits(rect, history, capacity),
{
    let (w, h) = (rect.right - rect.left, rect.bottom - rect.top);
    assert forall|i: int| 0 <= i < history.len() implies draw::sample_fits(
        rect,
        #[trigger] history[i],
        history.len() - 1 - i,
        capacity,
    ) by {
        let age = history.len() - 1 - i;
        assert(0 <= age * w <= 1000 * 100_000) by (nonlinear_arith)
            requires
                0 <= age <= 1000,
                0 <= w <= 100_000,
        ;
        let m = draw::min_100(history[i]);
        assert(0 <= m * h <= 100 * 100_000) by (nonlinear_arith)
            requires
                0 <= m <= 100,
                0 <= h <= 100_000,
        ;
        assert(0 <= age * w / (capacity - 1) <= age * w) by {
            vstd::arithmetic::div_mod::lemma_div_pos_is_pos(age * w, capacity - 1);
            vstd::arithmetic::div_mod::lemma_div_is_ordered_by_denominator(
                age * w,
                1,
                capacity - 1,
            );
        }
    }
}

proof fn lemma_everyday_row_fits(c: Canvas, row: RowModel, i: int)
    requires
        0 < c.width <= 100_000,
        0 <= c.line_height <= 100_000,
        0 <= i <= i32::MAX,
        0 <= i * c.line_height <= 100_000,
        0 <= c.pad_left <= 80,
        0 <= c.gap <= 60,
        0 <= c.meter_width <= 100_000,
        0 <= c.label_width <= 100_000,
        c.outline_width <= 1000,
        is_everyday_row(row),
    ensures
        c.row_fits(row, i),
{
    assert(c.top(i) == i * c.line_height);
    let rect = c.meter_rect(i);
    assert(rect.left == c.meter_left() && rect.right == c.meter_right());
    assert(rect.top == c.meter_top(i) && rect.bottom == c.meter_top(i) + c.meter_height());
    match row {
        RowModel::Graph { history, capacity, .. } => {
            lemma_everyday_chart_fits(rect, history, capacity);
        },
        RowModel::Bar { percent, .. } => {
            if let Some(p) = percent {
                let w = rect.right - rect.left;
                let m = draw::min_100(p);
                assert(0 <= w * m <= 100_000 * 100) by (nonlinear_arith)
                    requires
                        0 <= m <= 100,
                        0 <= w <= 100_000,
                ;
            }
        },
        RowModel::Text(_) => {},
    }
}

/// Pictures of everyday size can be drawn: up to ten times the base scale, a
/// hundred thousand pixels a side, and a thousand pixels of outline.
pub proof fn law_everyday_pictures_can_be_drawn(
    rows: Seq<RowModel>,
    cfg: Config,
    width: i32,
    height: i32,
    dpi: u32,
    label_width: i32,
)
    requires
        width <= 100_000,
        height <= 100_000,
        dpi <= 960,
        0 <= label_width <= 100_000,
        0 <= cfg.meter_width <= 10_000,
        cfg.outline_width <= 1000,
        rows.len() <= i32::MAX,
        forall|i: int| 0 <= i < rows.len() ==> is_everyday_row(#[trigger] rows[i]),
    ensures
        paint_fits(rows, cfg, width, height, dpi, label_width),
{
    if is_painted(rows.len(), width, height) {
        let c = canvas_of(cfg, rows.len(), width, height, dpi, label_width);
        let count = rows.len() as int;
        let line = height as int / count;
        layout::law_everyday_lengths_can_be_scaled(8, dpi);
        layout::law_everyday_lengths_can_be_scaled(6, dpi);
        layout::law_everyday_lengths_can_be_scaled(5, dpi);
        layout::law_everyday_lengths_can_be_scaled(cfg.meter_width as int, dpi);
        layout::law_scaling_keeps_the_sign(8, dpi);
        layout::law_scaling_keeps_the_sign(6, dpi);
        layout::law_scaling_keeps_the_sign(cfg.meter_width as int, dpi);
        assert(0 <= line && count * line <= height) by {
            vstd::arithmetic::div_mod::lemma_div_pos_is_pos(height as int, count);
            vstd::arithmetic::div_mod::lemma_fundamental_div_mod(height as int, count);
            vstd::arithmetic::div_mod::lemma_mod_bound(height as int, count);
        }
        assert(line <= count * line) by (nonlinear_arith)
            requires
                line >= 0,
                count >= 1,
        ;
        assert(c.line_height == line);
        assert forall|i: int| 0 <= i < rows.len() implies c.row_fits(#[trigger] rows[i], i) by {
            assert(0 <= i * line <= count * line) by (nonlinear_arith)
                requires
                    0 <= i < count,
                    line >= 0,
            ;
            lemma_everyday_row_fits(c, rows[i], i);
        }
    }
}

proof fn lemma_everyday_content(
    rows: Seq<RowModel>,
    text_widths: Seq<i32>,
    label_width: int,
    percent_width: int,
    meter_width: int,
    dpi: u32,
    n: int,
)
    requires
        dpi <= 960,
        0 <= n <= rows.len(),
        text_widths.len() == rows.len(),
        forall|i: int| 0 <= i < rows.len() ==> #[trigger] text_widths[i] <= 1_000_000,
        label_width + percent_width + meter_width <= 1_000_000,
    ensures
        content_width(rows, text_widths, label_width, percent_width, meter_width, dpi, n)
            <= 1_000_120,
    decreases n,
{
    if n > 0 {
        layout::law_everyday_lengths_can_be_scaled(6, dpi);
        assert(text_widths[n - 1] <= 1_000_000);
        lemma_everyday_content(
            rows,
            text_widths,
            label_width,
            percent_width,
            meter_width,
            dpi,
            n - 1,
        );
    }
}

/// Windows of everyday size can be placed: a thousand rows of up to a hundred
/// thousand pixels, anywhere on a hundred thousand logical pixels, at up to ten
/// times the base scale.
pub proof fn law_everyday_windows_can_be_placed(
    rows: Seq<RowModel>,
    cfg: Config,
    text_widths: Seq<i32>,
    label_width: int,
    percent_width: int,
    dpi: u32,
)
    requires
        dpi <= 960,
        rows.len() <= 1000,
        text_widths.len() == rows.len(),
        forall|i: int| 0 <= i < rows.len() ==> 0 <= #[trigger] text_widths[i] <= 100_000,
        0 <= label_width <= 100_000,
        0 <= percent_width <= 100_000,
        0 <= cfg.meter_width <= 10_000,
        -100_000 <= cfg.pos_x <= 100_000,
        -100_000 <= cfg.pos_y <= 100_000,
        0 <= cfg.font_size <= 10_000,
    ensures
        window_fits(rows, cfg, text_widths, label_width, percent_width, dpi),
{
    let meter_width = layout::scaled(cfg.meter_width as int, dpi);
    layout::law_everyday_lengths_can_be_scaled(cfg.pos_x as int, dpi);
    layout::law_everyday_lengths_can_be_scaled(cfg.pos_y as int, dpi);
    layout::law_everyday_lengths_can_be_scaled(8, dpi);
    layout::law_everyday_lengths_can_be_scaled(6, dpi);
    layout::law_everyday_lengths_can_be_scaled(cfg.meter_width as int, dpi);
    layout::law_scaling_keeps_the_sign(6, dpi);
    layout::law_scaling_keeps_the_sign(8, dpi);
    layout::law_scaling_keeps_the_sign(cfg.meter_width as int, dpi);
    layout::law_everyday_fonts_have_a_line_height(cfg.font_size, dpi);
    let line = layout::line_height_of(cfg.font_size, dpi);
    let count = rows.len() as int;
    assert(0 <= line * count <= 150_000 * 1000) by (nonlinear_arith)
        requires
            0 <= line <= 150_000,
            0 <= count <= 1000,
    ;
    lemma_everyday_content(
        rows,
        text_widths,
        label_width,
        percent_width,
        meter_width,
        dpi,
        rows.len() as int,
    );
    lemma_content_is_not_negative(
        rows,
        text_widths,
        label_width,
        percent_width,
        meter_width,
        dpi,
        rows.len() as int,
    );
}

} // verus!
