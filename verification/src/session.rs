//! The controller session: reset/init protocol and the draw target.
//!
//! A session owns the bus exclusively and records every bus operation it
//! issues in an append-only trace.  The reset/init protocol walks the
//! phase machine `Unpowered -> HardwareReset -> CommandProgrammed ->
//! Ready`; every drawing operation requires the `Ready` phase and appends
//! a fixed, fully specified run of operations to the trace.

use vstd::prelude::*;
use crate::color::Rgb565;
use crate::geom::Point;
use crate::geom::Rect;
use crate::geom::PANEL_W;
use crate::geom::PANEL_H;
use crate::font::FONT_W;
use crate::font::FONT_H;
use crate::font::glyph;
use crate::font::glyph_bit;
use crate::font::spec_glyph;
use crate::font::spec_glyph_bit;
use crate::link::BusOp;
use crate::link::OpModel;
use crate::link::CMD_SET_COLUMN;
use crate::link::CMD_SET_ROW;
use crate::link::CMD_WRITE_RAM;

verus! {

/// Where the session stands in the reset/init protocol.
#[derive(Clone, Copy, Debug, PartialEq, Eq, Structural)]
pub enum Phase {
    /// Nothing has been done to the controller yet.
    Unpowered,
    /// The reset line has been pulsed and the settle wait has elapsed.
    HardwareReset,
    /// The fixed initialization commands have been issued.
    CommandProgrammed,
    /// The panel accepts drawing operations.
    Ready,
}

/// How long the reset line is held low, in microseconds.
pub const RESET_HOLD_US: u32 = 10000;

/// The datasheet minimum for the reset-low hold, in microseconds.
pub const RESET_HOLD_MIN_US: u32 = 2;

/// How long the driver waits after releasing reset before the first
/// command, in microseconds.
pub const RESET_SETTLE_US: u32 = 300000;

/// The datasheet minimum for the post-reset wait, in microseconds.
pub const RESET_SETTLE_MIN_US: u32 = 100000;

/// Display-off opcode.
pub const CMD_DISPLAY_OFF: u8 = 0xAE;

/// Display-on opcode.
pub const CMD_DISPLAY_ON: u8 = 0xAF;

/// The connected-and-initialized state of the panel: the phase machine,
/// the background color the panel was last cleared to, and the trace of
/// bus operations issued so far.
pub struct Session {
    pub phase: Phase,
    pub background: Rgb565,
    pub ops: Vec<BusOp>,
}

/// The bus operations of the hardware-reset step: pulse the reset line
/// low, hold, release, and wait before the first command.
pub open spec fn reset_ops() -> Seq<OpModel> {
    seq![
        OpModel::ResetLow,
        OpModel::DelayUs(RESET_HOLD_US),
        OpModel::ResetHigh,
        OpModel::DelayUs(RESET_SETTLE_US),
    ]
}

/// The fixed initialization command sequence, in issue order: display
/// off, remap/color depth, start line, display offset, per-channel
/// contrast, master contrast, precharge, deselect level, normal display.
pub open spec fn init_command_ops() -> Seq<OpModel> {
    seq![
        OpModel::Command(CMD_DISPLAY_OFF, Seq::<u8>::empty()),
        OpModel::Command(0xA0, seq![0x74u8]),
        OpModel::Command(0xA1, seq![0x00u8]),
        OpModel::Command(0xA2, seq![0x00u8]),
        OpModel::Command(0xC1, seq![0xC8u8, 0x80u8, 0xC8u8]),
        OpModel::Command(0xC7, seq![0x0Fu8]),
        OpModel::Command(0xB1, seq![0x32u8]),
        OpModel::Command(0xBE, seq![0x05u8]),
        OpModel::Command(0xA6, Seq::<u8>::empty()),
    ]
}

/// The single display-on command that ends initialization.
pub open spec fn display_on_ops() -> Seq<OpModel> {
    seq![OpModel::Command(CMD_DISPLAY_ON, Seq::<u8>::empty())]
}

/// Everything a full (re)initialization issues, in order.
pub open spec fn full_init_ops() -> Seq<OpModel> {
    reset_ops() + init_command_ops() + display_on_ops()
}

/// The three commands that program the addressing window to `r`:
/// column span, row span, then write-RAM.
pub open spec fn window_ops(r: Rect) -> Seq<OpModel>
    recommends
        r.wf(),
        !r.is_degenerate(),
{
    seq![
        OpModel::Command(CMD_SET_COLUMN, seq![r.x, (r.x + r.w - 1) as u8]),
        OpModel::Command(CMD_SET_ROW, seq![r.y, (r.y + r.h - 1) as u8]),
        OpModel::Command(CMD_WRITE_RAM, Seq::<u8>::empty()),
    ]
}

/// `n` repetitions of the two-byte wire encoding of `c`.
pub open spec fn solid_bytes(c: Rgb565, n: int) -> Seq<u8> {
    Seq::new((2 * n) as nat, |i: int| if i % 2 == 0 { c.hi_byte() } else { c.lo_byte() })
}

/// The operations of filling `r` with `c`: program the window to `r`,
/// then stream one pixel encoding per covered pixel.  A degenerate
/// rectangle issues nothing.
pub open spec fn fill_ops(r: Rect, c: Rgb565) -> Seq<OpModel> {
    if r.is_degenerate() {
        Seq::<OpModel>::empty()
    } else {
        window_ops(r) + seq![OpModel::Data(solid_bytes(c, r.w * r.h))]
    }
}

/// The operations of a full-panel clear.
pub open spec fn clear_ops(c: Rgb565) -> Seq<OpModel> {
    fill_ops(Rect { x: 0, y: 0, w: PANEL_W, h: PANEL_H }, c)
}

impl Session {
    /// The mathematical value of the trace: every bus operation issued
    /// so far, oldest first.
    pub open spec fn trace(self) -> Seq<OpModel> {
        self.ops@.map_values(|o: BusOp| o@)
    }

    /// The background color is always a well-formed color.
    pub open spec fn wf(self) -> bool {
        self.background.wf()
    }

    /// A fresh session: nothing issued, panel untouched.
    pub fn new() -> (s: Session)
        ensures
            s.wf(),
            s.phase == Phase::Unpowered,
            s.trace() == Seq::<OpModel>::empty(),
            s.background == (Rgb565 { r5: 0, g6: 0, b5: 0 }),
    {
        let s = Session { phase: Phase::Unpowered, background: Rgb565::black(), ops: Vec::new() };
        proof {
            assert(s.trace() =~= Seq::<OpModel>::empty());
        }
        s
    }

    /// Appends one operation to the trace.
    fn push_op(&mut self, op: BusOp)
        ensures
            final(self).trace() == old(self).trace().push(op@),
            final(self).phase == old(self).phase,
            final(self).background == old(self).background,
    {
        let ghost pre = self.trace();
        let ghost opv = op@;
        self.ops.push(op);
        proof {
            assert(self.trace() =~= pre.push(opv));
        }
    }

    /// Sends `params` as a command transfer: mode-select low, then the
    /// opcode byte and the parameter bytes.
    pub fn send_command(&mut self, opcode: u8, params: Vec<u8>)
        ensures
            final(self).trace() == old(self).trace().push(OpModel::Command(opcode, params@)),
            final(self).phase == old(self).phase,
            final(self).background == old(self).background,
    {
        self.push_op(BusOp::Command(opcode, params));
    }

    /// Sends `bytes` as a data transfer: mode-select high, then the bytes.
    pub fn send_data(&mut self, bytes: Vec<u8>)
        ensures
            final(self).trace() == old(self).trace().push(OpModel::Data(bytes@)),
            final(self).phase == old(self).phase,
            final(self).background == old(self).background,
    {
        self.push_op(BusOp::Data(bytes));
    }

    /// Pulses the reset line: low, hold, high, settle.  Legal from every
    /// phase, so a full reinitialization from `Ready` repeats exactly the
    /// same operations.
    pub fn hardware_reset(&mut self)
        requires
            old(self).wf(),
        ensures
            final(self).wf(),
            final(self).phase == Phase::HardwareReset,
            final(self).trace() == old(self).trace() + reset_ops(),
            final(self).background == old(self).background,
    {
        self.push_op(BusOp::ResetLow);
        self.push_op(BusOp::DelayUs(RESET_HOLD_US));
        self.push_op(BusOp::ResetHigh);
        self.push_op(BusOp::DelayUs(RESET_SETTLE_US));
        self.phase = Phase::HardwareReset;
        proof {
            assert(self.trace() =~= old(self).trace() + reset_ops());
        }
    }

    /// Issues the fixed initialization command sequence, in its fixed
    /// order, with no branching.
    pub fn program_init(&mut self)
        requires
            old(self).wf(),
            old(self).phase == Phase::HardwareReset,
        ensures
            final(self).wf(),
            final(self).phase == Phase::CommandProgrammed,
            final(self).trace() == old(self).trace() + init_command_ops(),
            final(self).background == old(self).background,
    {
        self.send_command(CMD_DISPLAY_OFF, Vec::new());
        self.send_command(0xA0, params1(0x74));
        self.send_command(0xA1, params1(0x00));
        self.send_command(0xA2, params1(0x00));
        self.send_command(0xC1, params3(0xC8, 0x80, 0xC8));
        self.send_command(0xC7, params1(0x0F));
        self.send_command(0xB1, params1(0x32));
        self.send_command(0xBE, params1(0x05));
        self.send_command(0xA6, Vec::new());
        self.phase = Phase::CommandProgrammed;
        proof {
            assert(self.trace() =~~= old(self).trace() + init_command_ops());
        }
    }

    /// Turns the display on; the session is then ready to draw.
    pub fn display_on(&mut self)
        requires
            old(self).wf(),
            old(self).phase == Phase::CommandProgrammed,
        ensures
            final(self).wf(),
            final(self).phase == Phase::Ready,
            final(self).trace() == old(self).trace() + display_on_ops(),
            final(self).background == old(self).background,
    {
        self.send_command(CMD_DISPLAY_ON, Vec::new());
        self.phase = Phase::Ready;
        proof {
            assert(self.trace() =~~= old(self).trace() + display_on_ops());
        }
    }

    /// Runs the whole reset/init protocol: hardware reset, the fixed
    /// command sequence, then display-on.  Legal from every phase, and
    /// issues the same operations every time it runs.
    pub fn initialize(&mut self)
        requires
            old(self).wf(),
        ensures
            final(self).wf(),
            final(self).phase == Phase::Ready,
            final(self).trace() == old(self).trace() + full_init_ops(),
            final(self).background == old(self).background,
    {
        self.hardware_reset();
        self.program_init();
        self.display_on();
        proof {
            assert(self.trace() =~~= old(self).trace() + full_init_ops());
        }
    }

    /// Fills `r` with `c`: programs the addressing window to `r`, then
    /// streams one two-byte pixel encoding per covered pixel, row-major.
    /// A degenerate rectangle issues nothing.
    pub fn fill_rect(&mut self, r: Rect, c: Rgb565)
        requires
            old(self).wf(),
            old(self).phase == Phase::Ready,
            r.wf(),
            c.wf(),
        ensures
            final(self).wf(),
            final(self).phase == Phase::Ready,
            final(self).trace() == old(self).trace() + fill_ops(r, c),
            final(self).background == old(self).background,
    {
        if r.w == 0 || r.h == 0 {
            proof {
                assert(self.trace() =~= old(self).trace() + fill_ops(r, c));
            }
        } else {
            self.send_command(CMD_SET_COLUMN, params2(r.x, r.x + r.w - 1));
            self.send_command(CMD_SET_ROW, params2(r.y, r.y + r.h - 1));
            self.send_command(CMD_WRITE_RAM, Vec::new());
            proof {
                assert(r.w * r.h <= 16384) by (nonlinear_arith)
                    requires
                        r.w <= 128,
                        r.h <= 128,
                ;
            }
            let n: usize = r.w as usize * r.h as usize;
            let (hi, lo) = c.to_bytes();
            let mut data: Vec<u8> = Vec::new();
            let mut i: usize = 0;
            while i < n
                invariant
                    0 <= i <= n,
                    n == r.w * r.h,
                    c.wf(),
                    hi == c.hi_byte(),
                    lo == c.lo_byte(),
                    data@ == solid_bytes(c, i as int),
                decreases n - i,
            {
                data.push(hi);
                data.push(lo);
                proof {
                    assert(data@ =~= solid_bytes(c, i + 1));
                }
                i = i + 1;
            }
            self.send_data(data);
            proof {
                assert(self.trace() =~~= old(self).trace() + fill_ops(r, c));
            }
        }
    }

    /// Sets every pixel of the panel to `c` and records `c` as the
    /// session background: the window is programmed to the full panel
    /// extent once, then width times height pixel encodings follow.
    pub fn clear(&mut self, c: Rgb565)
        requires
            old(self).wf(),
            old(self).phase == Phase::Ready,
            c.wf(),
        ensures
            final(self).wf(),
            final(self).phase == Phase::Ready,
            final(self).trace() == old(self).trace() + clear_ops(c),
            final(self).background == c,
    {
        self.background = c;
        self.fill_rect(Rect { x: 0, y: 0, w: PANEL_W, h: PANEL_H }, c);
    }
}

/// Where a stroke stands relative to the rectangle boundary.
#[derive(Clone, Copy, Debug, PartialEq, Eq, Structural)]
pub enum StrokeAlign {
    /// The stroke lies entirely within the rectangle.
    Inside,
    /// The stroke straddles the boundary, half in and half out.
    Center,
    /// The stroke lies entirely outside the rectangle.
    Outside,
}

/// Text layout reference: `Top` anchors the glyph cell's top edge at the
/// given origin.
#[derive(Clone, Copy, Debug, PartialEq, Eq, Structural)]
pub enum Baseline {
    Top,
}

/// Stroke and fill configuration for a rectangle; at most one of the two
/// may be absent.
#[derive(Clone, Copy, Debug)]
pub struct Style {
    pub fill: Option<Rgb565>,
    pub stroke: Option<Rgb565>,
    pub stroke_width: u8,
    pub align: StrokeAlign,
}

impl Style {
    pub open spec fn wf(self) -> bool {
        &&& (self.fill is Some || self.stroke is Some)
        &&& (self.fill matches Some(c) ==> c.wf())
        &&& (self.stroke matches Some(c) ==> c.wf() && self.stroke_width >= 1)
    }

    /// The same style with the fill omitted.
    pub open spec fn spec_without_fill(self) -> Style {
        Style { fill: None, stroke: self.stroke, stroke_width: self.stroke_width, align: self.align }
    }

    /// A fill with no stroke.
    pub fn fill_only(c: Rgb565) -> (s: Style)
        ensures
            s == (Style { fill: Some(c), stroke: None, stroke_width: 0, align: StrokeAlign::Inside }),
    {
        Style { fill: Some(c), stroke: None, stroke_width: 0, align: StrokeAlign::Inside }
    }

    /// A stroke with no fill.
    pub fn stroke_only(c: Rgb565, width: u8, align: StrokeAlign) -> (s: Style)
        ensures
            s == (Style { fill: None, stroke: Some(c), stroke_width: width, align: align }),
    {
        Style { fill: None, stroke: Some(c), stroke_width: width, align: align }
    }
}

/// How far the outermost stroke ring extends beyond the rectangle: not
/// at all for an inside stroke, the whole width for an outside stroke,
/// half the width for a centered one.
pub open spec fn align_out(a: StrokeAlign, sw: int) -> int {
    match a {
        StrokeAlign::Inside => 0,
        StrokeAlign::Center => sw / 2,
        StrokeAlign::Outside => sw,
    }
}

/// Every stroke ring lies on the panel and has a positive extent.
pub open spec fn stroke_ok(r: Rect, sw: int, a: StrokeAlign) -> bool {
    let out = align_out(a, sw);
    &&& sw >= 1
    &&& r.w >= 1
    &&& r.h >= 1
    &&& r.x - out >= 0
    &&& r.y - out >= 0
    &&& r.x + r.w + out <= PANEL_W
    &&& r.y + r.h + out <= PANEL_H
    &&& r.w + 2 * (out - (sw - 1)) >= 1
    &&& r.h + 2 * (out - (sw - 1)) >= 1
}

/// The rectangle boundary expanded on all sides by `e` pixels (a
/// negative `e` shrinks it).
pub open spec fn ring_rect(r: Rect, e: int) -> Rect {
    Rect {
        x: (r.x - e) as u8,
        y: (r.y - e) as u8,
        w: (r.w + 2 * e) as u8,
        h: (r.h + 2 * e) as u8,
    }
}

/// The top edge strip of a one-pixel ring around `q`.
pub open spec fn ring_top(q: Rect) -> Rect {
    Rect { x: q.x, y: q.y, w: q.w, h: 1 }
}

/// The bottom edge strip; degenerate when `q` is a single row.
pub open spec fn ring_bottom(q: Rect) -> Rect {
    Rect { x: q.x, y: (q.y + q.h - 1) as u8, w: if q.h >= 2 { q.w } else { 0u8 }, h: 1 }
}

/// The left edge strip between the top and bottom rows.
pub open spec fn ring_left(q: Rect) -> Rect {
    Rect {
        x: q.x,
        y: (q.y + 1) as u8,
        w: 1,
        h: if q.h >= 2 { (q.h - 2) as u8 } else { 0u8 },
    }
}

/// The right edge strip; degenerate when `q` is a single column.
pub open spec fn ring_right(q: Rect) -> Rect {
    Rect {
        x: (q.x + q.w - 1) as u8,
        y: (q.y + 1) as u8,
        w: if q.w >= 2 { 1u8 } else { 0u8 },
        h: if q.h >= 2 { (q.h - 2) as u8 } else { 0u8 },
    }
}

/// The operations of one one-pixel ring: four edge strips, each a fill.
pub open spec fn ring_ops(q: Rect, c: Rgb565) -> Seq<OpModel> {
    fill_ops(ring_top(q), c) + fill_ops(ring_bottom(q), c) + fill_ops(ring_left(q), c)
        + fill_ops(ring_right(q), c)
}

/// The operations of the first `k` stroke rings, outermost first; ring
/// `j` sits at expansion `out - j`.
pub open spec fn rings_upto(r: Rect, c: Rgb565, k: int, out: int) -> Seq<OpModel>
    decreases k,
{
    if k <= 0 {
        Seq::<OpModel>::empty()
    } else {
        rings_upto(r, c, k - 1, out) + ring_ops(ring_rect(r, out - (k - 1)), c)
    }
}

/// The fill operations a style issues on `r`: none when no fill is set.
pub open spec fn fill_part(r: Rect, style: Style) -> Seq<OpModel> {
    match style.fill {
        Some(c) => fill_ops(r, c),
        None => Seq::<OpModel>::empty(),
    }
}

/// The stroke operations a style issues on `r`: none when no stroke is
/// set, otherwise `stroke_width` concentric rings placed per alignment.
pub open spec fn stroke_part(r: Rect, style: Style) -> Seq<OpModel> {
    match style.stroke {
        Some(c) => rings_upto(
            r,
            c,
            style.stroke_width as int,
            align_out(style.align, style.stroke_width as int),
        ),
        None => Seq::<OpModel>::empty(),
    }
}

/// Everything a styled rectangle issues: the fill stream first, then the
/// stroke, so the stroke is never overwritten.
pub open spec fn rect_draw_ops(r: Rect, style: Style) -> Seq<OpModel> {
    fill_part(r, style) + stroke_part(r, style)
}

/// The pixel data of one glyph cell: row-major, two bytes per pixel; a
/// set bit emits the text color, a clear bit emits the background.
pub open spec fn glyph_data(c: u8, fg: Rgb565, bg: Rgb565) -> Seq<u8> {
    Seq::new(
        128,
        |i: int|
            if spec_glyph_bit(spec_glyph(c), (i / 2) / 8, (i / 2) % 8) {
                if i % 2 == 0 {
                    fg.hi_byte()
                } else {
                    fg.lo_byte()
                }
            } else {
                if i % 2 == 0 {
                    bg.hi_byte()
                } else {
                    bg.lo_byte()
                }
            },
    )
}

/// The destination cell of a glyph whose top-left corner is `(x, y)`.
pub open spec fn glyph_cell(x: int, y: int) -> Rect {
    Rect { x: x as u8, y: y as u8, w: FONT_W, h: FONT_H }
}

/// The operations of one glyph: window to its cell, then its pixel data.
pub open spec fn glyph_ops(c: u8, x: int, y: int, fg: Rgb565, bg: Rgb565) -> Seq<OpModel> {
    window_ops(glyph_cell(x, y)) + seq![OpModel::Data(glyph_data(c, fg, bg))]
}

/// The operations of the first `n` glyphs of `s`, drawn left to right
/// from `(x, y)` in fixed-width cells.
pub open spec fn text_ops_upto(s: Seq<u8>, n: int, x: int, y: int, fg: Rgb565, bg: Rgb565) -> Seq<
    OpModel,
>
    decreases n,
{
    if n <= 0 {
        Seq::<OpModel>::empty()
    } else {
        text_ops_upto(s, n - 1, x, y, fg, bg) + glyph_ops(
            s[n - 1],
            x + FONT_W * (n - 1),
            y,
            fg,
            bg,
        )
    }
}

/// The operations of a whole text run.
pub open spec fn text_ops(s: Seq<u8>, x: int, y: int, fg: Rgb565, bg: Rgb565) -> Seq<OpModel> {
    text_ops_upto(s, s.len() as int, x, y, fg, bg)
}

impl Session {
    /// Draws the four one-pixel edge strips of `q`.
    fn outline_rect(&mut self, q: Rect, c: Rgb565)
        requires
            old(self).wf(),
            old(self).phase == Phase::Ready,
            q.wf(),
            q.w >= 1,
            q.h >= 1,
            c.wf(),
        ensures
            final(self).wf(),
            final(self).phase == Phase::Ready,
            final(self).trace() == old(self).trace() + ring_ops(q, c),
            final(self).background == old(self).background,
    {
        let top = Rect { x: q.x, y: q.y, w: q.w, h: 1 };
        let bottom = Rect {
            x: q.x,
            y: q.y + q.h - 1,
            w: if q.h >= 2 { q.w } else { 0 },
            h: 1,
        };
        let inner_h: u8 = if q.h >= 2 { q.h - 2 } else { 0 };
        let left = Rect { x: q.x, y: q.y + 1, w: 1, h: inner_h };
        let right = Rect {
            x: q.x + q.w - 1,
            y: q.y + 1,
            w: if q.w >= 2 { 1 } else { 0 },
            h: inner_h,
        };
        proof {
            assert(top == ring_top(q));
            assert(bottom == ring_bottom(q));
            assert(left == ring_left(q));
            assert(right == ring_right(q));
            assert(top.wf() && bottom.wf() && left.wf() && right.wf());
        }
        self.fill_rect(top, c);
        self.fill_rect(bottom, c);
        self.fill_rect(left, c);
        self.fill_rect(right, c);
        proof {
            assert(self.trace() =~= old(self).trace() + ring_ops(q, c));
        }
    }

    /// Draws a styled rectangle: the fill stream first (if a fill is
    /// set), then the stroke rings (if a stroke is set), placed per the
    /// stroke alignment.
    pub fn draw_rectangle(&mut self, r: Rect, style: Style)
        requires
            old(self).wf(),
            old(self).phase == Phase::Ready,
            r.wf(),
            style.wf(),
            style.stroke is Some ==> stroke_ok(r, style.stroke_width as int, style.align),
        ensures
            final(self).wf(),
            final(self).phase == Phase::Ready,
            final(self).trace() == old(self).trace() + rect_draw_ops(r, style),
            final(self).background == old(self).background,
    {
        match style.fill {
            Some(c) => {
                self.fill_rect(r, c);
            },
            None => {},
        }
        let ghost base = self.trace();
        proof {
            assert(base =~= old(self).trace() + fill_part(r, style));
        }
        match style.stroke {
            Some(c) => {
                let sw = style.stroke_width;
                let out: i32 = match style.align {
                    StrokeAlign::Inside => 0,
                    StrokeAlign::Center => (sw / 2) as i32,
                    StrokeAlign::Outside => sw as i32,
                };
                proof {
                    assert(out == align_out(style.align, sw as int));
                }
                let mut k: u8 = 0;
                while k < sw
                    invariant
                        k <= sw,
                        sw == style.stroke_width,
                        style.stroke == Some(c),
                        c.wf(),
                        r.wf(),
                        self.wf(),
                        self.phase == Phase::Ready,
                        self.background == old(self).background,
                        out == align_out(style.align, sw as int),
                        stroke_ok(r, sw as int, style.align),
                        self.trace() == base + rings_upto(r, c, k as int, out as int),
                    decreases sw - k,
                {
                    let e: i32 = out - k as i32;
                    proof {
                        assert(out - (sw - 1) <= e <= out);
                        assert(r.x as i32 - e >= 0 && r.x as int - e + (r.w + 2 * e) <= 128);
                        assert(r.y as i32 - e >= 0 && r.y as int - e + (r.h + 2 * e) <= 128);
                        assert(r.w + 2 * e >= 1 && r.h + 2 * e >= 1);
                    }
                    let q = Rect {
                        x: (r.x as i32 - e) as u8,
                        y: (r.y as i32 - e) as u8,
                        w: (r.w as i32 + 2 * e) as u8,
                        h: (r.h as i32 + 2 * e) as u8,
                    };
                    proof {
                        assert(q == ring_rect(r, e as int));
                        assert(q.wf());
                    }
                    self.outline_rect(q, c);
                    k = k + 1;
                    proof {
                        assert(self.trace() =~= base + rings_upto(r, c, k as int, out as int));
                    }
                }
                proof {
                    assert(self.trace() =~= old(self).trace() + rect_draw_ops(r, style));
                }
            },
            None => {
                proof {
                    assert(self.trace() =~= old(self).trace() + rect_draw_ops(r, style));
                }
            },
        }
    }

    /// Draws a border around the full panel extent: the given style with
    /// its fill omitted, applied to the whole panel.
    pub fn draw_border(&mut self, style: Style)
        requires
            old(self).wf(),
            old(self).phase == Phase::Ready,
            style.wf(),
            style.stroke is Some,
            stroke_ok(
                Rect { x: 0, y: 0, w: PANEL_W, h: PANEL_H },
                style.stroke_width as int,
                style.align,
            ),
        ensures
            final(self).wf(),
            final(self).phase == Phase::Ready,
            final(self).trace() == old(self).trace() + rect_draw_ops(
                Rect { x: 0, y: 0, w: PANEL_W, h: PANEL_H },
                style.spec_without_fill(),
            ),
            final(self).background == old(self).background,
    {
        let bare = Style {
            fill: None,
            stroke: style.stroke,
            stroke_width: style.stroke_width,
            align: style.align,
        };
        self.draw_rectangle(Rect { x: 0, y: 0, w: PANEL_W, h: PANEL_H }, bare);
    }

    /// Draws one glyph cell: window to the cell, then two bytes per
    /// pixel, text color on set bits, session background on clear bits.
    fn draw_glyph(&mut self, c: u8, x: u8, y: u8, fg: Rgb565)
        requires
            old(self).wf(),
            old(self).phase == Phase::Ready,
            x + FONT_W <= PANEL_W,
            y + FONT_H <= PANEL_H,
            fg.wf(),
        ensures
            final(self).wf(),
            final(self).phase == Phase::Ready,
            final(self).trace() == old(self).trace() + glyph_ops(
                c,
                x as int,
                y as int,
                fg,
                old(self).background,
            ),
            final(self).background == old(self).background,
    {
        self.send_command(CMD_SET_COLUMN, params2(x, x + FONT_W - 1));
        self.send_command(CMD_SET_ROW, params2(y, y + FONT_H - 1));
        self.send_command(CMD_WRITE_RAM, Vec::new());
        let g = glyph(c);
        let (fhi, flo) = fg.to_bytes();
        let (bhi, blo) = self.background.to_bytes();
        let ghost bg = self.background;
        let mut data: Vec<u8> = Vec::new();
        let mut px: usize = 0;
        while px < 64
            invariant
                px <= 64,
                g == spec_glyph(c),
                fhi == fg.hi_byte(),
                flo == fg.lo_byte(),
                bhi == bg.hi_byte(),
                blo == bg.lo_byte(),
                data@ == glyph_data(c, fg, bg).take(2 * px as int),
            decreases 64 - px,
        {
            let row = (px / 8) as u8;
            let col = (px % 8) as u8;
            let on = glyph_bit(g, row, col);
            if on {
                data.push(fhi);
                data.push(flo);
            } else {
                data.push(bhi);
                data.push(blo);
            }
            proof {
                assert(data@ =~= glyph_data(c, fg, bg).take(2 * (px + 1) as int));
            }
            px = px + 1;
        }
        proof {
            assert(data@ =~= glyph_data(c, fg, bg));
        }
        self.send_data(data);
        proof {
            assert(self.trace() =~~= old(self).trace() + glyph_ops(
                c,
                x as int,
                y as int,
                fg,
                old(self).background,
            ));
        }
    }

    /// Draws `text` left to right in fixed-width glyph cells whose top
    /// edge sits at `origin` (the only supported baseline anchors the
    /// cell top there).  Clear bits stream the session background: the
    /// cell is not erased first, so the caller erases the region when
    /// overdrawing previous content.
    pub fn draw_text(&mut self, text: &[u8], origin: Point, fg: Rgb565, baseline: Baseline)
        requires
            old(self).wf(),
            old(self).phase == Phase::Ready,
            fg.wf(),
            baseline == Baseline::Top,
            origin.x + FONT_W * text@.len() <= PANEL_W,
            origin.y + FONT_H <= PANEL_H,
        ensures
            final(self).wf(),
            final(self).phase == Phase::Ready,
            final(self).trace() == old(self).trace() + text_ops(
                text@,
                origin.x as int,
                origin.y as int,
                fg,
                old(self).background,
            ),
            final(self).background == old(self).background,
    {
        let n = text.len();
        let mut i: usize = 0;
        while i < n
            invariant
                i <= n,
                n == text@.len(),
                fg.wf(),
                origin.x + FONT_W * text@.len() <= PANEL_W,
                origin.y + FONT_H <= PANEL_H,
                self.wf(),
                self.phase == Phase::Ready,
                self.background == old(self).background,
                self.trace() == old(self).trace() + text_ops_upto(
                    text@,
                    i as int,
                    origin.x as int,
                    origin.y as int,
                    fg,
                    old(self).background,
                ),
            decreases n - i,
        {
            let cx: usize = origin.x as usize + 8 * i;
            proof {
                assert(FONT_W * (i + 1) <= FONT_W * text@.len()) by (nonlinear_arith)
                    requires
                        i + 1 <= text@.len(),
                ;
                assert(cx + 8 <= 128);
            }
            let ch = text[i];
            self.draw_glyph(ch, cx as u8, origin.y, fg);
            i = i + 1;
            proof {
                assert(self.trace() =~= old(self).trace() + text_ops_upto(
                    text@,
                    i as int,
                    origin.x as int,
                    origin.y as int,
                    fg,
                    old(self).background,
                ));
            }
        }
    }
}

/// The reset pulse holds the line low for at least the datasheet
/// minimum, the settle wait meets its minimum too, and a full
/// initialization is always the same fixed run: reset pulse, the
/// command sequence in its fixed order, then display-on.
pub proof fn lemma_init_protocol_fixed()
    ensures
        RESET_HOLD_US >= RESET_HOLD_MIN_US,
        RESET_SETTLE_US >= RESET_SETTLE_MIN_US,
        full_init_ops() == reset_ops() + init_command_ops() + display_on_ops(),
        reset_ops()[0] == OpModel::ResetLow,
        reset_ops()[1] == OpModel::DelayUs(RESET_HOLD_US),
        reset_ops()[2] == OpModel::ResetHigh,
        reset_ops()[3] == OpModel::DelayUs(RESET_SETTLE_US),
{
}

/// A clear programs the addressing window to the full panel extent
/// exactly once, then streams exactly width times height two-byte pixel
/// encodings.
pub proof fn lemma_clear_programs_full_panel(c: Rgb565)
    ensures
        clear_ops(c).len() == 4,
        clear_ops(c)[0] == OpModel::Command(CMD_SET_COLUMN, seq![0u8, 127u8]),
        clear_ops(c)[1] == OpModel::Command(CMD_SET_ROW, seq![0u8, 127u8]),
        clear_ops(c)[2] == OpModel::Command(CMD_WRITE_RAM, Seq::<u8>::empty()),
        clear_ops(c)[3] == OpModel::Data(solid_bytes(c, (PANEL_W as int) * (PANEL_H as int))),
        solid_bytes(c, (PANEL_W as int) * (PANEL_H as int)).len() == (PANEL_W as int) * (PANEL_H as int)
            * 2,
        forall|i: int|
            1 <= i < clear_ops(c).len() ==> !(#[trigger] clear_ops(c)[i] matches OpModel::Command(
                o,
                _,
            ) && o == CMD_SET_COLUMN),
{
    let full = Rect { x: 0, y: 0, w: PANEL_W, h: PANEL_H };
    assert(clear_ops(c) =~= window_ops(full) + seq![
        OpModel::Data(solid_bytes(c, (PANEL_W as int) * (PANEL_H as int))),
    ]);
    assert(clear_ops(c)[0] == OpModel::Command(CMD_SET_COLUMN, seq![0u8, (0 + 128 - 1) as u8]));
    assert(seq![0u8, (0 + 128 - 1) as u8] =~= seq![0u8, 127u8]);
    assert(clear_ops(c)[1] == OpModel::Command(CMD_SET_ROW, seq![0u8, 127u8]));
}

/// A styled rectangle issues its fill stream first and its stroke
/// afterward; with no stroke set it issues only the fill operations,
/// and with no fill set it issues only the stroke rings.
pub proof fn lemma_fill_stroke_separation(r: Rect, style: Style)
    ensures
        rect_draw_ops(r, style) == fill_part(r, style) + stroke_part(r, style),
        style.stroke is None ==> rect_draw_ops(r, style) == fill_part(r, style),
        style.fill is None ==> rect_draw_ops(r, style) == stroke_part(r, style),
{
    if style.stroke is None {
        assert(fill_part(r, style) + stroke_part(r, style) =~= fill_part(r, style));
    }
    if style.fill is None {
        assert(fill_part(r, style) + stroke_part(r, style) =~= stroke_part(r, style));
    }
}

/// A one-byte parameter list.
fn params1(a: u8) -> (v: Vec<u8>)
    ensures
        v@ == seq![a],
{
    let mut v: Vec<u8> = Vec::new();
    v.push(a);
    proof {
        assert(v@ =~= seq![a]);
    }
    v
}

/// A two-byte parameter list.
fn params2(a: u8, b: u8) -> (v: Vec<u8>)
    ensures
        v@ == seq![a, b],
{
    let mut v: Vec<u8> = Vec::new();
    v.push(a);
    v.push(b);
    proof {
        assert(v@ =~= seq![a, b]);
    }
    v
}

/// A three-byte parameter list.
fn params3(a: u8, b: u8, c: u8) -> (v: Vec<u8>)
    ensures
        v@ == seq![a, b, c],
{
    let mut v: Vec<u8> = Vec::new();
    v.push(a);
    v.push(b);
    v.push(c);
    proof {
        assert(v@ =~= seq![a, b, c]);
    }
    v
}

} // verus!
