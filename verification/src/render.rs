//! The render loop: one-time setup, then a partial redraw per tick.
//!
//! Setup initializes the controller, clears the panel to the background,
//! draws the border and the static labels.  Each tick formats the
//! counter into the text buffer, erases the counter region, redraws the
//! digits there, and advances the counter; every bus operation a tick
//! issues stays inside the counter region, so the border and the static
//! text are never touched again.

use vstd::prelude::*;
use vstd::slice::slice_subrange;
use vstd::utf8::valid_utf8;
use vstd::utf8::partial_valid_utf8;
use vstd::utf8::partial_valid_utf8_extend_ascii_block;
use crate::color::Rgb565;
use crate::geom::Point;
use crate::geom::Rect;
use crate::geom::PANEL_W;
use crate::geom::PANEL_H;
use crate::font::FONT_W;
use crate::font::FONT_H;
use crate::link::OpModel;
use crate::link::CMD_SET_COLUMN;
use crate::link::CMD_SET_ROW;
use crate::link::CMD_WRITE_RAM;
use crate::session::Session;
use crate::session::Phase;
use crate::session::Style;
use crate::session::StrokeAlign;
use crate::session::Baseline;
use crate::session::full_init_ops;
use crate::session::clear_ops;
use crate::session::fill_ops;
use crate::session::rect_draw_ops;
use crate::session::text_ops;
use crate::session::text_ops_upto;
use crate::session::glyph_ops;
use crate::text_buf::FmtBuf;
use crate::text_buf::lemma_fit_len_is_valid_cut;
use crate::text_buf::BUF_CAPACITY;

verus! {

/// The decimal digit string of `n`, most significant digit first.
pub open spec fn dec_digits(n: int) -> Seq<u8>
    recommends
        n >= 0,
    decreases n,
{
    if n < 10 {
        seq![(48 + n) as u8]
    } else {
        dec_digits(n / 10).push((48 + n % 10) as u8)
    }
}

/// Ten to the `k`.
pub open spec fn p10(k: nat) -> int
    decreases k,
{
    if k == 0 {
        1
    } else {
        10 * p10((k - 1) as nat)
    }
}

/// Every byte of the digit string is an ASCII digit.
pub proof fn lemma_dec_digits_ascii(n: int)
    requires
        n >= 0,
    ensures
        forall|i: int|
            0 <= i < dec_digits(n).len() ==> 48 <= #[trigger] dec_digits(n)[i] <= 57,
    decreases n,
{
    if n < 10 {
        assert(dec_digits(n)[0] == (48 + n) as u8);
    } else {
        lemma_dec_digits_ascii(n / 10);
        let p = dec_digits(n / 10);
        assert forall|i: int| 0 <= i < dec_digits(n).len() implies 48 <= #[trigger] dec_digits(
            n,
        )[i] <= 57 by {
            if i < p.len() {
                assert(dec_digits(n)[i] == p[i]);
            } else {
                assert(dec_digits(n)[i] == (48 + n % 10) as u8);
            }
        }
    }
}

/// The digit string is valid UTF-8 (it is plain ASCII).
pub proof fn lemma_dec_digits_valid_utf8(n: int)
    requires
        n >= 0,
    ensures
        valid_utf8(dec_digits(n)),
{
    lemma_dec_digits_ascii(n);
    let s = dec_digits(n);
    assert(s.subrange(0, 0) =~= Seq::<u8>::empty());
    assert(partial_valid_utf8(s, 0));
    partial_valid_utf8_extend_ascii_block(s, 0, s.len() as int);
    assert(s.subrange(0, s.len() as int) =~= s);
}

/// A number below ten to the `k` has at most `k` digits.
pub proof fn lemma_dec_digits_len(n: int, k: nat)
    requires
        k >= 1,
        0 <= n < p10(k),
    ensures
        dec_digits(n).len() <= k,
    decreases k,
{
    if n >= 10 {
        assert(p10(k) == 10 * p10((k - 1) as nat));
        assert(n / 10 < p10((k - 1) as nat));
        lemma_dec_digits_len(n / 10, (k - 1) as nat);
    }
}

/// A 32-bit counter never needs more than ten digits.
pub proof fn lemma_dec_digits_len_u32(n: int)
    requires
        0 <= n <= 0xFFFF_FFFF,
    ensures
        dec_digits(n).len() <= 10,
{
    assert(p10(0) == 1);
    assert(p10(1) == 10);
    assert(p10(2) == 100);
    assert(p10(3) == 1000);
    assert(p10(4) == 10000);
    assert(p10(5) == 100000);
    assert(p10(6) == 1000000);
    assert(p10(7) == 10000000);
    assert(p10(8) == 100000000);
    assert(p10(9) == 1000000000);
    assert(p10(10) == 10000000000);
    lemma_dec_digits_len(n, 10);
}

/// The decimal digit string of `n` as bytes.
pub fn u32_digits(n: u32) -> (v: Vec<u8>)
    ensures
        v@ == dec_digits(n as int),
        v@.len() <= 10,
    decreases n,
{
    proof {
        lemma_dec_digits_len_u32(n as int);
    }
    if n < 10 {
        let mut v: Vec<u8> = Vec::new();
        v.push(48 + n as u8);
        proof {
            assert(v@ =~= dec_digits(n as int));
        }
        v
    } else {
        let mut v = u32_digits(n / 10);
        v.push(48 + (n % 10) as u8);
        proof {
            assert(v@ =~= dec_digits(n as int));
        }
        v
    }
}

/// The background the panel is cleared to.
pub open spec fn spec_background() -> Rgb565 {
    Rgb565 { r5: 0, g6: 0, b5: 31 }
}

/// The color of the border and of nothing else.
pub open spec fn spec_border_color() -> Rgb565 {
    Rgb565 { r5: 31, g6: 63, b5: 31 }
}

/// The color the text is drawn in.
pub open spec fn spec_text_color() -> Rgb565 {
    Rgb565 { r5: 31, g6: 0, b5: 0 }
}

/// The border style: a three-pixel stroke drawn inside the panel edge.
pub open spec fn border_style() -> Style {
    Style {
        fill: None,
        stroke: Some(spec_border_color()),
        stroke_width: 3,
        align: StrokeAlign::Inside,
    }
}

/// The first static label.
pub open spec fn label_world() -> Seq<u8> {
    seq![72u8, 101u8, 108u8, 108u8, 111u8, 32u8, 119u8, 111u8, 114u8, 108u8, 100u8, 33u8]
}

/// The second static label.
pub open spec fn label_rust() -> Seq<u8> {
    seq![72u8, 101u8, 108u8, 108u8, 111u8, 32u8, 82u8, 117u8, 115u8, 116u8, 33u8]
}

/// The region the counter is drawn in; no tick writes outside it.
pub open spec fn counter_rect() -> Rect {
    Rect { x: 90, y: 40, w: 30, h: 18 }
}

/// How many glyph cells fit across the counter region.
pub const COUNTER_GLYPHS: usize = 3;

/// The digits a tick shows: the whole string when it fits the region,
/// otherwise its first three digits.
pub open spec fn shown_digits(n: int) -> Seq<u8> {
    if dec_digits(n).len() <= COUNTER_GLYPHS {
        dec_digits(n)
    } else {
        dec_digits(n).take(COUNTER_GLYPHS as int)
    }
}

/// Everything setup issues: full init, clear to the background, border,
/// and the two static labels.
pub open spec fn setup_ops() -> Seq<OpModel> {
    full_init_ops() + clear_ops(spec_background()) + rect_draw_ops(
        Rect { x: 0, y: 0, w: PANEL_W, h: PANEL_H },
        border_style(),
    ) + text_ops(label_world(), 10, 0, spec_text_color(), spec_background()) + text_ops(
        label_rust(),
        10,
        20,
        spec_text_color(),
        spec_background(),
    )
}

/// Everything one tick issues: erase the counter region to the
/// background, then draw the counter digits at the region's corner.
pub open spec fn tick_ops(n: int, bg: Rgb565) -> Seq<OpModel> {
    fill_ops(counter_rect(), bg) + text_ops(shown_digits(n), 90, 40, spec_text_color(), bg)
}

/// One bus operation that addresses only pixels of `r`: a window
/// command whose span lies within `r`, a write-RAM command, or data
/// (data fills the window the previous commands set).
pub open spec fn op_confined(op: OpModel, r: Rect) -> bool {
    match op {
        OpModel::Command(code, p) => if code == CMD_SET_COLUMN {
            p.len() == 2 && r.x <= p[0] && p[0] <= p[1] && p[1] < r.x + r.w
        } else if code == CMD_SET_ROW {
            p.len() == 2 && r.y <= p[0] && p[0] <= p[1] && p[1] < r.y + r.h
        } else {
            code == CMD_WRITE_RAM && p.len() == 0
        },
        OpModel::Data(_) => true,
        _ => false,
    }
}

/// Every operation of the run addresses only pixels of `r`.
pub open spec fn ops_confined(ops: Seq<OpModel>, r: Rect) -> bool {
    forall|i: int| 0 <= i < ops.len() ==> op_confined(#[trigger] ops[i], r)
}

/// Confinement is preserved by concatenation.
pub proof fn lemma_ops_confined_concat(a: Seq<OpModel>, b: Seq<OpModel>, r: Rect)
    requires
        ops_confined(a, r),
        ops_confined(b, r),
    ensures
        ops_confined(a + b, r),
{
    assert forall|i: int| 0 <= i < (a + b).len() implies op_confined(#[trigger] (a + b)[i], r) by {
        if i < a.len() {
            assert((a + b)[i] == a[i]);
        } else {
            assert((a + b)[i] == b[i - a.len()]);
        }
    }
}

/// A fill of a rectangle inside `r` is confined to `r`.
pub proof fn lemma_fill_ops_confined(q: Rect, c: Rgb565, r: Rect)
    requires
        q.within(r),
        q.wf(),
    ensures
        ops_confined(fill_ops(q, c), r),
{
    if !q.is_degenerate() {
        let ops = fill_ops(q, c);
        assert(ops.len() == 4);
        assert(ops[0] == OpModel::Command(CMD_SET_COLUMN, seq![q.x, (q.x + q.w - 1) as u8]));
        assert(ops[1] == OpModel::Command(CMD_SET_ROW, seq![q.y, (q.y + q.h - 1) as u8]));
        assert(op_confined(ops[0], r));
        assert(op_confined(ops[1], r));
        assert(op_confined(ops[2], r));
        assert(op_confined(ops[3], r));
    }
}

/// A glyph whose cell lies inside `r` is confined to `r`.
pub proof fn lemma_glyph_ops_confined(c: u8, x: int, y: int, fg: Rgb565, bg: Rgb565, r: Rect)
    requires
        r.x <= x,
        x + FONT_W <= r.x + r.w,
        r.y <= y,
        y + FONT_H <= r.y + r.h,
        0 <= r.x,
        0 <= r.y,
        r.x + r.w <= 256,
        r.y + r.h <= 256,
    ensures
        ops_confined(glyph_ops(c, x, y, fg, bg), r),
{
    let ops = glyph_ops(c, x, y, fg, bg);
    assert(ops.len() == 4);
    assert(op_confined(ops[0], r));
    assert(op_confined(ops[1], r));
    assert(op_confined(ops[2], r));
    assert(op_confined(ops[3], r));
}

/// A text run whose cells lie inside `r` is confined to `r`.
pub proof fn lemma_text_ops_confined(
    s: Seq<u8>,
    n: int,
    x: int,
    y: int,
    fg: Rgb565,
    bg: Rgb565,
    r: Rect,
)
    requires
        0 <= n <= s.len(),
        r.x <= x,
        x + FONT_W * n <= r.x + r.w,
        r.y <= y,
        y + FONT_H <= r.y + r.h,
        0 <= r.x,
        0 <= r.y,
        r.x + r.w <= 256,
        r.y + r.h <= 256,
    ensures
        ops_confined(text_ops_upto(s, n, x, y, fg, bg), r),
    decreases n,
{
    if n > 0 {
        lemma_text_ops_confined(s, n - 1, x, y, fg, bg, r);
        lemma_glyph_ops_confined(s[n - 1], x + FONT_W * (n - 1), y, fg, bg, r);
        lemma_ops_confined_concat(
            text_ops_upto(s, n - 1, x, y, fg, bg),
            glyph_ops(s[n - 1], x + FONT_W * (n - 1), y, fg, bg),
            r,
        );
    }
}

/// Everything a tick issues stays inside the counter region: the erase
/// fill covers exactly the region, and every shown glyph cell lies
/// within it.
pub proof fn lemma_tick_ops_confined(n: int, bg: Rgb565)
    requires
        n >= 0,
    ensures
        ops_confined(tick_ops(n, bg), counter_rect()),
{
    let r = counter_rect();
    lemma_fill_ops_confined(r, bg, r);
    let s = shown_digits(n);
    assert(s.len() <= 3);
    lemma_text_ops_confined(s, s.len() as int, 90, 40, spec_text_color(), bg, r);
    lemma_ops_confined_concat(
        fill_ops(r, bg),
        text_ops(s, 90, 40, spec_text_color(), bg),
        r,
    );
}

/// The render loop state: the controller session, the text buffer the
/// counter is formatted into, and the counter itself.
pub struct Renderer {
    pub session: Session,
    pub buf: FmtBuf,
    pub count: u32,
}

impl Renderer {
    pub open spec fn wf(self) -> bool {
        self.session.wf() && self.buf.wf()
    }

    /// A fresh render loop over a fresh session, counting from zero.
    pub fn new() -> (r: Renderer)
        ensures
            r.wf(),
            r.count == 0,
            r.session.phase == Phase::Unpowered,
            r.session.trace() == Seq::<OpModel>::empty(),
            r.buf@ == Seq::<u8>::empty(),
    {
        Renderer { session: Session::new(), buf: FmtBuf::new(), count: 0 }
    }

    /// One-time setup: run the reset/init protocol to `Ready`, clear the
    /// panel to the background, draw the border, draw the static labels.
    pub fn setup(&mut self)
        requires
            old(self).wf(),
        ensures
            final(self).wf(),
            final(self).session.phase == Phase::Ready,
            final(self).session.background == spec_background(),
            final(self).session.trace() == old(self).session.trace() + setup_ops(),
            final(self).count == old(self).count,
            final(self).buf == old(self).buf,
    {
        self.session.initialize();
        self.session.clear(Rgb565::blue());
        let border = Style {
            fill: None,
            stroke: Some(Rgb565::white()),
            stroke_width: 3,
            align: StrokeAlign::Inside,
        };
        self.session.draw_border(border);
        let l1 = label_world_bytes();
        self.session.draw_text(
            l1.as_slice(),
            Point { x: 10, y: 0 },
            Rgb565::red(),
            Baseline::Top,
        );
        let l2 = label_rust_bytes();
        self.session.draw_text(
            l2.as_slice(),
            Point { x: 10, y: 20 },
            Rgb565::red(),
            Baseline::Top,
        );
        proof {
            assert(border.spec_without_fill() == border_style());
            assert(self.session.trace() =~= old(self).session.trace() + setup_ops());
        }
    }

    /// One tick: format the counter into the buffer, erase the counter
    /// region to the background, draw the digits there, and advance the
    /// counter, wrapping at the largest representable value.  Every
    /// operation issued lies inside the counter region.
    pub fn render_tick(&mut self)
        requires
            old(self).wf(),
            old(self).session.phase == Phase::Ready,
        ensures
            final(self).wf(),
            final(self).session.phase == Phase::Ready,
            final(self).session.background == old(self).session.background,
            final(self).buf@ == dec_digits(old(self).count as int),
            old(self).count < 0xFFFF_FFFFu32 ==> final(self).count == old(self).count + 1,
            old(self).count == 0xFFFF_FFFFu32 ==> final(self).count == 0,
            final(self).session.trace() == old(self).session.trace() + tick_ops(
                old(self).count as int,
                old(self).session.background,
            ),
            ops_confined(
                final(self).session.trace().skip(old(self).session.trace().len() as int),
                counter_rect(),
            ),
    {
        self.buf.reset();
        let d = u32_digits(self.count);
        proof {
            lemma_dec_digits_valid_utf8(self.count as int);
            lemma_fit_len_is_valid_cut(d@, BUF_CAPACITY as int);
        }
        self.buf.write_bytes(d.as_slice());
        proof {
            assert(self.buf@ =~= dec_digits(old(self).count as int));
        }
        let bg = self.session.background;
        self.session.fill_rect(Rect { x: 90, y: 40, w: 30, h: 18 }, bg);
        let all = self.buf.as_bytes();
        let k: usize = if all.len() <= COUNTER_GLYPHS {
            all.len()
        } else {
            COUNTER_GLYPHS
        };
        let shown = slice_subrange(all, 0, k);
        proof {
            assert(shown@ =~= shown_digits(old(self).count as int));
        }
        self.session.draw_text(
            shown,
            Point { x: 90, y: 40 },
            Rgb565::red(),
            Baseline::Top,
        );
        if self.count == 0xFFFF_FFFFu32 {
            self.count = 0;
        } else {
            self.count = self.count + 1;
        }
        proof {
            assert(self.session.trace() =~= old(self).session.trace() + tick_ops(
                old(self).count as int,
                old(self).session.background,
            ));
            lemma_tick_ops_confined(old(self).count as int, old(self).session.background);
            assert(self.session.trace().skip(old(self).session.trace().len() as int)
                =~= tick_ops(old(self).count as int, old(self).session.background));
        }
    }
}

/// The bytes of the first static label.
fn label_world_bytes() -> (v: Vec<u8>)
    ensures
        v@ == label_world(),
{
    let mut v: Vec<u8> = Vec::new();
    v.push(72);
    v.push(101);
    v.push(108);
    v.push(108);
    v.push(111);
    v.push(32);
    v.push(119);
    v.push(111);
    v.push(114);
    v.push(108);
    v.push(100);
    v.push(33);
    proof {
        assert(v@ =~= label_world());
    }
    v
}

/// The bytes of the second static label.
fn label_rust_bytes() -> (v: Vec<u8>)
    ensures
        v@ == label_rust(),
{
    let mut v: Vec<u8> = Vec::new();
    v.push(72);
    v.push(101);
    v.push(108);
    v.push(108);
    v.push(111);
    v.push(32);
    v.push(82);
    v.push(117);
    v.push(115);
    v.push(116);
    v.push(33);
    proof {
        assert(v@ =~= label_rust());
    }
    v
}

} // verus!

use crate::frame::run_ops;
use crate::frame::initial_frame;
use crate::frame::model_wf;
use crate::frame::passive_op;
use crate::frame::lemma_run_passive;
use crate::frame::lemma_run_ops_concat;
use crate::frame::lemma_clear_frame;
use crate::frame::lemma_ring_frame;
use crate::frame::on_ring;
use crate::frame::lemma_text_ops_frame;
use crate::frame::glyph_px_word;
use crate::session::rings_upto;
use crate::session::ring_rect;
use crate::session::ring_ops;
use crate::session::stroke_part;
use crate::session::fill_part;
use crate::session::RESET_HOLD_US;
use crate::session::RESET_SETTLE_US;

verus! {

/// What the panel shows after setup, position by position: the two red
/// labels in their cells (drawn last, over everything), the three-pixel
/// white border inset at the edge, and the blue background elsewhere.
pub open spec fn setup_pixel(x: int, y: int) -> u16 {
    if 0 <= y < 8 && 10 <= x < 106 {
        glyph_px_word(label_world()[(x - 10) / 8], y, (x - 10) % 8, spec_text_color(),
            spec_background())
    } else if 20 <= y < 28 && 10 <= x < 98 {
        glyph_px_word(label_rust()[(x - 10) / 8], y - 20, (x - 10) % 8, spec_text_color(),
            spec_background())
    } else if x < 3 || x >= PANEL_W - 3 || y < 3 || y >= PANEL_H - 3 {
        spec_border_color().word() as u16
    } else {
        spec_background().word() as u16
    }
}

/// Every operation of the init run leaves the panel model unchanged.
proof fn lemma_init_ops_passive()
    ensures
        forall|i: int|
            0 <= i < full_init_ops().len() ==> passive_op(#[trigger] full_init_ops()[i]),
{
    let io = full_init_ops();
    assert(io.len() == 14);
    assert forall|i: int| 0 <= i < io.len() implies passive_op(#[trigger] io[i]) by {
            if i == 0 {
                assert(io[i] == OpModel::ResetLow);
            } else if i == 1 {
                assert(io[i] == OpModel::DelayUs(RESET_HOLD_US));
            } else if i == 2 {
                assert(io[i] == OpModel::ResetHigh);
            } else if i == 3 {
                assert(io[i] == OpModel::DelayUs(RESET_SETTLE_US));
            } else if i == 4 {
                assert(io[i] == OpModel::Command(0xAE, Seq::<u8>::empty()));
            } else if i == 5 {
                assert(io[i] == OpModel::Command(0xA0, seq![0x74u8]));
            } else if i == 6 {
                assert(io[i] == OpModel::Command(0xA1, seq![0x00u8]));
            } else if i == 7 {
                assert(io[i] == OpModel::Command(0xA2, seq![0x00u8]));
            } else if i == 8 {
                assert(io[i] == OpModel::Command(0xC1, seq![0xC8u8, 0x80u8, 0xC8u8]));
            } else if i == 9 {
                assert(io[i] == OpModel::Command(0xC7, seq![0x0Fu8]));
            } else if i == 10 {
                assert(io[i] == OpModel::Command(0xB1, seq![0x32u8]));
            } else if i == 11 {
                assert(io[i] == OpModel::Command(0xBE, seq![0x05u8]));
            } else if i == 12 {
                assert(io[i] == OpModel::Command(0xA6, Seq::<u8>::empty()));
            } else if i == 13 {
                assert(io[i] == OpModel::Command(0xAF, Seq::<u8>::empty()));
            }
    }
}

/// The full end-to-end setup picture: running the whole setup trace on
/// a fresh panel model yields exactly [`setup_pixel`] everywhere —
/// blue background, the inset white border, and the two red labels.
#[verifier::rlimit(100)]
#[verifier::spinoff_prover]
pub proof fn lemma_setup_frame()
    ensures
        ({
            let m = run_ops(initial_frame(), setup_ops());
            &&& model_wf(m)
            &&& forall|x: int, y: int|
                0 <= x < PANEL_W && 0 <= y < PANEL_H ==> #[trigger] m.px[y * PANEL_W + x]
                    == setup_pixel(x, y)
        }),
{
    let m0 = initial_frame();
    assert(model_wf(m0));
    let full = Rect { x: 0, y: 0, w: PANEL_W, h: PANEL_H };
    let bg = spec_background();
    let fg = spec_text_color();
    let white = spec_border_color();
    let a = full_init_ops();
    let b = clear_ops(bg);
    let c = rect_draw_ops(full, border_style());
    let d = text_ops(label_world(), 10, 0, fg, bg);
    let e = text_ops(label_rust(), 10, 20, fg, bg);
    assert(setup_ops() == a + b + c + d + e);
    lemma_run_ops_concat(m0, a + b + c + d, e);
    lemma_run_ops_concat(m0, a + b + c, d);
    lemma_run_ops_concat(m0, a + b, c);
    lemma_run_ops_concat(m0, a, b);
    lemma_init_ops_passive();
    lemma_run_passive(m0, a);
    let m1 = run_ops(m0, a);
    assert(m1 == m0);
    lemma_clear_frame(m1, bg);
    let m2 = run_ops(m1, b);

    // The border is three concentric one-pixel rings, outermost first.
    reveal_with_fuel(rings_upto, 5);
    let q0 = Rect { x: 0, y: 0, w: 128, h: 128 };
    let q1 = Rect { x: 1, y: 1, w: 126, h: 126 };
    let q2 = Rect { x: 2, y: 2, w: 124, h: 124 };
    assert(ring_rect(full, 0) == q0);
    assert(ring_rect(full, -1) == q1);
    assert(ring_rect(full, -2) == q2);
    let g0 = ring_ops(q0, white);
    let g1 = ring_ops(q1, white);
    let g2 = ring_ops(q2, white);
    assert(fill_part(full, border_style()) =~= Seq::<OpModel>::empty());
    assert(stroke_part(full, border_style()) == rings_upto(full, white, 3, 0));
    assert(rings_upto(full, white, 3, 0) =~= (g0 + g1) + g2);
    assert(c =~= (g0 + g1) + g2);
    lemma_run_ops_concat(m2, g0 + g1, g2);
    lemma_run_ops_concat(m2, g0, g1);
    lemma_ring_frame(m2, q0, white);
    let mb0 = run_ops(m2, g0);
    lemma_ring_frame(mb0, q1, white);
    let mb1 = run_ops(mb0, g1);
    lemma_ring_frame(mb1, q2, white);
    let m3 = run_ops(mb1, g2);
    assert(run_ops(m2, c) == m3);

    assert(label_world().len() == 12);
    assert(label_rust().len() == 11);
    assert(d == text_ops_upto(label_world(), 12, 10, 0, fg, bg));
    assert(e == text_ops_upto(label_rust(), 11, 10, 20, fg, bg));
    lemma_text_ops_frame(m3, label_world(), 12, 10, 0, fg, bg);
    let m4 = run_ops(m3, d);
    lemma_text_ops_frame(m4, label_rust(), 11, 10, 20, fg, bg);
    let m5 = run_ops(m4, e);
    assert(run_ops(m0, setup_ops()) == m5);

    assert forall|x: int, y: int|
        0 <= x < PANEL_W && 0 <= y < PANEL_H implies #[trigger] m5.px[y * PANEL_W + x]
        == setup_pixel(x, y) by {
        assert(m2.px[y * PANEL_W + x] == bg.word() as u16);
        assert(on_ring(q0, x, y) || on_ring(q1, x, y) || on_ring(q2, x, y) <==> (x < 3 || x >= 125
            || y < 3 || y >= 125));
    }
}

} // verus!

verus! {

/// The full per-tick picture: running one tick's trace erases the
/// counter region to the background, paints the shown digits in their
/// cells at the region's corner, and changes no pixel outside the
/// region.
#[verifier::rlimit(60)]
pub proof fn lemma_tick_frame(m: crate::frame::FrameModel, n: int, bg: Rgb565)
    requires
        model_wf(m),
        bg.wf(),
        n >= 0,
    ensures
        ({
            let m2 = run_ops(m, tick_ops(n, bg));
            let s = shown_digits(n);
            &&& model_wf(m2)
            &&& forall|x: int, y: int|
                0 <= x < PANEL_W && 0 <= y < PANEL_H ==> #[trigger] m2.px[y * PANEL_W + x] == (
                if 90 <= x < 90 + 8 * s.len() && 40 <= y < 48 {
                    glyph_px_word(s[(x - 90) / 8], y - 40, (x - 90) % 8, spec_text_color(), bg)
                } else if 90 <= x < 120 && 40 <= y < 58 {
                    bg.word() as u16
                } else {
                    m.px[y * PANEL_W + x]
                })
        }),
{
    let s = shown_digits(n);
    assert(1 <= s.len() <= 3);
    let a = fill_ops(counter_rect(), bg);
    let b = text_ops(s, 90, 40, spec_text_color(), bg);
    assert(tick_ops(n, bg) == a + b);
    lemma_run_ops_concat(m, a, b);
    crate::frame::lemma_fill_ops_frame(m, counter_rect(), bg);
    let m1 = run_ops(m, a);
    assert(b == text_ops_upto(s, s.len() as int, 90, 40, spec_text_color(), bg));
    lemma_text_ops_frame(m1, s, s.len() as int, 90, 40, spec_text_color(), bg);
}

} // verus!
