//! A logical model of the panel: addressing window plus pixel memory.
//!
//! Feeding the bus operations of a trace into a [`Frame`] reproduces the
//! controller's view of the panel, so a caller can read back which
//! pixels a run of operations touched.  Data bytes pair up into 16-bit
//! pixel words that fill the current addressing window row by row,
//! wrapping at the window edges exactly as the controller does; the
//! whole behaviour is pinned by the spec-level [`step_op`] semantics.

use vstd::prelude::*;
use crate::link::BusOp;
use crate::link::OpModel;
use crate::link::CMD_SET_COLUMN;
use crate::link::CMD_SET_ROW;
use crate::link::CMD_WRITE_RAM;
use crate::geom::PANEL_W;
use crate::geom::PANEL_H;

verus! {

/// The mathematical state of the panel model: pixel words (row-major),
/// the inclusive window bounds, the write cursor, and the odd byte of a
/// split pixel word.
#[verifier::ext_equal]
pub struct FrameModel {
    pub px: Seq<u16>,
    pub c0: int,
    pub c1: int,
    pub r0: int,
    pub r1: int,
    pub cx: int,
    pub cy: int,
    pub pending: Option<u8>,
}

/// The state a fresh model starts in: every pixel zero, the window the
/// full panel, the cursor at the origin, no split word.
pub open spec fn initial_frame() -> FrameModel {
    FrameModel {
        px: Seq::new((PANEL_W as nat) * (PANEL_H as nat), |i: int| 0u16),
        c0: 0,
        c1: PANEL_W - 1,
        r0: 0,
        r1: PANEL_H - 1,
        cx: 0,
        cy: 0,
        pending: None,
    }
}

/// One data byte: the first byte of a pixel is held back; the second
/// completes a word, which lands at the cursor, and the cursor advances
/// along the row, wrapping to the next row at the window's right edge
/// and back to the window origin after its last pixel.
pub open spec fn step_byte(m: FrameModel, b: u8) -> FrameModel {
    match m.pending {
        None => FrameModel {
            px: m.px,
            c0: m.c0,
            c1: m.c1,
            r0: m.r0,
            r1: m.r1,
            cx: m.cx,
            cy: m.cy,
            pending: Some(b),
        },
        Some(hi) => {
            let px2 = m.px.update(m.cy * PANEL_W + m.cx, (hi * 256 + b) as u16);
            if m.cx < m.c1 {
                FrameModel {
                    px: px2,
                    c0: m.c0,
                    c1: m.c1,
                    r0: m.r0,
                    r1: m.r1,
                    cx: m.cx + 1,
                    cy: m.cy,
                    pending: None,
                }
            } else if m.cy < m.r1 {
                FrameModel {
                    px: px2,
                    c0: m.c0,
                    c1: m.c1,
                    r0: m.r0,
                    r1: m.r1,
                    cx: m.c0,
                    cy: m.cy + 1,
                    pending: None,
                }
            } else {
                FrameModel {
                    px: px2,
                    c0: m.c0,
                    c1: m.c1,
                    r0: m.r0,
                    r1: m.r1,
                    cx: m.c0,
                    cy: m.r0,
                    pending: None,
                }
            }
        },
    }
}

/// A whole data transfer: the bytes folded through [`step_byte`] in
/// order.
pub open spec fn step_data(m: FrameModel, bytes: Seq<u8>) -> FrameModel
    decreases bytes.len(),
{
    if bytes.len() == 0 {
        m
    } else {
        step_byte(step_data(m, bytes.drop_last()), bytes.last())
    }
}

/// One bus operation: a valid column-span command sets the column
/// bounds and rests the cursor at the window origin; a valid row-span
/// command sets the row bounds, rests the row cursor, and pulls the
/// column cursor back into the window if it fell outside; write-RAM
/// rests the cursor at the window origin; data folds through
/// [`step_byte`]; everything else (reset line, delays, commands with
/// out-of-range parameters) changes nothing.
pub open spec fn step_op(m: FrameModel, op: OpModel) -> FrameModel {
    match op {
        OpModel::Command(code, p) => if code == CMD_SET_COLUMN && p.len() == 2 && p[0] <= p[1]
            && p[1] < PANEL_W {
            FrameModel {
                px: m.px,
                c0: p[0] as int,
                c1: p[1] as int,
                r0: m.r0,
                r1: m.r1,
                cx: p[0] as int,
                cy: m.r0,
                pending: None,
            }
        } else if code == CMD_SET_ROW && p.len() == 2 && p[0] <= p[1] && p[1] < PANEL_H {
            FrameModel {
                px: m.px,
                c0: m.c0,
                c1: m.c1,
                r0: p[0] as int,
                r1: p[1] as int,
                cx: if m.cx < m.c0 || m.cx > m.c1 {
                    m.c0
                } else {
                    m.cx
                },
                cy: p[0] as int,
                pending: None,
            }
        } else if code == CMD_WRITE_RAM {
            FrameModel {
                px: m.px,
                c0: m.c0,
                c1: m.c1,
                r0: m.r0,
                r1: m.r1,
                cx: m.c0,
                cy: m.r0,
                pending: None,
            }
        } else {
            m
        },
        OpModel::Data(bytes) => step_data(m, bytes),
        _ => m,
    }
}

/// A whole trace: the operations folded through [`step_op`] in order.
pub open spec fn run_ops(m: FrameModel, ops: Seq<OpModel>) -> FrameModel
    decreases ops.len(),
{
    if ops.len() == 0 {
        m
    } else {
        step_op(run_ops(m, ops.drop_last()), ops.last())
    }
}

/// The panel model: pixel words, the addressing window (inclusive
/// bounds), the write cursor, and the odd byte of a split pixel word.
pub struct Frame {
    px: Vec<u16>,
    col_start: u8,
    col_end: u8,
    row_start: u8,
    row_end: u8,
    cur_col: u8,
    cur_row: u8,
    pending: Option<u8>,
}

impl Frame {
    /// The mathematical state this value holds.
    pub closed spec fn model(self) -> FrameModel {
        FrameModel {
            px: self.px@,
            c0: self.col_start as int,
            c1: self.col_end as int,
            r0: self.row_start as int,
            r1: self.row_end as int,
            cx: self.cur_col as int,
            cy: self.cur_row as int,
            pending: self.pending,
        }
    }

    /// The pixel memory, row-major.
    pub open spec fn pixels(self) -> Seq<u16> {
        self.model().px
    }

    /// The window currently programmed, as inclusive column bounds.
    pub open spec fn cols(self) -> (int, int) {
        (self.model().c0, self.model().c1)
    }

    /// The window currently programmed, as inclusive row bounds.
    pub open spec fn rows(self) -> (int, int) {
        (self.model().r0, self.model().r1)
    }

    /// The window covers the position.
    pub open spec fn window_contains(self, x: int, y: int) -> bool {
        self.cols().0 <= x <= self.cols().1 && self.rows().0 <= y <= self.rows().1
    }

    /// The pixel word last written at the position.
    pub open spec fn spec_pixel(self, x: int, y: int) -> u16
        recommends
            0 <= x < PANEL_W,
            0 <= y < PANEL_H,
    {
        self.pixels()[y * PANEL_W + x]
    }

    /// One full pixel word per position; window and cursor on the panel.
    pub closed spec fn wf(self) -> bool {
        &&& self.px@.len() == (PANEL_W as int) * (PANEL_H as int)
        &&& self.col_start <= self.col_end < PANEL_W
        &&& self.row_start <= self.row_end < PANEL_H
        &&& self.col_start <= self.cur_col <= self.col_end
        &&& self.row_start <= self.cur_row <= self.row_end
    }

    /// A fresh model in the initial state.
    pub fn new() -> (f: Frame)
        ensures
            f.wf(),
            f.model() == initial_frame(),
    {
        let mut px: Vec<u16> = Vec::new();
        let mut i: usize = 0;
        while i < 16384
            invariant
                i <= 16384,
                px@.len() == i,
                forall|j: int| 0 <= j < i ==> px@[j] == 0,
            decreases 16384 - i,
        {
            px.push(0);
            i = i + 1;
        }
        let f = Frame {
            px,
            col_start: 0,
            col_end: PANEL_W - 1,
            row_start: 0,
            row_end: PANEL_H - 1,
            cur_col: 0,
            cur_row: 0,
            pending: None,
        };
        proof {
            assert(f.model() =~~= initial_frame());
        }
        f
    }

    /// Reads one pixel word back.
    pub fn pixel(&self, x: u8, y: u8) -> (p: u16)
        requires
            self.wf(),
            x < PANEL_W,
            y < PANEL_H,
        ensures
            p == self.spec_pixel(x as int, y as int),
    {
        proof {
            assert((y as int) * (PANEL_W as int) + (x as int) < (PANEL_W as int) * (
            PANEL_H as int)) by (nonlinear_arith)
                requires
                    x < 128,
                    y < 128,
                    PANEL_W == 128,
                    PANEL_H == 128,
            ;
        }
        self.px[y as usize * PANEL_W as usize + x as usize]
    }

    /// Applies one bus operation: the new state is exactly
    /// [`step_op`] of the old state, and a data transfer never touches
    /// a pixel outside the window it starts with.
    pub fn apply(&mut self, op: &BusOp)
        requires
            old(self).wf(),
        ensures
            final(self).wf(),
            final(self).model() == step_op(old(self).model(), op@),
            op matches BusOp::Data(_) ==> forall|x: int, y: int|
                0 <= x < PANEL_W && 0 <= y < PANEL_H && !old(self).window_contains(x, y)
                    ==> final(self).spec_pixel(x, y) == old(self).spec_pixel(x, y),
    {
        let ghost pre = *self;
        match op {
            BusOp::Command(code, p) => {
                if *code == CMD_SET_COLUMN && p.len() == 2 && p[0] <= p[1] && p[1]
                    < PANEL_W {
                    self.col_start = p[0];
                    self.col_end = p[1];
                    self.cur_col = p[0];
                    self.cur_row = self.row_start;
                    self.pending = None;
                } else if *code == CMD_SET_ROW && p.len() == 2 && p[0] <= p[1] && p[1]
                    < PANEL_H {
                    self.row_start = p[0];
                    self.row_end = p[1];
                    self.cur_row = p[0];
                    if self.cur_col < self.col_start || self.cur_col > self.col_end {
                        self.cur_col = self.col_start;
                    }
                    self.pending = None;
                } else if *code == CMD_WRITE_RAM {
                    self.cur_col = self.col_start;
                    self.cur_row = self.row_start;
                    self.pending = None;
                }
                proof {
                    assert(self.model() =~~= step_op(pre.model(), op@));
                }
            },
            BusOp::Data(bytes) => {
                let mut i: usize = 0;
                while i < bytes.len()
                    invariant
                        self.wf(),
                        i <= bytes@.len(),
                        self.model() == step_data(pre.model(), bytes@.take(i as int)),
                        self.cols() == pre.cols(),
                        self.rows() == pre.rows(),
                        self.pixels().len() == pre.pixels().len(),
                        forall|x: int, y: int|
                            0 <= x < PANEL_W && 0 <= y < PANEL_H && !pre.window_contains(x, y)
                                ==> self.spec_pixel(x, y) == pre.spec_pixel(x, y),
                    decreases bytes@.len() - i,
                {
                    let ghost mid = self.model();
                    let b = bytes[i];
                    match self.pending {
                        None => {
                            self.pending = Some(b);
                        },
                        Some(hi) => {
                            let word: u16 = (hi as u16) * 256 + b as u16;
                            let idx: usize = self.cur_row as usize * PANEL_W as usize
                                + self.cur_col as usize;
                            proof {
                                assert((self.cur_row as int) * (PANEL_W as int) + (
                                self.cur_col as int) < (PANEL_W as int) * (PANEL_H as int))
                                    by (nonlinear_arith)
                                    requires
                                        self.cur_row < PANEL_H,
                                        self.cur_col < PANEL_W,
                                        PANEL_W == 128,
                                        PANEL_H == 128,
                                ;
                            }
                            self.px[idx] = word;
                            self.pending = None;
                            proof {
                                assert forall|x: int, y: int|
                                    0 <= x < PANEL_W && 0 <= y < PANEL_H && !pre.window_contains(
                                        x,
                                        y,
                                    ) implies self.spec_pixel(x, y) == pre.spec_pixel(x, y) by {
                                    if y * PANEL_W + x == idx as int {
                                        assert(x == self.cur_col as int && y
                                            == self.cur_row as int) by (nonlinear_arith)
                                            requires
                                                0 <= x < 128,
                                                0 <= y < 128,
                                                0 <= self.cur_col < 128,
                                                0 <= self.cur_row < 128,
                                                y * 128 + x == (self.cur_row as int) * 128
                                                    + self.cur_col as int,
                                        ;
                                    }
                                }
                            }
                            if self.cur_col < self.col_end {
                                self.cur_col = self.cur_col + 1;
                            } else {
                                self.cur_col = self.col_start;
                                if self.cur_row < self.row_end {
                                    self.cur_row = self.cur_row + 1;
                                } else {
                                    self.cur_row = self.row_start;
                                }
                            }
                        },
                    }
                    i = i + 1;
                    proof {
                        assert(bytes@.take(i as int).drop_last() =~= bytes@.take(i - 1));
                        assert(self.model() =~~= step_byte(mid, b));
                        assert(self.model() =~~= step_data(pre.model(), bytes@.take(i as int)));
                    }
                }
                proof {
                    assert(bytes@.take(bytes@.len() as int) =~= bytes@);
                    assert(self.model() =~~= step_op(pre.model(), op@));
                }
            },
            BusOp::ResetLow => {
                proof {
                    assert(self.model() =~~= step_op(pre.model(), op@));
                }
            },
            BusOp::ResetHigh => {
                proof {
                    assert(self.model() =~~= step_op(pre.model(), op@));
                }
            },
            BusOp::DelayUs(_) => {
                proof {
                    assert(self.model() =~~= step_op(pre.model(), op@));
                }
            },
        }
    }

    /// Applies every operation of a trace in order: the new state is
    /// exactly [`run_ops`] of the old state over the trace.
    pub fn apply_all(&mut self, ops: &Vec<BusOp>)
        requires
            old(self).wf(),
        ensures
            final(self).wf(),
            final(self).model() == run_ops(
                old(self).model(),
                ops@.map_values(|o: BusOp| o@),
            ),
    {
        let ghost pre = self.model();
        let ghost opsv = ops@.map_values(|o: BusOp| o@);
        let mut i: usize = 0;
        while i < ops.len()
            invariant
                self.wf(),
                i <= ops@.len(),
                opsv == ops@.map_values(|o: BusOp| o@),
                self.model() == run_ops(pre, opsv.take(i as int)),
            decreases ops@.len() - i,
        {
            self.apply(&ops[i]);
            i = i + 1;
            proof {
                assert(opsv.take(i as int).drop_last() =~= opsv.take(i - 1));
                assert(self.model() =~~= run_ops(pre, opsv.take(i as int)));
            }
        }
        proof {
            assert(opsv.take(opsv.len() as int) =~= opsv);
        }
    }
}

} // verus!

use crate::color::Rgb565;
use crate::geom::Rect;
use crate::session::fill_ops;
use crate::session::clear_ops;
use crate::session::solid_bytes;

verus! {

/// Window and cursor on the panel, one pixel word per panel position.
pub open spec fn model_wf(m: FrameModel) -> bool {
    &&& m.px.len() == (PANEL_W as int) * (PANEL_H as int)
    &&& 0 <= m.c0 <= m.c1 < PANEL_W
    &&& 0 <= m.r0 <= m.r1 < PANEL_H
    &&& m.c0 <= m.cx <= m.c1
    &&& m.r0 <= m.cy <= m.r1
}

/// Width of the window in pixels.
pub open spec fn win_w(m: FrameModel) -> int {
    m.c1 - m.c0 + 1
}

/// Number of pixels the window covers.
pub open spec fn win_area(m: FrameModel) -> int {
    (m.c1 - m.c0 + 1) * (m.r1 - m.r0 + 1)
}

/// Row-major position of `(x, y)` within the window.
pub open spec fn win_pos(m: FrameModel, x: int, y: int) -> int {
    (y - m.r0) * win_w(m) + (x - m.c0)
}

/// Row-major position of the cursor within the window.
pub open spec fn cursor_pos(m: FrameModel) -> int {
    win_pos(m, m.cx, m.cy)
}

/// Folding `n` solid pixel encodings from the cursor writes the color
/// word at the next `n` window positions, row-major, and leaves the
/// cursor `n` positions on (back at the window origin when the window
/// is exactly exhausted); no pixel outside those positions changes.
#[verifier::rlimit(80)]
pub proof fn lemma_step_solid(m: FrameModel, c: Rgb565, n: int)
    requires
        model_wf(m),
        m.pending is None,
        c.wf(),
        0 <= n,
        cursor_pos(m) + n <= win_area(m),
    ensures
        ({
            let m2 = step_data(m, solid_bytes(c, n));
            &&& m2.c0 == m.c0 && m2.c1 == m.c1 && m2.r0 == m.r0 && m2.r1 == m.r1
            &&& m2.pending is None
            &&& model_wf(m2)
            &&& (cursor_pos(m) + n < win_area(m) ==> cursor_pos(m2) == cursor_pos(m) + n)
            &&& (cursor_pos(m) + n == win_area(m) ==> cursor_pos(m2) == 0)
            &&& forall|x: int, y: int|
                0 <= x < PANEL_W && 0 <= y < PANEL_H ==> #[trigger] m2.px[y * PANEL_W + x] == (
                if m.c0 <= x <= m.c1 && m.r0 <= y <= m.r1 && cursor_pos(m) <= win_pos(m, x, y)
                    < cursor_pos(m) + n {
                    c.word() as u16
                } else {
                    m.px[y * PANEL_W + x]
                })
        }),
    decreases n,
{
    let ww = win_w(m);
    assert(cursor_pos(m) < win_area(m)) by (nonlinear_arith)
        requires
            m.c0 <= m.cx <= m.c1,
            m.r0 <= m.cy <= m.r1,
            ww == m.c1 - m.c0 + 1,
            cursor_pos(m) == (m.cy - m.r0) * ww + (m.cx - m.c0),
            win_area(m) == ww * (m.r1 - m.r0 + 1),
    ;
    if n == 0 {
        assert(solid_bytes(c, 0) =~= Seq::<u8>::empty());
    } else {
        reveal_with_fuel(step_data, 3);
        lemma_step_solid(m, c, n - 1);
        let m1 = step_data(m, solid_bytes(c, n - 1));
        let sb = solid_bytes(c, n);
        assert(sb.drop_last().drop_last() =~= solid_bytes(c, n - 1));
        assert(sb.last() == c.lo_byte());
        assert(sb.drop_last().last() == c.hi_byte());
        assert(sb.drop_last().len() != 0);
        let mid = step_byte(m1, c.hi_byte());
        let m2 = step_byte(mid, c.lo_byte());
        assert(step_data(m, sb) == m2);
        assert(cursor_pos(m1) == cursor_pos(m) + n - 1);
        assert(c.hi_byte() * 256 + c.lo_byte() == c.word());
        let idx = m1.cy * PANEL_W + m1.cx;
        assert(0 <= idx < (PANEL_W as int) * (PANEL_H as int)) by (nonlinear_arith)
            requires
                0 <= m1.cx < 128,
                0 <= m1.cy < 128,
                idx == m1.cy * 128 + m1.cx,
                PANEL_W == 128,
                PANEL_H == 128,
        ;
        assert(m2.px == m1.px.update(idx, c.word() as u16));
        if m1.cx < m1.c1 {
            assert(cursor_pos(m2) == cursor_pos(m1) + 1);
            assert(cursor_pos(m1) + 1 < win_area(m1)) by (nonlinear_arith)
                requires
                    m1.c0 <= m1.cx < m1.c1,
                    m1.r0 <= m1.cy <= m1.r1,
                    cursor_pos(m1) == (m1.cy - m1.r0) * (m1.c1 - m1.c0 + 1) + (m1.cx - m1.c0),
                    win_area(m1) == (m1.c1 - m1.c0 + 1) * (m1.r1 - m1.r0 + 1),
            ;
        } else if m1.cy < m1.r1 {
            assert(cursor_pos(m2) == cursor_pos(m1) + 1) by (nonlinear_arith)
                requires
                    m1.cx == m1.c1,
                    ww == m1.c1 - m1.c0 + 1,
                    cursor_pos(m1) == (m1.cy - m1.r0) * ww + (m1.cx - m1.c0),
                    cursor_pos(m2) == (m1.cy + 1 - m1.r0) * ww + 0,
                    m2.cx == m1.c0,
                    m2.cy == m1.cy + 1,
            ;
            assert(cursor_pos(m1) + 1 < win_area(m1)) by (nonlinear_arith)
                requires
                    m1.cx == m1.c1,
                    m1.c0 <= m1.cx,
                    m1.r0 <= m1.cy < m1.r1,
                    cursor_pos(m1) == (m1.cy - m1.r0) * (m1.c1 - m1.c0 + 1) + (m1.cx - m1.c0),
                    win_area(m1) == (m1.c1 - m1.c0 + 1) * (m1.r1 - m1.r0 + 1),
            ;
        } else {
            assert(cursor_pos(m1) == win_area(m1) - 1) by (nonlinear_arith)
                requires
                    m1.cx == m1.c1,
                    m1.cy == m1.r1,
                    ww == m1.c1 - m1.c0 + 1,
                    cursor_pos(m1) == (m1.cy - m1.r0) * ww + (m1.cx - m1.c0),
                    win_area(m1) == ww * (m1.r1 - m1.r0 + 1),
            ;
            assert(m2.cx == m.c0 && m2.cy == m.r0);
            assert(cursor_pos(m2) == (m.r0 - m.r0) * win_w(m2) + (m.c0 - m.c0));
            assert(cursor_pos(m2) == 0);
        }
        assert forall|x: int, y: int|
            0 <= x < PANEL_W && 0 <= y < PANEL_H implies #[trigger] m2.px[y * PANEL_W + x] == (
            if m.c0 <= x <= m.c1 && m.r0 <= y <= m.r1 && cursor_pos(m) <= win_pos(m, x, y)
                < cursor_pos(m) + n {
                c.word() as u16
            } else {
                m.px[y * PANEL_W + x]
            }) by {
            if y * PANEL_W + x == idx {
                assert(x == m1.cx && y == m1.cy) by (nonlinear_arith)
                    requires
                        0 <= x < 128,
                        0 <= y < 128,
                        0 <= m1.cx < 128,
                        0 <= m1.cy < 128,
                        y * 128 + x == m1.cy * 128 + m1.cx,
                        PANEL_W == 128,
                ;
                assert(win_pos(m, x, y) == cursor_pos(m) + n - 1);
            } else {
                assert(m2.px[y * PANEL_W + x] == m1.px[y * PANEL_W + x]);
                if m.c0 <= x <= m.c1 && m.r0 <= y <= m.r1 && win_pos(m, x, y) == cursor_pos(m) + n
                    - 1 {
                    assert(x == m1.cx && y == m1.cy) by (nonlinear_arith)
                        requires
                            m.c0 <= x <= m.c1,
                            m.r0 <= y <= m.r1,
                            m.c0 <= m1.cx <= m.c1,
                            m.r0 <= m1.cy <= m.r1,
                            ww == m.c1 - m.c0 + 1,
                            (y - m.r0) * ww + (x - m.c0) == (m1.cy - m.r0) * ww + (m1.cx - m.c0),
                    ;
                    assert(false);
                }
            }
        }
    }
}

/// Running a concatenation is running the parts in order.
pub proof fn lemma_run_ops_concat(m: FrameModel, a: Seq<OpModel>, b: Seq<OpModel>)
    ensures
        run_ops(m, a + b) == run_ops(run_ops(m, a), b),
    decreases b.len(),
{
    if b.len() == 0 {
        assert(a + b =~= a);
    } else {
        lemma_run_ops_concat(m, a, b.drop_last());
        assert((a + b).drop_last() =~= a + b.drop_last());
        assert((a + b).last() == b.last());
    }
}

/// An operation that is neither a window command nor data leaves the
/// model as it is.
pub open spec fn passive_op(op: OpModel) -> bool {
    match op {
        OpModel::Command(code, p) => code != CMD_SET_COLUMN && code != CMD_SET_ROW && code
            != CMD_WRITE_RAM,
        OpModel::Data(_) => false,
        _ => true,
    }
}

/// A run of passive operations changes nothing.
pub proof fn lemma_run_passive(m: FrameModel, ops: Seq<OpModel>)
    requires
        forall|i: int| 0 <= i < ops.len() ==> passive_op(#[trigger] ops[i]),
    ensures
        run_ops(m, ops) == m,
    decreases ops.len(),
{
    if ops.len() > 0 {
        assert(passive_op(ops.last()));
        lemma_run_passive(m, ops.drop_last());
    }
}

/// Running a fill of `r` programs the window to `r`, writes the color
/// word at every pixel of `r` and no other, and leaves the cursor back
/// at the window origin.
#[verifier::rlimit(60)]
pub proof fn lemma_fill_ops_frame(m: FrameModel, r: Rect, c: Rgb565)
    requires
        model_wf(m),
        r.wf(),
        !r.is_degenerate(),
        c.wf(),
    ensures
        ({
            let m2 = run_ops(m, fill_ops(r, c));
            &&& m2.c0 == r.x && m2.c1 == r.x + r.w - 1
            &&& m2.r0 == r.y && m2.r1 == r.y + r.h - 1
            &&& m2.cx == r.x && m2.cy == r.y
            &&& m2.pending is None
            &&& model_wf(m2)
            &&& forall|x: int, y: int|
                0 <= x < PANEL_W && 0 <= y < PANEL_H ==> #[trigger] m2.px[y * PANEL_W + x] == (
                if r.x <= x < r.x + r.w && r.y <= y < r.y + r.h {
                    c.word() as u16
                } else {
                    m.px[y * PANEL_W + x]
                })
        }),
{
    reveal_with_fuel(run_ops, 5);
    let ops = fill_ops(r, c);
    let o1 = OpModel::Command(crate::link::CMD_SET_COLUMN, seq![r.x, (r.x + r.w - 1) as u8]);
    let o2 = OpModel::Command(crate::link::CMD_SET_ROW, seq![r.y, (r.y + r.h - 1) as u8]);
    let o3 = OpModel::Command(crate::link::CMD_WRITE_RAM, Seq::<u8>::empty());
    let o4 = OpModel::Data(solid_bytes(c, r.w * r.h));
    assert(ops =~= seq![o1, o2, o3, o4]);
    assert(seq![o1, o2, o3, o4].drop_last() =~= seq![o1, o2, o3]);
    assert(seq![o1, o2, o3].drop_last() =~= seq![o1, o2]);
    assert(seq![o1, o2].drop_last() =~= seq![o1]);
    assert(seq![o1].drop_last() =~= Seq::<OpModel>::empty());
    let ma = step_op(m, o1);
    let mb = step_op(ma, o2);
    let mc = step_op(mb, o3);
    assert(run_ops(m, ops) == step_data(mc, solid_bytes(c, r.w * r.h)));
    assert(mc.c0 == r.x && mc.c1 == r.x + r.w - 1 && mc.r0 == r.y && mc.r1 == r.y + r.h - 1);
    assert(mc.cx == r.x && mc.cy == r.y && mc.pending is None);
    assert(model_wf(mc));
    assert(cursor_pos(mc) == 0);
    assert(win_area(mc) == r.w * r.h);
    assert(win_area(mc) == r.w * r.h) by (nonlinear_arith)
        requires
            mc.c0 == r.x && mc.c1 == r.x + r.w - 1,
            mc.r0 == r.y && mc.r1 == r.y + r.h - 1,
            win_area(mc) == (mc.c1 - mc.c0 + 1) * (mc.r1 - mc.r0 + 1),
    ;
    lemma_step_solid(mc, c, r.w * r.h);
    let m2 = step_data(mc, solid_bytes(c, r.w * r.h));
    assert(cursor_pos(m2) == 0);
    assert(m2.cx == r.x && m2.cy == r.y) by (nonlinear_arith)
        requires
            m2.c0 == r.x && m2.r0 == r.y,
            m2.c0 <= m2.cx <= m2.c1,
            m2.r0 <= m2.cy <= m2.r1,
            cursor_pos(m2) == (m2.cy - m2.r0) * (m2.c1 - m2.c0 + 1) + (m2.cx - m2.c0),
            cursor_pos(m2) == 0,
    ;
    assert forall|x: int, y: int| 0 <= x < PANEL_W && 0 <= y < PANEL_H implies #[trigger] m2.px[y
        * PANEL_W + x] == (if r.x <= x < r.x + r.w && r.y <= y < r.y + r.h {
        c.word() as u16
    } else {
        m.px[y * PANEL_W + x]
    }) by {
        if mc.c0 <= x <= mc.c1 && mc.r0 <= y <= mc.r1 {
            assert(0 <= win_pos(mc, x, y) < win_area(mc)) by (nonlinear_arith)
                requires
                    mc.c0 <= x <= mc.c1,
                    mc.r0 <= y <= mc.r1,
                    win_w(mc) == mc.c1 - mc.c0 + 1,
                    win_pos(mc, x, y) == (y - mc.r0) * win_w(mc) + (x - mc.c0),
                    win_area(mc) == win_w(mc) * (mc.r1 - mc.r0 + 1),
            ;
        }
    }
}

/// Pixel-level reading of a clear: after `clear_ops(c)` runs, every
/// pixel of the panel holds the wire word of `c`, the window is the
/// full panel, and the cursor is back at the origin.
pub proof fn lemma_clear_frame(m: FrameModel, c: Rgb565)
    requires
        model_wf(m),
        c.wf(),
    ensures
        ({
            let m2 = run_ops(m, clear_ops(c));
            &&& model_wf(m2)
            &&& m2.c0 == 0 && m2.c1 == PANEL_W - 1 && m2.r0 == 0 && m2.r1 == PANEL_H - 1
            &&& m2.cx == 0 && m2.cy == 0
            &&& forall|x: int, y: int|
                0 <= x < PANEL_W && 0 <= y < PANEL_H ==> #[trigger] m2.px[y * PANEL_W + x]
                    == c.word() as u16
        }),
{
    lemma_fill_ops_frame(m, Rect { x: 0, y: 0, w: PANEL_W, h: PANEL_H }, c);
}

} // verus!

use crate::session::glyph_data;
use crate::session::glyph_ops;
use crate::session::text_ops_upto;
use crate::font::spec_glyph;
use crate::font::spec_glyph_bit;

verus! {

/// The word a glyph cell shows at row `rr`, column `cc`: the text color
/// on a set bit, the background on a clear one.
pub open spec fn glyph_px_word(ch: u8, rr: int, cc: int, fg: Rgb565, bg: Rgb565) -> u16 {
    if spec_glyph_bit(spec_glyph(ch), rr, cc) {
        fg.word() as u16
    } else {
        bg.word() as u16
    }
}

/// Folding the first `n` pixel encodings of a glyph from the origin of
/// its 8-by-8 window writes the glyph's colors at the first `n` cell
/// positions, row-major, and nothing else.
#[verifier::rlimit(100)]
#[verifier::spinoff_prover]
pub proof fn lemma_step_glyph(m: FrameModel, ch: u8, fg: Rgb565, bg: Rgb565, n: int)
    requires
        model_wf(m),
        m.pending is None,
        fg.wf(),
        bg.wf(),
        m.c1 == m.c0 + 7,
        m.r1 == m.r0 + 7,
        m.cx == m.c0,
        m.cy == m.r0,
        0 <= n <= 64,
    ensures
        ({
            let m2 = step_data(m, glyph_data(ch, fg, bg).take(2 * n));
            &&& m2.c0 == m.c0 && m2.c1 == m.c1 && m2.r0 == m.r0 && m2.r1 == m.r1
            &&& m2.pending is None
            &&& model_wf(m2)
            &&& (n < 64 ==> m2.cx == m.c0 + (n % 8) && m2.cy == m.r0 + (n / 8))
            &&& (n == 64 ==> m2.cx == m.c0 && m2.cy == m.r0)
            &&& forall|x: int, y: int|
                0 <= x < PANEL_W && 0 <= y < PANEL_H ==> #[trigger] m2.px[y * PANEL_W + x] == (
                if m.c0 <= x <= m.c1 && m.r0 <= y <= m.r1 && (y - m.r0) * 8 + (x - m.c0) < n {
                    glyph_px_word(ch, y - m.r0, x - m.c0, fg, bg)
                } else {
                    m.px[y * PANEL_W + x]
                })
        }),
    decreases n,
{
    if n == 0 {
        assert(glyph_data(ch, fg, bg).take(0) =~= Seq::<u8>::empty());
    } else {
        reveal_with_fuel(step_data, 3);
        lemma_step_glyph(m, ch, fg, bg, n - 1);
        let gd = glyph_data(ch, fg, bg);
        let m1 = step_data(m, gd.take(2 * (n - 1)));
        let bytes = gd.take(2 * n);
        assert(bytes.drop_last().drop_last() =~= gd.take(2 * (n - 1)));
        assert(bytes.drop_last().len() != 0);
        let on = spec_glyph_bit(spec_glyph(ch), (n - 1) / 8, (n - 1) % 8);
        let hi: u8 = if on { fg.hi_byte() } else { bg.hi_byte() };
        let lo: u8 = if on { fg.lo_byte() } else { bg.lo_byte() };
        assert((2 * n - 1) / 2 == n - 1 && (2 * n - 2) / 2 == n - 1);
        assert(bytes.last() == lo);
        assert(bytes.drop_last().last() == hi);
        let mid = step_byte(m1, hi);
        let m2 = step_byte(mid, lo);
        assert(step_data(m, bytes) == m2);
        assert(m1.cx == m.c0 + ((n - 1) % 8) && m1.cy == m.r0 + ((n - 1) / 8));
        assert(hi * 256 + lo == glyph_px_word(ch, (n - 1) / 8, (n - 1) % 8, fg, bg));
        let idx = m1.cy * PANEL_W + m1.cx;
        assert(0 <= idx < (PANEL_W as int) * (PANEL_H as int)) by (nonlinear_arith)
            requires
                0 <= m1.cx < 128,
                0 <= m1.cy < 128,
                idx == m1.cy * 128 + m1.cx,
                PANEL_W == 128,
                PANEL_H == 128,
        ;
        assert(m2.px == m1.px.update(idx, glyph_px_word(ch, (n - 1) / 8, (n - 1) % 8, fg, bg)));
        if m1.cx < m1.c1 {
            assert(n % 8 == (n - 1) % 8 + 1 && n / 8 == (n - 1) / 8);
        } else if m1.cy < m1.r1 {
            assert((n - 1) % 8 == 7);
            assert(n % 8 == 0 && n / 8 == (n - 1) / 8 + 1);
        } else {
            assert((n - 1) % 8 == 7 && (n - 1) / 8 == 7);
            assert(n == 64);
        }
        assert forall|x: int, y: int|
            0 <= x < PANEL_W && 0 <= y < PANEL_H implies #[trigger] m2.px[y * PANEL_W + x] == (
            if m.c0 <= x <= m.c1 && m.r0 <= y <= m.r1 && (y - m.r0) * 8 + (x - m.c0) < n {
                glyph_px_word(ch, y - m.r0, x - m.c0, fg, bg)
            } else {
                m.px[y * PANEL_W + x]
            }) by {
            if y * PANEL_W + x == idx {
                assert(x == m1.cx && y == m1.cy) by (nonlinear_arith)
                    requires
                        0 <= x < 128,
                        0 <= y < 128,
                        0 <= m1.cx < 128,
                        0 <= m1.cy < 128,
                        y * 128 + x == m1.cy * 128 + m1.cx,
                        PANEL_W == 128,
                ;
                assert((y - m.r0) * 8 + (x - m.c0) == n - 1);
            } else {
                assert(m2.px[y * PANEL_W + x] == m1.px[y * PANEL_W + x]);
                if m.c0 <= x <= m.c1 && m.r0 <= y <= m.r1 && (y - m.r0) * 8 + (x - m.c0) == n
                    - 1 {
                    assert(x == m1.cx && y == m1.cy);
                    assert(false);
                }
            }
        }
    }
}

/// Running one glyph's operations programs the window to its cell,
/// paints the cell per the glyph bitmap, touches nothing else, and
/// leaves the cursor at the cell origin.
#[verifier::rlimit(60)]
pub proof fn lemma_glyph_ops_frame(m: FrameModel, ch: u8, x: int, y: int, fg: Rgb565, bg: Rgb565)
    requires
        model_wf(m),
        fg.wf(),
        bg.wf(),
        0 <= x,
        x + 8 <= PANEL_W,
        0 <= y,
        y + 8 <= PANEL_H,
    ensures
        ({
            let m2 = run_ops(m, glyph_ops(ch, x, y, fg, bg));
            &&& model_wf(m2)
            &&& m2.c0 == x && m2.c1 == x + 7 && m2.r0 == y && m2.r1 == y + 7
            &&& m2.cx == x && m2.cy == y
            &&& m2.pending is None
            &&& forall|px_: int, py_: int|
                0 <= px_ < PANEL_W && 0 <= py_ < PANEL_H ==> #[trigger] m2.px[py_ * PANEL_W + px_]
                    == (if x <= px_ < x + 8 && y <= py_ < y + 8 {
                    glyph_px_word(ch, py_ - y, px_ - x, fg, bg)
                } else {
                    m.px[py_ * PANEL_W + px_]
                })
        }),
{
    reveal_with_fuel(run_ops, 5);
    let ops = glyph_ops(ch, x, y, fg, bg);
    let o1 = OpModel::Command(crate::link::CMD_SET_COLUMN, seq![x as u8, (x + 7) as u8]);
    let o2 = OpModel::Command(crate::link::CMD_SET_ROW, seq![y as u8, (y + 7) as u8]);
    let o3 = OpModel::Command(crate::link::CMD_WRITE_RAM, Seq::<u8>::empty());
    let o4 = OpModel::Data(glyph_data(ch, fg, bg));
    assert(ops =~= seq![o1, o2, o3, o4]);
    assert(seq![o1, o2, o3, o4].drop_last() =~= seq![o1, o2, o3]);
    assert(seq![o1, o2, o3].drop_last() =~= seq![o1, o2]);
    assert(seq![o1, o2].drop_last() =~= seq![o1]);
    assert(seq![o1].drop_last() =~= Seq::<OpModel>::empty());
    let ma = step_op(m, o1);
    let mb = step_op(ma, o2);
    let mc = step_op(mb, o3);
    assert(run_ops(m, ops) == step_data(mc, glyph_data(ch, fg, bg)));
    assert(mc.c0 == x && mc.c1 == x + 7 && mc.r0 == y && mc.r1 == y + 7);
    assert(mc.cx == x && mc.cy == y && mc.pending is None);
    assert(model_wf(mc));
    assert(glyph_data(ch, fg, bg).take(128int) =~= glyph_data(ch, fg, bg));
    lemma_step_glyph(mc, ch, fg, bg, 64);
}

/// Running a text run paints each glyph cell per its bitmap, left to
/// right in fixed-width cells, and touches no pixel outside the run's
/// cells.
pub proof fn lemma_text_ops_frame(
    m: FrameModel,
    s: Seq<u8>,
    n: int,
    x: int,
    y: int,
    fg: Rgb565,
    bg: Rgb565,
)
    requires
        model_wf(m),
        fg.wf(),
        bg.wf(),
        0 <= n <= s.len(),
        0 <= x,
        x + 8 * n <= PANEL_W,
        0 <= y,
        y + 8 <= PANEL_H,
    ensures
        ({
            let m2 = run_ops(m, text_ops_upto(s, n, x, y, fg, bg));
            &&& model_wf(m2)
            &&& forall|px_: int, py_: int|
                0 <= px_ < PANEL_W && 0 <= py_ < PANEL_H ==> #[trigger] m2.px[py_ * PANEL_W + px_]
                    == (if x <= px_ < x + 8 * n && y <= py_ < y + 8 {
                    glyph_px_word(s[(px_ - x) / 8], py_ - y, (px_ - x) % 8, fg, bg)
                } else {
                    m.px[py_ * PANEL_W + px_]
                })
        }),
    decreases n,
{
    if n == 0 {
        assert(text_ops_upto(s, 0, x, y, fg, bg) =~= Seq::<OpModel>::empty());
    } else {
        lemma_text_ops_frame(m, s, n - 1, x, y, fg, bg);
        let a = text_ops_upto(s, n - 1, x, y, fg, bg);
        let g = glyph_ops(s[n - 1], x + 8 * (n - 1), y, fg, bg);
        assert(text_ops_upto(s, n, x, y, fg, bg) == a + g);
        lemma_run_ops_concat(m, a, g);
        let m1 = run_ops(m, a);
        lemma_glyph_ops_frame(m1, s[n - 1], x + 8 * (n - 1), y, fg, bg);
        let m2 = run_ops(m1, g);
        assert forall|px_: int, py_: int|
            0 <= px_ < PANEL_W && 0 <= py_ < PANEL_H implies #[trigger] m2.px[py_ * PANEL_W + px_]
            == (if x <= px_ < x + 8 * n && y <= py_ < y + 8 {
            glyph_px_word(s[(px_ - x) / 8], py_ - y, (px_ - x) % 8, fg, bg)
        } else {
            m.px[py_ * PANEL_W + px_]
        }) by {
            if x + 8 * (n - 1) <= px_ < x + 8 * n && y <= py_ < y + 8 {
                assert((px_ - x) / 8 == n - 1 && (px_ - x) % 8 == px_ - (x + 8 * (n - 1)));
            }
        }
    }
}

} // verus!

use crate::session::ring_ops;
use crate::session::ring_top;
use crate::session::ring_bottom;
use crate::session::ring_left;
use crate::session::ring_right;

verus! {

/// True on the one-pixel boundary of `q`.
pub open spec fn on_ring(q: Rect, x: int, y: int) -> bool {
    &&& q.x <= x < q.x + q.w
    &&& q.y <= y < q.y + q.h
    &&& (x == q.x || x == q.x + q.w - 1 || y == q.y || y == q.y + q.h - 1)
}

/// Running one ring paints exactly the one-pixel boundary of `q` with
/// the color word and touches nothing else.
#[verifier::rlimit(100)]
#[verifier::spinoff_prover]
pub proof fn lemma_ring_frame(m: FrameModel, q: Rect, c: Rgb565)
    requires
        model_wf(m),
        q.wf(),
        q.w >= 1,
        q.h >= 1,
        c.wf(),
    ensures
        ({
            let m2 = run_ops(m, ring_ops(q, c));
            &&& model_wf(m2)
            &&& forall|x: int, y: int|
                0 <= x < PANEL_W && 0 <= y < PANEL_H ==> #[trigger] m2.px[y * PANEL_W + x] == (
                if on_ring(q, x, y) {
                    c.word() as u16
                } else {
                    m.px[y * PANEL_W + x]
                })
        }),
{
    let top = ring_top(q);
    let bottom = ring_bottom(q);
    let left = ring_left(q);
    let right = ring_right(q);
    let a1 = fill_ops(top, c);
    let a2 = fill_ops(bottom, c);
    let a3 = fill_ops(left, c);
    let a4 = fill_ops(right, c);
    assert(ring_ops(q, c) == a1 + a2 + a3 + a4);
    lemma_run_ops_concat(m, a1 + a2 + a3, a4);
    lemma_run_ops_concat(m, a1 + a2, a3);
    lemma_run_ops_concat(m, a1, a2);
    let m1 = run_ops(m, a1);
    let m2 = run_ops(m1, a2);
    let m3 = run_ops(m2, a3);
    let m4 = run_ops(m3, a4);
    assert(run_ops(m, ring_ops(q, c)) == m4);
    assert(top.wf() && !top.is_degenerate());
    lemma_fill_ops_frame(m, top, c);
    if bottom.is_degenerate() {
        assert(a2 =~= Seq::<OpModel>::empty());
        assert(m2 == m1);
    } else {
        lemma_fill_ops_frame(m1, bottom, c);
    }
    if left.is_degenerate() {
        assert(a3 =~= Seq::<OpModel>::empty());
        assert(m3 == m2);
    } else {
        lemma_fill_ops_frame(m2, left, c);
    }
    if right.is_degenerate() {
        assert(a4 =~= Seq::<OpModel>::empty());
        assert(m4 == m3);
    } else {
        lemma_fill_ops_frame(m3, right, c);
    }
    assert forall|x: int, y: int|
        0 <= x < PANEL_W && 0 <= y < PANEL_H implies #[trigger] m4.px[y * PANEL_W + x] == (
        if on_ring(q, x, y) {
            c.word() as u16
        } else {
            m.px[y * PANEL_W + x]
        }) by {
        assert(m.px[y * PANEL_W + x] == m.px[y * PANEL_W + x]);
    }
}

} // verus!
