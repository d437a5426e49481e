use vstd::prelude::*;

use crate::fixed::{
    fx_ok, fx_of_px, fx_to_px, isqrt, lemma_abs_le_sqrt, lemma_mul_bound, lemma_sqrt_floor,
    lemma_tdiv_bound, px_of, sdiv, sqrt_floor, tdiv, fx_clamp,
};
use crate::utils::{enccol, enccol_spec, imax, imin, Color, Pt, RectCorners};

verus! {

/// The clamped cell index of pixel `(x, y)` in a `w x h` row-major store:
/// `y*w + x`, clamped into the store's range.
pub open spec fn cell_idx(w: int, h: int, x: int, y: int) -> int
    recommends
        x >= 0,
        y >= 0,
        w >= 1,
        h >= 1,
{
    imin(y * w + x, w * h - 1)
}

/// The cell a fixed-point position lands in: its pixel, resolved.
pub open spec fn pt_cell(w: int, h: int, x: int, y: int) -> int {
    cell_idx(w, h, px_of(x), px_of(y))
}

/// The squared fixed-point length of the segment from `a` to `b`.
pub open spec fn line_sq(a: Pt, b: Pt) -> int {
    (b.x - a.x) * (b.x - a.x) + (b.y - a.y) * (b.y - a.y)
}

/// The fixed-point distance from `a` to `b` (integer square root).
pub open spec fn line_d(a: Pt, b: Pt) -> int {
    sqrt_floor(line_sq(a, b) as nat) as int
}

/// How many whole-pixel steps the stroke from `a` to `b` takes.
pub open spec fn line_steps(a: Pt, b: Pt) -> int {
    line_d(a, b) / 65536
}

/// The fixed-point unit direction of the stroke, `(b - a) / d`.
pub open spec fn line_ux(a: Pt, b: Pt) -> int {
    if line_d(a, b) == 0 {
        0
    } else {
        tdiv((b.x - a.x) * 65536, line_d(a, b))
    }
}

pub open spec fn line_uy(a: Pt, b: Pt) -> int {
    if line_d(a, b) == 0 {
        0
    } else {
        tdiv((b.y - a.y) * 65536, line_d(a, b))
    }
}

/// The cell the i-th parametric sample of the stroke lands in.
pub open spec fn line_cell(w: int, h: int, a: Pt, b: Pt, i: int) -> int {
    pt_cell(w, h, a.x + line_ux(a, b) * i, a.y + line_uy(a, b) * i)
}

/// Whether the stroke from `a` to `b` paints cell `k`: some parametric
/// sample `floor(a + u*i)` lands in it, or it is the end point's own cell
/// (both endpoints are always included).
pub open spec fn line_covers(w: int, h: int, a: Pt, b: Pt, k: int) -> bool {
    (exists|i: int| 0 <= i <= line_steps(a, b) && k == #[trigger] line_cell(w, h, a, b, i)) || k
        == pt_cell(w, h, b.x as int, b.y as int)
}

/// The store contents after stroking `a`-`b` with packed color `e`.
pub open spec fn line_painted(w: int, h: int, s: Seq<u32>, a: Pt, b: Pt, e: u32) -> Seq<u32> {
    Seq::new(
        s.len(),
        |k: int|
            if line_covers(w, h, a, b, k) {
                e
            } else {
                s[k]
            },
    )
}

/// The lower end of the vertical stroke at column `minx + t` of a box.
pub open spec fn vline_lo(minx: int, miny: int, t: int) -> Pt {
    Pt { x: ((minx + t) * 65536) as i64, y: (miny * 65536) as i64 }
}

/// The upper end of the same stroke.
pub open spec fn vline_hi(minx: int, maxy: int, t: int) -> Pt {
    Pt { x: ((minx + t) * 65536) as i64, y: (maxy * 65536) as i64 }
}

/// The store contents after the first `t + 1` columns of an inclusive box
/// fill, each column a vertical stroke.
pub open spec fn box_painted(
    w: int,
    h: int,
    s: Seq<u32>,
    minx: int,
    miny: int,
    maxy: int,
    t: int,
    e: u32,
) -> Seq<u32>
    decreases t + 1,
{
    if t < 0 {
        s
    } else {
        line_painted(
            w,
            h,
            box_painted(w, h, s, minx, miny, maxy, t - 1, e),
            vline_lo(minx, miny, t),
            vline_hi(minx, maxy, t),
            e,
        )
    }
}

/// Every pixel position resolves to an in-range cell.
pub proof fn lemma_cell_idx_in_range(w: int, h: int, x: int, y: int)
    requires
        w >= 1,
        h >= 1,
        x >= 0,
        y >= 0,
    ensures
        0 <= cell_idx(w, h, x, y) < w * h,
{
    assert(y * w >= 0) by (nonlinear_arith)
        requires
            y >= 0,
            w >= 0,
    ;
    assert(w * h >= 1) by (nonlinear_arith)
        requires
            w >= 1,
            h >= 1,
    ;
}

/// Index safety: every fixed-point position, wherever it lies in the
/// plane, resolves to a valid in-range cell of the store.
pub proof fn lemma_pt_cell_in_range(w: int, h: int, x: int, y: int)
    requires
        w >= 1,
        h >= 1,
    ensures
        0 <= pt_cell(w, h, x, y) < w * h,
{
    crate::fixed::lemma_px_of_nonneg(x);
    crate::fixed::lemma_px_of_nonneg(y);
    lemma_cell_idx_in_range(w, h, px_of(x), px_of(y));
}

/// One step of the stroke loop: writing the i-th sample's cell extends
/// the set of painted cells by exactly that sample.
proof fn lemma_stroke_step(
    pre_seq: Seq<u32>,
    before: Seq<u32>,
    after: Seq<u32>,
    bw: int,
    bh: int,
    wd: int,
    hd: int,
    start: Pt,
    end: Pt,
    e: u32,
    i: int,
    cxi: int,
    cyi: int,
)
    requires
        wd >= 1,
        hd >= 1,
        bw == wd,
        bh == hd,
        pre_seq.len() == wd * hd,
        before.len() == pre_seq.len(),
        after == before.update(cell_idx(bw, bh, cxi, cyi), e),
        cxi == px_of(start.x + line_ux(start, end) * i),
        cyi == px_of(start.y + line_uy(start, end) * i),
        0 <= i,
        forall|k: int|
            0 <= k < pre_seq.len() ==> before[k] == (
            if (exists|j: int| 0 <= j < i && k == #[trigger] line_cell(wd, hd, start, end, j)) {
                e
            } else {
                pre_seq[k]
            }),
    ensures
        after.len() == pre_seq.len(),
        forall|k: int|
            0 <= k < pre_seq.len() ==> after[k] == (
            if (exists|j: int| 0 <= j < i + 1 && k == #[trigger] line_cell(wd, hd, start, end, j)) {
                e
            } else {
                pre_seq[k]
            }),
{
    let idxv = cell_idx(wd, hd, cxi, cyi);
    assert(cxi >= 0 && cyi >= 0) by {
        let vx = start.x + line_ux(start, end) * i;
        let vy = start.y + line_uy(start, end) * i;
        if vx >= 0 {
            vstd::arithmetic::div_mod::lemma_div_pos_is_pos(vx, 65536);
        }
        if vy >= 0 {
            vstd::arithmetic::div_mod::lemma_div_pos_is_pos(vy, 65536);
        }
    }
    assert(cyi * wd >= 0) by (nonlinear_arith)
        requires
            cyi >= 0,
            wd >= 1,
    ;
    assert(wd * hd >= 1) by (nonlinear_arith)
        requires
            wd >= 1,
            hd >= 1,
    ;
    assert(0 <= idxv < pre_seq.len());
    assert(idxv == line_cell(wd, hd, start, end, i));
    assert forall|k: int| 0 <= k < pre_seq.len() implies after[k] == (
    if (exists|j: int| 0 <= j < i + 1 && k == #[trigger] line_cell(wd, hd, start, end, j)) {
        e
    } else {
        pre_seq[k]
    }) by {
        if k == idxv {
            assert(0 <= i < i + 1 && k == line_cell(wd, hd, start, end, i));
        } else {
            assert(after[k] == before[k]);
            if (exists|j: int| 0 <= j < i + 1 && k == #[trigger] line_cell(wd, hd, start, end, j)) {
                let j = choose|j: int|
                    0 <= j < i + 1 && k == #[trigger] line_cell(wd, hd, start, end, j);
                assert(j < i);
            }
        }
    }
}

/// The last write of the stroke loop: writing the end point's cell turns
/// the painted set into exactly what `line_painted` describes.
proof fn lemma_stroke_finish(
    pre_seq: Seq<u32>,
    before: Seq<u32>,
    after: Seq<u32>,
    bw: int,
    bh: int,
    wd: int,
    hd: int,
    start: Pt,
    end: Pt,
    e: u32,
    n: int,
    cxi: int,
    cyi: int,
)
    requires
        wd >= 1,
        hd >= 1,
        bw == wd,
        bh == hd,
        pre_seq.len() == wd * hd,
        before.len() == pre_seq.len(),
        after == before.update(cell_idx(bw, bh, cxi, cyi), e),
        cxi == px_of(end.x as int),
        cyi == px_of(end.y as int),
        n == line_steps(start, end),
        0 <= n,
        forall|k: int|
            0 <= k < pre_seq.len() ==> before[k] == (
            if (exists|j: int| 0 <= j < n + 1 && k == #[trigger] line_cell(wd, hd, start, end, j)) {
                e
            } else {
                pre_seq[k]
            }),
    ensures
        after == line_painted(wd, hd, pre_seq, start, end, e),
{
    let idxv = cell_idx(wd, hd, cxi, cyi);
    assert(cxi >= 0 && cyi >= 0) by {
        if end.x >= 0 {
            vstd::arithmetic::div_mod::lemma_div_pos_is_pos(end.x as int, 65536);
        }
        if end.y >= 0 {
            vstd::arithmetic::div_mod::lemma_div_pos_is_pos(end.y as int, 65536);
        }
    }
    assert(cyi * wd >= 0) by (nonlinear_arith)
        requires
            cyi >= 0,
            wd >= 1,
    ;
    assert(wd * hd >= 1) by (nonlinear_arith)
        requires
            wd >= 1,
            hd >= 1,
    ;
    assert(0 <= idxv < pre_seq.len());
    assert(idxv == pt_cell(wd, hd, end.x as int, end.y as int));
    assert forall|k: int| 0 <= k < pre_seq.len() implies after[k] == (
    if line_covers(wd, hd, start, end, k) {
        e
    } else {
        pre_seq[k]
    }) by {
        if k == idxv {
            assert(line_covers(wd, hd, start, end, k));
        } else {
            assert(after[k] == before[k]);
            if (exists|j: int| 0 <= j <= n && k == #[trigger] line_cell(wd, hd, start, end, j)) {
                let j = choose|j: int|
                    0 <= j <= n && k == #[trigger] line_cell(wd, hd, start, end, j);
                assert(0 <= j < n + 1 && k == line_cell(wd, hd, start, end, j));
                assert(before[k] == e);
            } else {
                if (exists|j: int|
                    0 <= j < n + 1 && k == #[trigger] line_cell(wd, hd, start, end, j)) {
                    let j = choose|j: int|
                        0 <= j < n + 1 && k == #[trigger] line_cell(wd, hd, start, end, j);
                    assert(0 <= j <= n && k == line_cell(wd, hd, start, end, j));
                }
                assert(before[k] == pre_seq[k]);
                assert(!line_covers(wd, hd, start, end, k));
            }
        }
    }
    assert(after =~= line_painted(wd, hd, pre_seq, start, end, e));
}

/// The integer-pixel fixed-point position of `(x, y)`.
pub open spec fn px_pt(x: u32, y: u32) -> Pt {
    Pt { x: fx_clamp(x as int * 65536) as i64, y: fx_clamp(y as int * 65536) as i64 }
}

/// The framebuffer: a `width x height` grid of packed 24-bit colors,
/// stored row major. Every read and write resolves through the clamped
/// index, so no access ever aborts a frame.
pub struct UIBuffer {
    pub width: usize,
    pub height: usize,
    pub buffer: Vec<u32>,
}

impl UIBuffer {
    /// Well-formed: at least one cell, and the store's length matches.
    pub open spec fn wf(self) -> bool {
        self.width >= 1 && self.height >= 1 && self.buffer@.len() == self.width * self.height
    }

    /// The clamped cell index of pixel `(x, y)` in this buffer.
    pub open spec fn idx_at(self, x: int, y: int) -> int {
        cell_idx(self.width as int, self.height as int, x, y)
    }

    /// Index safety: every pixel position resolves to an in-range cell.
    pub proof fn lemma_idx_in_range(self, x: int, y: int)
        requires
            self.wf(),
            x >= 0,
            y >= 0,
        ensures
            0 <= self.idx_at(x, y) < self.buffer@.len(),
    {
        assert(y * self.width >= 0) by (nonlinear_arith)
            requires
                y >= 0,
                self.width >= 0,
        ;
        assert(self.width * self.height >= 1) by (nonlinear_arith)
            requires
                self.width >= 1,
                self.height >= 1,
        ;
    }

    /// A fresh all-black framebuffer.
    pub fn new(width: usize, height: usize) -> (buf: UIBuffer)
        requires
            width >= 1,
            height >= 1,
            width * height <= usize::MAX,
        ensures
            buf.wf(),
            buf.width == width,
            buf.height == height,
            forall|k: int| 0 <= k < buf.buffer@.len() ==> buf.buffer@[k] == 0u32,
    {
        let total: usize = width * height;
        let mut buffer: Vec<u32> = Vec::new();
        let mut i: usize = 0;
        while i < total
            invariant
                buffer@.len() == i,
                i <= total,
                forall|k: int| 0 <= k < i ==> buffer@[k] == 0u32,
            decreases total - i,
        {
            buffer.push(0u32);
            i = i + 1;
        }
        UIBuffer { width, height, buffer }
    }

    /// The cell at pixel `(x, y)`, through the clamped index.
    pub fn get(&mut self, x: usize, y: usize) -> (cell: &mut u32)
        requires
            old(self).wf(),
            y as int * old(self).width as int + x as int <= usize::MAX,
        ensures
            *cell == old(self).buffer@[old(self).idx_at(x as int, y as int)],
            final(self).width == old(self).width,
            final(self).height == old(self).height,
            final(self).buffer@ == old(self).buffer@.update(
                old(self).idx_at(x as int, y as int),
                *final(cell),
            ),
            final(self).wf(),
    {
        proof {
            old(self).lemma_idx_in_range(x as int, y as int);
        }
        let len: usize = self.buffer.len();
        let raw: usize = y * self.width + x;
        let idx: usize = if raw <= len - 1 {
            raw
        } else {
            len - 1
        };
        &mut self.buffer[idx]
    }

    /// The cell at an integer pixel position, through the clamped index.
    pub fn get_vec(&mut self, v: (u32, u32)) -> (cell: &mut u32)
        requires
            old(self).wf(),
            v.1 as int * old(self).width as int + v.0 as int <= usize::MAX,
        ensures
            *cell == old(self).buffer@[old(self).idx_at(v.0 as int, v.1 as int)],
            final(self).width == old(self).width,
            final(self).height == old(self).height,
            final(self).buffer@ == old(self).buffer@.update(
                old(self).idx_at(v.0 as int, v.1 as int),
                *final(cell),
            ),
            final(self).wf(),
    {
        self.get(v.0 as usize, v.1 as usize)
    }

    /// Write one packed value at pixel `(x, y)` through the clamped index.
    pub fn set_px(&mut self, x: u64, y: u64, v: u32)
        requires
            old(self).wf(),
            x <= 0x10000000000,
            y <= 0x10000000000,
        ensures
            final(self).width == old(self).width,
            final(self).height == old(self).height,
            final(self).wf(),
            final(self).buffer@ == old(self).buffer@.update(
                old(self).idx_at(x as int, y as int),
                v,
            ),
    {
        proof {
            old(self).lemma_idx_in_range(x as int, y as int);
            lemma_mul_bound(y as int, self.width as int, 0x10000000000, usize::MAX as int);
        }
        let len: usize = self.buffer.len();
        let raw: u128 = y as u128 * self.width as u128 + x as u128;
        let idx: usize = if raw <= (len - 1) as u128 {
            raw as usize
        } else {
            len - 1
        };
        let cell = &mut self.buffer[idx];
        *cell = v;
    }

    /// Stroke the segment from `start` to `end`: let `d` be their
    /// distance and `u = (end - start) / d`; the pixel at
    /// `floor(start + u*i)` is painted for every `i` in `[0, floor(d)]`,
    /// and both endpoints are included. A zero-length stroke paints the
    /// single pixel at `start`.
    pub fn draw_line(&mut self, start: Pt, end: Pt, color: Color)
        requires
            old(self).wf(),
            start.wf(),
            end.wf(),
        ensures
            final(self).width == old(self).width,
            final(self).height == old(self).height,
            final(self).wf(),
            final(self).buffer@ == line_painted(
                old(self).width as int,
                old(self).height as int,
                old(self).buffer@,
                start,
                end,
                enccol_spec(color),
            ),
    {
        let ghost pre = *old(self);
        let ghost wd = pre.width as int;
        let ghost hd = pre.height as int;
        let e: u32 = enccol(color);
        let dx: i64 = end.x - start.x;
        let dy: i64 = end.y - start.y;
        proof {
            lemma_mul_bound(dx as int, dx as int, 0x20000000000, 0x20000000000);
            lemma_mul_bound(dy as int, dy as int, 0x20000000000, 0x20000000000);
            assert(dx as int * dx as int >= 0) by (nonlinear_arith);
            assert(dy as int * dy as int >= 0) by (nonlinear_arith);
        }
        let sq: i128 = (dx as i128) * (dx as i128) + (dy as i128) * (dy as i128);
        let d64: u64 = isqrt(sq as u128);
        proof {
            lemma_sqrt_floor(sq as nat);
            assert(d64 as int <= 0x40000000000) by (nonlinear_arith)
                requires
                    (d64 as int) * (d64 as int) <= sq as int,
                    (sq as int) < 0x1000000000000000000000,
                    (d64 as int) >= 0,
            ;
            assert(line_sq(start, end) == sq as int);
            assert(line_d(start, end) == d64 as int);
        }
        let n: u64 = d64 / 65536;
        proof {
            vstd::arithmetic::div_mod::lemma_fundamental_div_mod(d64 as int, 65536);
        }
        let ux: i64;
        let uy: i64;
        if d64 == 0 {
            ux = 0;
            uy = 0;
        } else {
            proof {
                lemma_abs_le_sqrt(dx as int, sq as int);
                lemma_abs_le_sqrt(dy as int, sq as int);
                lemma_tdiv_bound(dx as int * 65536, d64 as int, 65536);
                lemma_tdiv_bound(dy as int * 65536, d64 as int, 65536);
            }
            ux = sdiv(dx * 65536, d64 as i64);
            uy = sdiv(dy * 65536, d64 as i64);
        }
        let mut i: u64 = 0;
        while i <= n
            invariant
                self.width == pre.width,
                self.height == pre.height,
                self.wf(),
                self.buffer@.len() == pre.buffer@.len(),
                i <= n + 1,
                start.wf(),
                end.wf(),
                e == enccol_spec(color),
                wd == pre.width as int,
                hd == pre.height as int,
                n as int == line_steps(start, end),
                d64 as int == line_d(start, end),
                d64 <= 0x40000000000,
                65536 * (n as int) <= d64 as int,
                ux as int == line_ux(start, end),
                uy as int == line_uy(start, end),
                -65536 <= ux <= 65536,
                -65536 <= uy <= 65536,
                forall|k: int|
                    0 <= k < pre.buffer@.len() ==> self.buffer@[k] == (
                    if (exists|j: int|
                        0 <= j < i && k == #[trigger] line_cell(wd, hd, start, end, j)) {
                        e
                    } else {
                        pre.buffer@[k]
                    }),
            decreases n + 1 - i,
        {
            proof {
                lemma_mul_bound(ux as int, i as int, 65536, n as int);
                lemma_mul_bound(uy as int, i as int, 65536, n as int);
                assert(65536 * (i as int) <= 65536 * (n as int));
            }
            let sx: i64 = start.x + ux * (i as i64);
            let sy: i64 = start.y + uy * (i as i64);
            let cx: u64 = fx_to_px(sx);
            let cy: u64 = fx_to_px(sy);
            let ghost before = self.buffer@;
            let ghost bw = self.width;
            let ghost bh = self.height;
            self.set_px(cx, cy, e);
            proof {
                lemma_stroke_step(
                    pre.buffer@,
                    before,
                    self.buffer@,
                    bw as int,
                    bh as int,
                    wd,
                    hd,
                    start,
                    end,
                    e,
                    i as int,
                    cx as int,
                    cy as int,
                );
            }
            i = i + 1;
        }
        let cx: u64 = fx_to_px(end.x);
        let cy: u64 = fx_to_px(end.y);
        let ghost before = self.buffer@;
        let ghost bw = self.width;
        let ghost bh = self.height;
        self.set_px(cx, cy, e);
        proof {
            lemma_stroke_finish(
                pre.buffer@,
                before,
                self.buffer@,
                bw as int,
                bh as int,
                wd,
                hd,
                start,
                end,
                e,
                n as int,
                cx as int,
                cy as int,
            );
        }
    }

    /// Stroke between two integer pixel positions.
    pub fn draw_line_u32(&mut self, start: (u32, u32), end: (u32, u32), color: Color)
        requires
            old(self).wf(),
        ensures
            final(self).width == old(self).width,
            final(self).height == old(self).height,
            final(self).wf(),
            final(self).buffer@ == line_painted(
                old(self).width as int,
                old(self).height as int,
                old(self).buffer@,
                px_pt(start.0, start.1),
                px_pt(end.0, end.1),
                enccol_spec(color),
            ),
    {
        let s = Pt { x: fx_of_px(start.0), y: fx_of_px(start.1) };
        let t = Pt { x: fx_of_px(end.0), y: fx_of_px(end.1) };
        self.draw_line(s, t, color);
    }

    /// Fill the inclusive rectangle spanned by the two corners: every
    /// integer column in the x range is stroked vertically over the whole
    /// y range.
    pub fn draw_box(&mut self, min: Pt, max: Pt, color: Color)
        requires
            old(self).wf(),
            min.wf(),
            max.wf(),
        ensures
            final(self).width == old(self).width,
            final(self).height == old(self).height,
            final(self).wf(),
            final(self).buffer@ == box_painted(
                old(self).width as int,
                old(self).height as int,
                old(self).buffer@,
                imin(px_of(min.x as int), px_of(max.x as int)),
                imin(px_of(min.y as int), px_of(max.y as int)),
                imax(px_of(min.y as int), px_of(max.y as int)),
                imax(px_of(min.x as int), px_of(max.x as int)) - imin(
                    px_of(min.x as int),
                    px_of(max.x as int),
                ),
                enccol_spec(color),
            ),
    {
        let ghost pre = *old(self);
        let ghost wd = pre.width as int;
        let ghost hd = pre.height as int;
        let e: u32 = enccol(color);
        let x1: u64 = fx_to_px(min.x);
        let y1: u64 = fx_to_px(min.y);
        let x2: u64 = fx_to_px(max.x);
        let y2: u64 = fx_to_px(max.y);
        proof {
            vstd::arithmetic::div_mod::lemma_div_is_ordered(min.x as int, 1099511627776, 65536);
            vstd::arithmetic::div_mod::lemma_div_is_ordered(min.y as int, 1099511627776, 65536);
            vstd::arithmetic::div_mod::lemma_div_is_ordered(max.x as int, 1099511627776, 65536);
            vstd::arithmetic::div_mod::lemma_div_is_ordered(max.y as int, 1099511627776, 65536);
            assert(x1 <= 16777216 && y1 <= 16777216 && x2 <= 16777216 && y2 <= 16777216);
        }
        let minx: u64 = if x1 <= x2 {
            x1
        } else {
            x2
        };
        let maxx: u64 = if x1 <= x2 {
            x2
        } else {
            x1
        };
        let miny: u64 = if y1 <= y2 {
            y1
        } else {
            y2
        };
        let maxy: u64 = if y1 <= y2 {
            y2
        } else {
            y1
        };
        let w: u64 = maxx - minx;
        let mut t: u64 = 0;
        while t <= w
            invariant
                self.width == pre.width,
                self.height == pre.height,
                self.wf(),
                t <= w + 1,
                e == enccol_spec(color),
                minx <= 16777216,
                miny <= 16777216,
                maxy <= 16777216,
                maxx <= 16777216,
                w <= 16777216,
                minx + w == maxx,
                wd == pre.width as int,
                hd == pre.height as int,
                self.buffer@ == box_painted(
                    wd,
                    hd,
                    pre.buffer@,
                    minx as int,
                    miny as int,
                    maxy as int,
                    t as int - 1,
                    e,
                ),
            decreases w + 1 - t,
        {
            let lox: i64 = ((minx + t) * 65536) as i64;
            let loy: i64 = (miny * 65536) as i64;
            let hiy: i64 = (maxy * 65536) as i64;
            let a = Pt { x: lox, y: loy };
            let b = Pt { x: lox, y: hiy };
            proof {
                assert(a == vline_lo(minx as int, miny as int, t as int));
                assert(b == vline_hi(minx as int, maxy as int, t as int));
            }
            let ghost mid = self.buffer@;
            self.draw_line(a, b, color);
            proof {
                assert(self.buffer@ == line_painted(wd, hd, mid, a, b, e));
                assert(mid == box_painted(
                    wd,
                    hd,
                    pre.buffer@,
                    minx as int,
                    miny as int,
                    maxy as int,
                    t as int - 1,
                    e,
                ));
                assert(self.buffer@ == box_painted(
                    wd,
                    hd,
                    pre.buffer@,
                    minx as int,
                    miny as int,
                    maxy as int,
                    t as int,
                    e,
                ));
            }
            t = t + 1;
        }
    }

    /// Draw a design-unit rectangle: with `fill`, stroke its four edges
    /// corner to corner; otherwise fill the inclusive box between its
    /// top-left and bottom-right corners.
    pub fn draw_rect(&mut self, rect: crate::utils::BBox, color: Color, fill: bool)
        requires
            old(self).wf(),
        ensures
            final(self).width == old(self).width,
            final(self).height == old(self).height,
            final(self).wf(),
            final(self).buffer@ == rect_painted(
                old(self).width as int,
                old(self).height as int,
                old(self).buffer@,
                rect,
                enccol_spec(color),
                fill,
            ),
    {
        if fill {
            let (trx, try0) = rect.tr();
            let (tlx, tly) = rect.tl();
            let (blx, bly) = rect.bl();
            let (brx, bry) = rect.br();
            let trp: (u32, u32) = (#[verifier::truncate] (trx as u32), #[verifier::truncate] (try0 as u32));
            let tlp: (u32, u32) = (#[verifier::truncate] (tlx as u32), #[verifier::truncate] (tly as u32));
            let blp: (u32, u32) = (#[verifier::truncate] (blx as u32), #[verifier::truncate] (bly as u32));
            let brp: (u32, u32) = (#[verifier::truncate] (brx as u32), #[verifier::truncate] (bry as u32));
            self.draw_line_u32(trp, tlp, color);
            self.draw_line_u32(tlp, blp, color);
            self.draw_line_u32(blp, brp, color);
            self.draw_line_u32(brp, trp, color);
        } else {
            let tl = Pt { x: (rect.x_min as i64) * 65536, y: (rect.y_max as i64) * 65536 };
            let br = Pt { x: (rect.x_max as i64) * 65536, y: (rect.y_min as i64) * 65536 };
            self.draw_box(tl, br, color);
        }
    }
}

/// The buffer after a design-unit rectangle is drawn: with `fill` its
/// four edges are stroked corner to corner; without it the inclusive box
/// between its top-left and bottom-right corners is filled column by
/// column. Corner coordinates pass through the unsigned conversion.
pub open spec fn rect_painted(
    w: int,
    h: int,
    base: Seq<u32>,
    rect: crate::utils::BBox,
    e: u32,
    fill: bool,
) -> Seq<u32> {
    if fill {
        let tr = px_pt(rect.x_max as u32, rect.y_max as u32);
        let tl = px_pt(rect.x_min as u32, rect.y_max as u32);
        let bl = px_pt(rect.x_min as u32, rect.y_min as u32);
        let br = px_pt(rect.x_max as u32, rect.y_min as u32);
        line_painted(
            w,
            h,
            line_painted(w, h, line_painted(w, h, line_painted(w, h, base, tr, tl, e), tl, bl, e), bl, br, e),
            br,
            tr,
            e,
        )
    } else {
        let tl = Pt { x: (rect.x_min as int * 65536) as i64, y: (rect.y_max as int * 65536) as i64 };
        let br = Pt { x: (rect.x_max as int * 65536) as i64, y: (rect.y_min as int * 65536) as i64 };
        box_painted(
            w,
            h,
            base,
            imin(px_of(tl.x as int), px_of(br.x as int)),
            imin(px_of(tl.y as int), px_of(br.y as int)),
            imax(px_of(tl.y as int), px_of(br.y as int)),
            imax(px_of(tl.x as int), px_of(br.x as int)) - imin(px_of(tl.x as int), px_of(br.x as int)),
            e,
        )
    }
}

/// One node of the scene: a panel or a text box, drawn by its tag.
pub enum ViewNode {
    Panel(crate::panel::Panel),
    TextBox(crate::textbox::TextBox),
}

/// The buffer after one node has drawn itself.
pub open spec fn node_painted(w: int, h: int, base: Seq<u32>, node: ViewNode) -> Seq<u32> {
    match node {
        ViewNode::Panel(p) => crate::panel::panel_painted(w, h, base, p, crate::panel::panel_bw(p)),
        ViewNode::TextBox(t) => crate::textbox::text_painted(
            w,
            h,
            base,
            t.text.chars@,
            t.position,
            t.text.chars@.len() as int,
        ),
    }
}

pub proof fn lemma_node_painted_len(w: int, h: int, base: Seq<u32>, node: ViewNode)
    requires
        w >= 1,
        h >= 1,
        base.len() == w * h,
    ensures
        node_painted(w, h, base, node).len() == base.len(),
{
    match node {
        ViewNode::Panel(p) => {
            crate::panel::lemma_panel_painted_len(w, h, base, p, crate::panel::panel_bw(p));
        },
        ViewNode::TextBox(t) => {
            crate::textbox::lemma_text_painted_len(
                w,
                h,
                base,
                t.text.chars@,
                t.position,
                t.text.chars@.len() as int,
            );
        },
    }
}

impl ViewNode {
    pub open spec fn wf(self) -> bool {
        match self {
            ViewNode::Panel(p) => p.wf(),
            ViewNode::TextBox(t) => t.wf(),
        }
    }

    /// Draw this node into the buffer, by its tag.
    pub fn draw(&self, buffer: &mut UIBuffer)
        requires
            old(buffer).wf(),
            self.wf(),
        ensures
            final(buffer).width == old(buffer).width,
            final(buffer).height == old(buffer).height,
            final(buffer).wf(),
            final(buffer).buffer@ == node_painted(
                old(buffer).width as int,
                old(buffer).height as int,
                old(buffer).buffer@,
                *self,
            ),
    {
        match self {
            ViewNode::Panel(p) => p.draw(buffer),
            ViewNode::TextBox(t) => t.draw(buffer),
        }
    }
}

/// The buffer after the first `i` children of a scene have drawn, in
/// insertion order: the later child paints over the earlier.
pub open spec fn scene_painted(
    w: int,
    h: int,
    base: Seq<u32>,
    children: Seq<ViewNode>,
    i: int,
) -> Seq<u32>
    decreases i,
{
    if i <= 0 {
        base
    } else {
        node_painted(w, h, scene_painted(w, h, base, children, i - 1), children[i - 1])
    }
}

/// The root of the scene: an ordered list of child views at position
/// `(0, 0)`, drawn in insertion order.
pub struct UIScene {
    pub children: Vec<ViewNode>,
}

impl UIScene {
    pub open spec fn wf(self) -> bool {
        forall|i: int| 0 <= i < self.children@.len() ==> (#[trigger] self.children@[i]).wf()
    }

    pub fn new() -> (s: UIScene)
        ensures
            s.children@.len() == 0,
            s.wf(),
    {
        UIScene { children: Vec::new() }
    }

    pub fn add_child(&mut self, child: ViewNode)
        ensures
            final(self).children@ == old(self).children@.push(child),
    {
        self.children.push(child);
    }

    pub fn abs_pos(&self) -> (r: (u32, u32))
        ensures
            r == (0u32, 0u32),
    {
        (0, 0)
    }

    pub fn pos(&self) -> (r: (u32, u32))
        ensures
            r == (0u32, 0u32),
    {
        (0, 0)
    }

    /// Draw every child in insertion order: the last inserted paints
    /// last, so on overlap it wins.
    pub fn draw(&self, buffer: &mut UIBuffer)
        requires
            old(buffer).wf(),
            self.wf(),
        ensures
            final(buffer).width == old(buffer).width,
            final(buffer).height == old(buffer).height,
            final(buffer).wf(),
            final(buffer).buffer@ == scene_painted(
                old(buffer).width as int,
                old(buffer).height as int,
                old(buffer).buffer@,
                self.children@,
                self.children@.len() as int,
            ),
    {
        let ghost pre = *old(buffer);
        let ghost wd = pre.width as int;
        let ghost hd = pre.height as int;
        let mut i: usize = 0;
        while i < self.children.len()
            invariant
                buffer.width == pre.width,
                buffer.height == pre.height,
                buffer.wf(),
                wd == pre.width as int,
                hd == pre.height as int,
                self.wf(),
                i <= self.children@.len(),
                buffer.buffer@ == scene_painted(wd, hd, pre.buffer@, self.children@, i as int),
            decreases self.children@.len() - i,
        {
            let child = &self.children[i];
            child.draw(buffer);
            i = i + 1;
        }
    }
}

/// Painter's order: when a scene draws a view and then a panel whose
/// bounds fit the buffer, every pixel of the panel afterwards shows the
/// panel's own color, whatever the first view painted beneath it.
pub proof fn lemma_painters_order(
    w: int,
    h: int,
    base: Seq<u32>,
    a: ViewNode,
    b: crate::panel::Panel,
    x: int,
    y: int,
)
    requires
        w >= 1,
        h >= 1,
        base.len() == w * h,
        crate::panel::panel_fits(w, h, b),
        0 <= x <= crate::panel::panel_bw(b),
        0 <= y <= crate::panel::panel_bh(b),
    ensures
        scene_painted(w, h, base, seq![a, ViewNode::Panel(b)], 2)[crate::panel::panel_cell(
            w,
            h,
            b,
            x,
            y,
        )] == (if crate::utils::imin(
            crate::utils::imin(x, crate::panel::panel_bw(b) - x),
            crate::utils::imin(y, crate::panel::panel_bh(b) - y),
        ) <= b.style.stroke_width as int {
            enccol_spec(b.style.stroke_color)
        } else {
            enccol_spec(b.style.fill_color)
        }),
{
    let cs = seq![a, ViewNode::Panel(b)];
    let mid = node_painted(w, h, base, a);
    lemma_node_painted_len(w, h, base, a);
    assert(cs[0] == a && cs[1] == ViewNode::Panel(b));
    assert(scene_painted(w, h, base, cs, 0) == base);
    assert(scene_painted(w, h, base, cs, 1) == node_painted(w, h, base, cs[0]));
    assert(scene_painted(w, h, base, cs, 2) == node_painted(w, h, mid, ViewNode::Panel(b)));
    crate::panel::lemma_panel_boundary(w, h, mid, b, x, y);
}

} // verus!
