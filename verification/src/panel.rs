use vstd::prelude::*;

use crate::uielement::{cell_idx, UIBuffer};
use crate::utils::{enccol, enccol_spec, imin, Color};

verus! {

/// An axis-aligned pixel rectangle; both corners are drawn inclusively.
#[derive(Clone, Copy, PartialEq, Eq, Structural, Debug)]
pub struct Bounds {
    pub min_x: u32,
    pub min_y: u32,
    pub max_x: u32,
    pub max_y: u32,
}

impl Bounds {
    pub open spec fn wf(self) -> bool {
        self.min_x <= self.max_x && self.min_y <= self.max_y
    }

    pub fn new(min_x: u32, min_y: u32, max_x: u32, max_y: u32) -> (b: Bounds)
        ensures
            b == (Bounds { min_x, min_y, max_x, max_y }),
    {
        Bounds { min_x, min_y, max_x, max_y }
    }
}

/// How a panel is painted: the outer `stroke_width` pixels on every side
/// take the stroke color, the interior the fill color.
#[derive(Clone, Copy, PartialEq, Eq, Structural, Debug)]
pub struct PanelStyle {
    pub stroke_width: u32,
    pub stroke_color: Color,
    pub fill_color: Color,
}

impl PanelStyle {
    pub fn new(fill_color: Color, stroke_color: Color, stroke_width: u32) -> (s: PanelStyle)
        ensures
            s == (PanelStyle { stroke_width, stroke_color, fill_color }),
    {
        PanelStyle { stroke_width, stroke_color, fill_color }
    }
}

/// A rectangular view with a stroked border and a filled interior.
#[derive(Clone, Copy, PartialEq, Eq, Structural, Debug)]
pub struct Panel {
    pub bounds: Bounds,
    pub style: PanelStyle,
}

/// The panel's inclusive width in its own coordinates.
pub open spec fn panel_bw(p: Panel) -> int {
    p.bounds.max_x - p.bounds.min_x
}

pub open spec fn panel_bh(p: Panel) -> int {
    p.bounds.max_y - p.bounds.min_y
}

/// Whether the panel-relative pixel `(x, y)` belongs to the stroke: it is
/// within `stroke_width` of some edge.
pub open spec fn panel_is_stroke(p: Panel, x: int, y: int) -> bool {
    let sw = p.style.stroke_width as int;
    x <= sw || x + sw >= panel_bw(p) || y <= sw || y + sw >= panel_bh(p)
}

/// The packed color the panel writes at its relative pixel `(x, y)`.
pub open spec fn panel_cell_color(p: Panel, x: int, y: int) -> u32 {
    if panel_is_stroke(p, x, y) {
        enccol_spec(p.style.stroke_color)
    } else {
        enccol_spec(p.style.fill_color)
    }
}

/// The cell index of the panel's relative pixel `(x, y)`.
pub open spec fn panel_cell(w: int, h: int, p: Panel, x: int, y: int) -> int {
    cell_idx(w, h, p.bounds.min_x + x, p.bounds.min_y + y)
}

/// The store after the panel's column `x` has been painted down to row `y`.
pub open spec fn panel_col_painted(
    w: int,
    h: int,
    s: Seq<u32>,
    p: Panel,
    x: int,
    y: int,
) -> Seq<u32>
    decreases y + 1,
{
    if y < 0 {
        s
    } else {
        panel_col_painted(w, h, s, p, x, y - 1).update(
            panel_cell(w, h, p, x, y),
            panel_cell_color(p, x, y),
        )
    }
}

/// The store after the panel's columns `0..=x` have been painted.
pub open spec fn panel_painted(w: int, h: int, s: Seq<u32>, p: Panel, x: int) -> Seq<u32>
    decreases x + 1,
{
    if x < 0 {
        s
    } else {
        panel_col_painted(w, h, panel_painted(w, h, s, p, x - 1), p, x, panel_bh(p))
    }
}

/// A grid cell of a panel that fits the buffer resolves without clamping,
/// to a distinct in-range index.
proof fn lemma_grid_cell(w: int, h: int, cx: int, cy: int)
    requires
        0 <= cx < w,
        0 <= cy < h,
    ensures
        cell_idx(w, h, cx, cy) == cy * w + cx,
        0 <= cy * w + cx < w * h,
{
    assert(cy * w + cx < w * h && cy * w >= 0) by (nonlinear_arith)
        requires
            0 <= cx < w,
            0 <= cy < h,
    ;
}

/// Distinct in-range grid pixels resolve to distinct cells.
proof fn lemma_grid_cell_inj(w: int, h: int, cx1: int, cy1: int, cx2: int, cy2: int)
    requires
        0 <= cx1 < w,
        0 <= cy1 < h,
        0 <= cx2 < w,
        0 <= cy2 < h,
        !(cx1 == cx2 && cy1 == cy2),
    ensures
        cell_idx(w, h, cx1, cy1) != cell_idx(w, h, cx2, cy2),
{
    lemma_grid_cell(w, h, cx1, cy1);
    lemma_grid_cell(w, h, cx2, cy2);
    assert(cy1 * w + cx1 != cy2 * w + cx2) by (nonlinear_arith)
        requires
            0 <= cx1 < w,
            0 <= cy1 < h,
            0 <= cx2 < w,
            0 <= cy2 < h,
            !(cx1 == cx2 && cy1 == cy2),
    ;
}

/// The panel folds keep the buffer's length.
pub proof fn lemma_panel_col_painted_len(w: int, h: int, s: Seq<u32>, p: Panel, x: int, y: int)
    requires
        w >= 1,
        h >= 1,
        s.len() == w * h,
        x >= 0,
    ensures
        panel_col_painted(w, h, s, p, x, y).len() == s.len(),
    decreases y + 1,
{
    if y >= 0 {
        lemma_panel_col_painted_len(w, h, s, p, x, y - 1);
        crate::uielement::lemma_cell_idx_in_range(w, h, p.bounds.min_x + x, p.bounds.min_y + y);
    }
}

pub proof fn lemma_panel_painted_len(w: int, h: int, s: Seq<u32>, p: Panel, x: int)
    requires
        w >= 1,
        h >= 1,
        s.len() == w * h,
    ensures
        panel_painted(w, h, s, p, x).len() == s.len(),
    decreases x + 1,
{
    if x >= 0 {
        lemma_panel_painted_len(w, h, s, p, x - 1);
        lemma_panel_col_painted_len(
            w,
            h,
            panel_painted(w, h, s, p, x - 1),
            p,
            x,
            panel_bh(p),
        );
    }
}

/// A panel that fits the buffer entirely.
pub open spec fn panel_fits(w: int, h: int, p: Panel) -> bool {
    p.bounds.wf() && (p.bounds.max_x as int) < w && (p.bounds.max_y as int) < h
}

/// One painted column: every row down to `y` shows its color, every other
/// cell is untouched.
proof fn lemma_panel_col(w: int, h: int, s: Seq<u32>, p: Panel, x: int, y: int)
    requires
        w >= 1,
        h >= 1,
        s.len() == w * h,
        panel_fits(w, h, p),
        0 <= x <= panel_bw(p),
        -1 <= y <= panel_bh(p),
    ensures
        panel_col_painted(w, h, s, p, x, y).len() == s.len(),
        forall|yy: int|
            0 <= yy <= y ==> panel_col_painted(w, h, s, p, x, y)[#[trigger] panel_cell(
                w,
                h,
                p,
                x,
                yy,
            )] == panel_cell_color(p, x, yy),
        forall|k: int|
            0 <= k < s.len() && (forall|yy: int|
                0 <= yy <= y ==> k != #[trigger] panel_cell(w, h, p, x, yy))
                ==> panel_col_painted(w, h, s, p, x, y)[k] == s[k],
    decreases y + 1,
{
    if y >= 0 {
        lemma_panel_col(w, h, s, p, x, y - 1);
        lemma_grid_cell(w, h, p.bounds.min_x + x, p.bounds.min_y + y);
        let prev = panel_col_painted(w, h, s, p, x, y - 1);
        let cur = panel_col_painted(w, h, s, p, x, y);
        assert forall|yy: int| 0 <= yy <= y implies cur[#[trigger] panel_cell(w, h, p, x, yy)]
            == panel_cell_color(p, x, yy) by {
            if yy < y {
                lemma_grid_cell_inj(
                    w,
                    h,
                    p.bounds.min_x + x,
                    p.bounds.min_y + yy,
                    p.bounds.min_x + x,
                    p.bounds.min_y + y,
                );
            }
        }
    }
}

/// The painted panel: every cell of every column shows its color, every
/// other cell is untouched.
proof fn lemma_panel_grid(w: int, h: int, s: Seq<u32>, p: Panel, x: int)
    requires
        w >= 1,
        h >= 1,
        s.len() == w * h,
        panel_fits(w, h, p),
        -1 <= x <= panel_bw(p),
    ensures
        panel_painted(w, h, s, p, x).len() == s.len(),
        forall|xx: int, yy: int|
            0 <= xx <= x && 0 <= yy <= panel_bh(p) ==> panel_painted(w, h, s, p, x)[#[trigger] panel_cell(
                w,
                h,
                p,
                xx,
                yy,
            )] == panel_cell_color(p, xx, yy),
    decreases x + 1,
{
    if x >= 0 {
        lemma_panel_grid(w, h, s, p, x - 1);
        let prev = panel_painted(w, h, s, p, x - 1);
        let cur = panel_painted(w, h, s, p, x);
        lemma_panel_col(w, h, prev, p, x, panel_bh(p));
        assert forall|xx: int, yy: int| 0 <= xx <= x && 0 <= yy <= panel_bh(p) implies cur[
            #[trigger] panel_cell(w, h, p, xx, yy)] == panel_cell_color(p, xx, yy) by {
            if xx < x {
                assert(prev[panel_cell(w, h, p, xx, yy)] == panel_cell_color(p, xx, yy));
                lemma_grid_cell(w, h, p.bounds.min_x + xx, p.bounds.min_y + yy);
                assert forall|yy2: int| 0 <= yy2 <= panel_bh(p) implies panel_cell(w, h, p, xx, yy)
                    != #[trigger] panel_cell(w, h, p, x, yy2) by {
                    lemma_grid_cell_inj(
                        w,
                        h,
                        p.bounds.min_x + xx,
                        p.bounds.min_y + yy,
                        p.bounds.min_x + x,
                        p.bounds.min_y + yy2,
                    );
                }
            }
        }
    }
}

/// Panel boundary law: after a fitting panel is painted, a pixel of the
/// panel whose distance to the nearest edge is at most the stroke width
/// shows the stroke color, and every other pixel of the panel the fill
/// color.
pub proof fn lemma_panel_boundary(w: int, h: int, s: Seq<u32>, p: Panel, x: int, y: int)
    requires
        w >= 1,
        h >= 1,
        s.len() == w * h,
        panel_fits(w, h, p),
        0 <= x <= panel_bw(p),
        0 <= y <= panel_bh(p),
    ensures
        panel_painted(w, h, s, p, panel_bw(p))[panel_cell(w, h, p, x, y)] == (
        if imin(imin(x, panel_bw(p) - x), imin(y, panel_bh(p) - y)) <= p.style.stroke_width as int {
            enccol_spec(p.style.stroke_color)
        } else {
            enccol_spec(p.style.fill_color)
        }),
{
    lemma_panel_grid(w, h, s, p, panel_bw(p));
    assert(panel_is_stroke(p, x, y) == (imin(imin(x, panel_bw(p) - x), imin(y, panel_bh(p) - y))
        <= p.style.stroke_width as int));
}

impl Panel {
    pub open spec fn wf(self) -> bool {
        self.bounds.wf()
    }

    pub fn new(bounds: Bounds, style: PanelStyle) -> (p: Panel)
        ensures
            p == (Panel { bounds, style }),
    {
        Panel { bounds, style }
    }

    pub fn abs_pos(&self) -> (r: (u32, u32))
        ensures
            r == (self.bounds.min_x, self.bounds.min_y),
    {
        (self.bounds.min_x, self.bounds.min_y)
    }

    pub fn pos(&self) -> (r: (u32, u32))
        ensures
            r == (self.bounds.min_x, self.bounds.min_y),
    {
        (self.bounds.min_x, self.bounds.min_y)
    }

    pub fn bbox(&self) -> (r: Bounds)
        ensures
            r == self.bounds,
    {
        self.bounds
    }

    /// Paint the panel: for every pixel of the inclusive bounds, the
    /// stroke color where the pixel lies within `stroke_width` of an edge,
    /// the fill color elsewhere, through the clamped index.
    pub fn draw(&self, buffer: &mut UIBuffer)
        requires
            old(buffer).wf(),
            self.wf(),
        ensures
            final(buffer).width == old(buffer).width,
            final(buffer).height == old(buffer).height,
            final(buffer).wf(),
            final(buffer).buffer@ == panel_painted(
                old(buffer).width as int,
                old(buffer).height as int,
                old(buffer).buffer@,
                *self,
                panel_bw(*self),
            ),
    {
        let ghost pre = *old(buffer);
        let ghost wd = pre.width as int;
        let ghost hd = pre.height as int;
        let bw: u64 = (self.bounds.max_x - self.bounds.min_x) as u64;
        let bh: u64 = (self.bounds.max_y - self.bounds.min_y) as u64;
        let sw: u64 = self.style.stroke_width as u64;
        let es: u32 = enccol(self.style.stroke_color);
        let ef: u32 = enccol(self.style.fill_color);
        let mut x: u64 = 0;
        while x <= bw
            invariant
                buffer.width == pre.width,
                buffer.height == pre.height,
                buffer.wf(),
                buffer.buffer@.len() == pre.buffer@.len(),
                x <= bw + 1,
                wd == pre.width as int,
                hd == pre.height as int,
                bw as int == panel_bw(*self),
                bh as int == panel_bh(*self),
                sw == self.style.stroke_width,
                es == enccol_spec(self.style.stroke_color),
                ef == enccol_spec(self.style.fill_color),
                self.bounds.wf(),
                buffer.buffer@ == panel_painted(wd, hd, pre.buffer@, *self, x as int - 1),
            decreases bw + 1 - x,
        {
            let mut y: u64 = 0;
            let ghost col_base = buffer.buffer@;
            while y <= bh
                invariant
                    buffer.width == pre.width,
                    buffer.height == pre.height,
                    buffer.wf(),
                    buffer.buffer@.len() == pre.buffer@.len(),
                    y <= bh + 1,
                    x <= bw,
                    wd == pre.width as int,
                    hd == pre.height as int,
                    bw as int == panel_bw(*self),
                    bh as int == panel_bh(*self),
                    sw == self.style.stroke_width,
                    es == enccol_spec(self.style.stroke_color),
                    ef == enccol_spec(self.style.fill_color),
                    self.bounds.wf(),
                    col_base == panel_painted(wd, hd, pre.buffer@, *self, x as int - 1),
                    buffer.buffer@ == panel_col_painted(wd, hd, col_base, *self, x as int, y as int - 1),
                decreases bh + 1 - y,
            {
                let on_stroke: bool = x <= sw || x + sw >= bw || y <= sw || y + sw >= bh;
                let c: u32 = if on_stroke {
                    es
                } else {
                    ef
                };
                let ghost before = buffer.buffer@;
                buffer.set_px(self.bounds.min_x as u64 + x, self.bounds.min_y as u64 + y, c);
                proof {
                    assert(on_stroke == panel_is_stroke(*self, x as int, y as int));
                    assert(c == panel_cell_color(*self, x as int, y as int));
                    assert(buffer.buffer@ == before.update(
                        cell_idx(wd, hd, self.bounds.min_x + x, self.bounds.min_y + y),
                        c,
                    ));
                    assert(buffer.buffer@ == panel_col_painted(
                        wd,
                        hd,
                        col_base,
                        *self,
                        x as int,
                        y as int,
                    ));
                }
                y = y + 1;
            }
            proof {
                assert(buffer.buffer@ == panel_col_painted(
                    wd,
                    hd,
                    panel_painted(wd, hd, pre.buffer@, *self, x as int - 1),
                    *self,
                    x as int,
                    panel_bh(*self),
                ));
                assert(buffer.buffer@ == panel_painted(wd, hd, pre.buffer@, *self, x as int));
            }
            x = x + 1;
        }
    }
}

} // verus!
