use vstd::prelude::*;

use crate::fixed::{
    du_ok, fx_add, fx_clamp, fx_neg, fx_ok, fx_to_px, lemma_mul_bound, mulb, px_of, sdiv128, tdiv,
};
use crate::uielement::{cell_idx, line_painted, pt_cell, UIBuffer};
use crate::utils::{enccol, enccol_spec, seg_hit, BBox, Color, FontMetrics, GlyphRecord, LineSegment, OutlinePoint, Pt};

verus! {

/// The design-unit-to-pixel conversion context of one styled character:
/// the divisor `px_size = line_height * 224 / (point_size * units_per_em)`
/// carried as an exact rational.
#[derive(Clone, Copy, PartialEq, Eq, Structural, Debug)]
pub struct Scale {
    pub ps_fx: i64,
    pub upem: u16,
    pub line_height: i32,
}

impl Scale {
    pub open spec fn wf(self) -> bool {
        1 <= self.ps_fx <= 0x4000000 && self.upem >= 1 && self.line_height >= 1
    }
}

/// The fixed-point pixel value of `v` fixed-point design units:
/// `v / px_size = v * point_size * upem / (line_height * 224)`, the
/// quotient rounded toward zero and saturated into coordinate range.
pub open spec fn du2px(v: int, s: Scale) -> int {
    fx_clamp(tdiv(v * s.ps_fx * s.upem, s.line_height * 224 * 65536))
}

/// Convert fixed-point design units to fixed-point pixels.
pub fn du_to_px(v: i64, s: &Scale) -> (r: i64)
    requires
        s.wf(),
        du_ok(v),
    ensures
        r == du2px(v as int, *s),
        fx_ok(r),
{
    let num1: i128 = mulb(v as i128, s.ps_fx as i128, 0x100000000, 0x4000000);
    let num: i128 = mulb(num1, s.upem as i128, 0x400000000000000, 0x10000);
    let den: i128 = (s.line_height as i128) * 224 * 65536;
    let q: i128 = sdiv128(num, den);
    proof {
        assert(num == (v as int) * (s.ps_fx as int) * (s.upem as int));
        assert(den == (s.line_height as int) * 224 * 65536);
    }
    if q > 1099511627776 {
        1099511627776
    } else if q < -1099511627776 {
        -1099511627776
    } else {
        q as i64
    }
}

/// The affine transform of a design point into buffer coordinates: scale,
/// add the glyph origin, and flip the y axis.
pub open spec fn tx_spec(p: Pt, s: Scale, off: Pt) -> Pt {
    Pt {
        x: fx_clamp(du2px(p.x as int, s) + off.x) as i64,
        y: fx_clamp(-du2px(p.y as int, s) + off.y) as i64,
    }
}

pub fn transform(p: Pt, s: &Scale, off: Pt) -> (r: Pt)
    requires
        s.wf(),
        p.du_wf(),
        off.wf(),
    ensures
        r == tx_spec(p, *s, off),
        r.wf(),
{
    let px = du_to_px(p.x, s);
    let py = du_to_px(p.y, s);
    Pt { x: fx_add(px, off.x), y: fx_add(fx_neg(py), off.y) }
}

/// The pen position after the first `i` outline points: a Move, Line or
/// Quad leaves it on the transformed end point; the cubic walk ends on
/// its first control point, exactly as the stroke emits it.
pub open spec fn pen_at(pts: Seq<OutlinePoint>, s: Scale, off: Pt, i: int) -> Pt
    decreases i,
{
    if i <= 0 {
        Pt { x: 0, y: 0 }
    } else {
        match pts[i - 1] {
            OutlinePoint::Move { p } => tx_spec(p, s, off),
            OutlinePoint::Line { p } => tx_spec(p, s, off),
            OutlinePoint::Quad { c, p } => tx_spec(p, s, off),
            OutlinePoint::Curve { c1, c2, p } => tx_spec(c1, s, off),
        }
    }
}

/// The segments one outline point contributes, given the pen: none for a
/// Move; the single edge for a Line; the control polygon for a Quad; and
/// for a cubic the walk end-to-controls in the order the stroke draws it.
pub open spec fn segs_of(pt: OutlinePoint, pen: Pt, s: Scale, off: Pt) -> Seq<LineSegment> {
    match pt {
        OutlinePoint::Move { p } => Seq::empty(),
        OutlinePoint::Line { p } => seq![LineSegment { start: pen, end: tx_spec(p, s, off) }],
        OutlinePoint::Quad { c, p } => seq![
            LineSegment { start: pen, end: tx_spec(c, s, off) },
            LineSegment { start: tx_spec(c, s, off), end: tx_spec(p, s, off) },
        ],
        OutlinePoint::Curve { c1, c2, p } => seq![
            LineSegment { start: pen, end: tx_spec(p, s, off) },
            LineSegment { start: tx_spec(p, s, off), end: tx_spec(c2, s, off) },
            LineSegment { start: tx_spec(c2, s, off), end: tx_spec(c1, s, off) },
        ],
    }
}

/// All fill segments of the first `i` outline points, in emission order.
pub open spec fn segs_upto(pts: Seq<OutlinePoint>, s: Scale, off: Pt, i: int) -> Seq<LineSegment>
    decreases i,
{
    if i <= 0 {
        Seq::empty()
    } else {
        segs_upto(pts, s, off, i - 1) + segs_of(pts[i - 1], pen_at(pts, s, off, i - 1), s, off)
    }
}

/// The buffer after stroking each listed segment, in order.
pub open spec fn strokes_painted(
    w: int,
    h: int,
    base: Seq<u32>,
    segs: Seq<LineSegment>,
    e: u32,
) -> Seq<u32>
    decreases segs.len(),
{
    if segs.len() == 0 {
        base
    } else {
        line_painted(
            w,
            h,
            strokes_painted(w, h, base, segs.drop_last(), e),
            segs.last().start,
            segs.last().end,
            e,
        )
    }
}

/// Walk the outline with a pen: stroke every segment into the buffer and
/// return the segment list the fill will test against.
pub fn emit_segments(
    points: &Vec<OutlinePoint>,
    s: &Scale,
    off: Pt,
    color: Color,
    buffer: &mut UIBuffer,
) -> (segs: Vec<LineSegment>)
    requires
        old(buffer).wf(),
        s.wf(),
        off.wf(),
        forall|i: int| 0 <= i < points@.len() ==> (#[trigger] points@[i]).wf(),
    ensures
        final(buffer).width == old(buffer).width,
        final(buffer).height == old(buffer).height,
        final(buffer).wf(),
        segs@ == segs_upto(points@, *s, off, points@.len() as int),
        forall|i: int| 0 <= i < segs@.len() ==> (#[trigger] segs@[i]).wf(),
        final(buffer).buffer@ == strokes_painted(
            old(buffer).width as int,
            old(buffer).height as int,
            old(buffer).buffer@,
            segs@,
            enccol_spec(color),
        ),
{
    let ghost pre = *old(buffer);
    let ghost wd = pre.width as int;
    let ghost hd = pre.height as int;
    let ghost e = enccol_spec(color);
    let mut segs: Vec<LineSegment> = Vec::new();
    let mut pen = Pt { x: 0, y: 0 };
    let mut i: usize = 0;
    while i < points.len()
        invariant
            buffer.width == pre.width,
            buffer.height == pre.height,
            buffer.wf(),
            wd == pre.width as int,
            hd == pre.height as int,
            e == enccol_spec(color),
            s.wf(),
            off.wf(),
            forall|j: int| 0 <= j < points@.len() ==> (#[trigger] points@[j]).wf(),
            i <= points@.len(),
            pen == pen_at(points@, *s, off, i as int),
            pen.wf(),
            segs@ == segs_upto(points@, *s, off, i as int),
            forall|j: int| 0 <= j < segs@.len() ==> (#[trigger] segs@[j]).wf(),
            buffer.buffer@ == strokes_painted(wd, hd, pre.buffer@, segs@, e),
        decreases points@.len() - i,
    {
        let point = points[i];
        match point {
            OutlinePoint::Move { p } => {
                pen = transform(p, s, off);
                proof {
                    assert(segs_of(point, pen_at(points@, *s, off, i as int), *s, off)
                        =~= Seq::<LineSegment>::empty());
                    assert(segs@ =~= segs_upto(points@, *s, off, i as int + 1));
                }
            },
            OutlinePoint::Line { p } => {
                let q = transform(p, s, off);
                let ghost segs0 = segs@;
                buffer.draw_line(pen, q, color);
                segs.push(LineSegment { start: pen, end: q });
                proof {
                    assert(segs@.drop_last() =~= segs0);
                    assert(segs@.last() == (LineSegment { start: pen, end: q }));
                    assert(buffer.buffer@ == strokes_painted(wd, hd, pre.buffer@, segs@, e));
                    assert(segs@ =~= segs_upto(points@, *s, off, i as int + 1));
                }
                pen = q;
            },
            OutlinePoint::Quad { c, p } => {
                let qc = transform(c, s, off);
                let qp = transform(p, s, off);
                let ghost segs0 = segs@;
                buffer.draw_line(pen, qc, color);
                segs.push(LineSegment { start: pen, end: qc });
                proof {
                    assert(segs@.drop_last() =~= segs0);
                    assert(segs@.last() == (LineSegment { start: pen, end: qc }));
                    assert(buffer.buffer@ == strokes_painted(wd, hd, pre.buffer@, segs@, e));
                }
                let ghost segs1 = segs@;
                buffer.draw_line(qc, qp, color);
                segs.push(LineSegment { start: qc, end: qp });
                proof {
                    assert(segs@.drop_last() =~= segs1);
                    assert(segs@.last() == (LineSegment { start: qc, end: qp }));
                    assert(buffer.buffer@ == strokes_painted(wd, hd, pre.buffer@, segs@, e));
                    assert(segs@ =~= segs_upto(points@, *s, off, i as int + 1));
                }
                pen = qp;
            },
            OutlinePoint::Curve { c1, c2, p } => {
                let qc1 = transform(c1, s, off);
                let qc2 = transform(c2, s, off);
                let qp = transform(p, s, off);
                let ghost segs0 = segs@;
                buffer.draw_line(pen, qp, color);
                segs.push(LineSegment { start: pen, end: qp });
                proof {
                    assert(segs@.drop_last() =~= segs0);
                    assert(segs@.last() == (LineSegment { start: pen, end: qp }));
                    assert(buffer.buffer@ == strokes_painted(wd, hd, pre.buffer@, segs@, e));
                }
                let ghost segs1 = segs@;
                buffer.draw_line(qp, qc2, color);
                segs.push(LineSegment { start: qp, end: qc2 });
                proof {
                    assert(segs@.drop_last() =~= segs1);
                    assert(segs@.last() == (LineSegment { start: qp, end: qc2 }));
                    assert(buffer.buffer@ == strokes_painted(wd, hd, pre.buffer@, segs@, e));
                }
                let ghost segs2 = segs@;
                buffer.draw_line(qc2, qc1, color);
                segs.push(LineSegment { start: qc2, end: qc1 });
                proof {
                    assert(segs@.drop_last() =~= segs2);
                    assert(segs@.last() == (LineSegment { start: qc2, end: qc1 }));
                    assert(buffer.buffer@ == strokes_painted(wd, hd, pre.buffer@, segs@, e));
                    assert(segs@ =~= segs_upto(points@, *s, off, i as int + 1));
                }
                pen = qc1;
            },
        }
        i = i + 1;
    }
    segs
}

/// The fixed-point x coordinate of fill sample column `x`:
/// `off.x + x + bb.x_min / px_size`, saturated at each addition.
pub open spec fn sample_x(bb: BBox, s: Scale, off: Pt, x: int) -> int {
    fx_clamp(off.x + fx_clamp(x * 65536 + du2px(bb.x_min as int * 65536, s)))
}

/// The fixed-point y coordinate of fill sample row `y`:
/// `off.y - (y + bb.y_min / px_size)`, saturated at each step.
pub open spec fn sample_y(bb: BBox, s: Scale, off: Pt, y: int) -> int {
    fx_clamp(off.y - fx_clamp(y * 65536 + du2px(bb.y_min as int * 65536, s)))
}

/// The horizontal test ray of a fill sample: from the sample point left
/// or right to the glyph origin's x, at the sample's height.
pub open spec fn ray_of(bb: BBox, s: Scale, off: Pt, x: int, y: int) -> LineSegment {
    LineSegment {
        start: Pt { x: sample_x(bb, s, off, x) as i64, y: sample_y(bb, s, off, y) as i64 },
        end: Pt { x: off.x, y: sample_y(bb, s, off, y) as i64 },
    }
}

/// How many of the listed segments the ray crosses.
pub open spec fn hits(segs: Seq<LineSegment>, ray: LineSegment) -> nat
    decreases segs.len(),
{
    if segs.len() == 0 {
        0
    } else {
        hits(segs.drop_last(), ray) + (if seg_hit(segs.last(), ray) {
            1nat
        } else {
            0nat
        })
    }
}

/// One fill sample: its pixel is written iff the ray crosses an odd
/// number of segments (even-odd fill).
pub open spec fn fill_cell(
    w: int,
    h: int,
    base: Seq<u32>,
    segs: Seq<LineSegment>,
    bb: BBox,
    s: Scale,
    off: Pt,
    e: u32,
    x: int,
    y: int,
) -> Seq<u32> {
    if hits(segs, ray_of(bb, s, off, x, y)) % 2 == 1 {
        base.update(pt_cell(w, h, sample_x(bb, s, off, x), sample_y(bb, s, off, y)), e)
    } else {
        base
    }
}

/// The store after the fill samples of column `x`, rows `0..=y`.
pub open spec fn fill_col(
    w: int,
    h: int,
    base: Seq<u32>,
    segs: Seq<LineSegment>,
    bb: BBox,
    s: Scale,
    off: Pt,
    e: u32,
    x: int,
    y: int,
) -> Seq<u32>
    decreases y + 1,
{
    if y < 0 {
        base
    } else {
        fill_cell(w, h, fill_col(w, h, base, segs, bb, s, off, e, x, y - 1), segs, bb, s, off, e, x, y)
    }
}

/// The store after the fill columns `0..=x`, each over rows `0..=ny`.
pub open spec fn fill_painted(
    w: int,
    h: int,
    base: Seq<u32>,
    segs: Seq<LineSegment>,
    bb: BBox,
    s: Scale,
    off: Pt,
    e: u32,
    x: int,
    ny: int,
) -> Seq<u32>
    decreases x + 1,
{
    if x < 0 {
        base
    } else {
        fill_col(
            w,
            h,
            fill_painted(w, h, base, segs, bb, s, off, e, x - 1, ny),
            segs,
            bb,
            s,
            off,
            e,
            x,
            ny,
        )
    }
}

/// The glyph's width in whole pixels.
pub open spec fn glyph_w_px(bb: BBox, s: Scale) -> int {
    px_of(du2px((bb.x_max - bb.x_min) as int * 65536, s))
}

/// The glyph's height in whole pixels.
pub open spec fn glyph_h_px(bb: BBox, s: Scale) -> int {
    px_of(du2px((bb.y_max - bb.y_min) as int * 65536, s))
}

/// Count how many segments the ray crosses.
pub fn count_hits(segs: &Vec<LineSegment>, ray: &LineSegment) -> (c: usize)
    requires
        forall|i: int| 0 <= i < segs@.len() ==> (#[trigger] segs@[i]).wf(),
        ray.wf(),
    ensures
        c == hits(segs@, *ray),
{
    let mut c: usize = 0;
    let mut j: usize = 0;
    while j < segs.len()
        invariant
            j <= segs@.len(),
            c <= j,
            ray.wf(),
            forall|i: int| 0 <= i < segs@.len() ==> (#[trigger] segs@[i]).wf(),
            c == hits(segs@.subrange(0, j as int), *ray),
        decreases segs@.len() - j,
    {
        let s = segs[j];
        let ghost prefix = segs@.subrange(0, j as int);
        if s.intersects(ray) {
            c = c + 1;
        }
        proof {
            let nxt = segs@.subrange(0, j as int + 1);
            assert(nxt.drop_last() =~= prefix);
            assert(nxt.last() == segs@[j as int]);
        }
        j = j + 1;
    }
    proof {
        assert(segs@.subrange(0, segs@.len() as int) =~= segs@);
    }
    c
}

/// The scanline parity fill over the glyph's pixel bounding box: each
/// sample casts a horizontal ray back to the origin's x and its pixel is
/// written with the color iff the ray crosses the segment list an odd
/// number of times.
pub fn fill_glyph(
    segs: &Vec<LineSegment>,
    bb: &BBox,
    s: &Scale,
    off: Pt,
    color: Color,
    buffer: &mut UIBuffer,
)
    requires
        old(buffer).wf(),
        s.wf(),
        off.wf(),
        bb.wf(),
        forall|i: int| 0 <= i < segs@.len() ==> (#[trigger] segs@[i]).wf(),
    ensures
        final(buffer).width == old(buffer).width,
        final(buffer).height == old(buffer).height,
        final(buffer).wf(),
        final(buffer).buffer@ == fill_painted(
            old(buffer).width as int,
            old(buffer).height as int,
            old(buffer).buffer@,
            segs@,
            *bb,
            *s,
            off,
            enccol_spec(color),
            glyph_w_px(*bb, *s),
            glyph_h_px(*bb, *s),
        ),
{
    let ghost pre = *old(buffer);
    let ghost wd = pre.width as int;
    let ghost hd = pre.height as int;
    let e: u32 = enccol(color);
    let wfx: i64 = du_to_px((bb.x_max as i64 - bb.x_min as i64) * 65536, s);
    let hfx: i64 = du_to_px((bb.y_max as i64 - bb.y_min as i64) * 65536, s);
    let wpx: u64 = fx_to_px(wfx);
    let hpx: u64 = fx_to_px(hfx);
    let bxm: i64 = du_to_px((bb.x_min as i64) * 65536, s);
    let bym: i64 = du_to_px((bb.y_min as i64) * 65536, s);
    proof {
        vstd::arithmetic::div_mod::lemma_div_is_ordered(wfx as int, 1099511627776, 65536);
        vstd::arithmetic::div_mod::lemma_div_is_ordered(hfx as int, 1099511627776, 65536);
        assert(wpx <= 16777216 && hpx <= 16777216);
    }
    let mut x: u64 = 0;
    while x <= wpx
        invariant
            buffer.width == pre.width,
            buffer.height == pre.height,
            buffer.wf(),
            x <= wpx + 1,
            wpx <= 16777216,
            hpx <= 16777216,
            wd == pre.width as int,
            hd == pre.height as int,
            e == enccol_spec(color),
            s.wf(),
            off.wf(),
            bb.wf(),
            forall|i: int| 0 <= i < segs@.len() ==> (#[trigger] segs@[i]).wf(),
            wpx as int == glyph_w_px(*bb, *s),
            hpx as int == glyph_h_px(*bb, *s),
            bxm as int == du2px(bb.x_min as int * 65536, *s),
            bym as int == du2px(bb.y_min as int * 65536, *s),
            fx_ok(bxm),
            fx_ok(bym),
            buffer.buffer@ == fill_painted(
                wd,
                hd,
                pre.buffer@,
                segs@,
                *bb,
                *s,
                off,
                e,
                x as int - 1,
                hpx as int,
            ),
        decreases wpx + 1 - x,
    {
        let mut y: u64 = 0;
        let ghost col_base = buffer.buffer@;
        while y <= hpx
            invariant
                buffer.width == pre.width,
                buffer.height == pre.height,
                buffer.wf(),
                y <= hpx + 1,
                x <= wpx,
                wpx <= 16777216,
                hpx <= 16777216,
                wd == pre.width as int,
                hd == pre.height as int,
                e == enccol_spec(color),
                s.wf(),
                off.wf(),
                bb.wf(),
                forall|i: int| 0 <= i < segs@.len() ==> (#[trigger] segs@[i]).wf(),
                bxm as int == du2px(bb.x_min as int * 65536, *s),
                bym as int == du2px(bb.y_min as int * 65536, *s),
                fx_ok(bxm),
                fx_ok(bym),
                buffer.buffer@ == fill_col(
                    wd,
                    hd,
                    col_base,
                    segs@,
                    *bb,
                    *s,
                    off,
                    e,
                    x as int,
                    y as int - 1,
                ),
            decreases hpx + 1 - y,
        {
            let sxv: i64 = fx_add(off.x, fx_add((x * 65536) as i64, bxm));
            let inner: i64 = fx_add((y * 65536) as i64, bym);
            let syv: i64 = fx_add(off.y, fx_neg(inner));
            proof {
                assert(sxv as int == sample_x(*bb, *s, off, x as int));
                assert(syv as int == sample_y(*bb, *s, off, y as int));
            }
            let ray = LineSegment {
                start: Pt { x: sxv, y: syv },
                end: Pt { x: off.x, y: syv },
            };
            let cnt: usize = count_hits(segs, &ray);
            let ghost before = buffer.buffer@;
            if cnt % 2 == 1 {
                let cx: u64 = fx_to_px(sxv);
                let cy: u64 = fx_to_px(syv);
                buffer.set_px(cx, cy, e);
                proof {
                    assert(buffer.buffer@ == before.update(
                        cell_idx(wd, hd, cx as int, cy as int),
                        e,
                    ));
                    assert(cell_idx(wd, hd, cx as int, cy as int) == pt_cell(
                        wd,
                        hd,
                        sample_x(*bb, *s, off, x as int),
                        sample_y(*bb, *s, off, y as int),
                    ));
                }
            }
            proof {
                assert(ray == ray_of(*bb, *s, off, x as int, y as int));
                assert(buffer.buffer@ == fill_cell(
                    wd,
                    hd,
                    before,
                    segs@,
                    *bb,
                    *s,
                    off,
                    e,
                    x as int,
                    y as int,
                ));
                assert(buffer.buffer@ == fill_col(
                    wd,
                    hd,
                    col_base,
                    segs@,
                    *bb,
                    *s,
                    off,
                    e,
                    x as int,
                    y as int,
                ));
            }
            y = y + 1;
        }
        proof {
            assert(buffer.buffer@ == fill_painted(
                wd,
                hd,
                pre.buffer@,
                segs@,
                *bb,
                *s,
                off,
                e,
                x as int,
                hpx as int,
            ));
        }
        x = x + 1;
    }
}

/// The conversion context a glyph gets from a character's point size.
pub open spec fn glyph_scale(ps_fx: i64, g: GlyphRecord) -> Scale {
    Scale {
        ps_fx,
        upem: g.metrics.units_per_em,
        line_height: g.metrics.line_height_spec() as i32,
    }
}

/// The glyph's pen advance in fixed-point pixels.
pub open spec fn char_adv_px(ch: crate::utils::Character, g: GlyphRecord) -> int {
    du2px(g.advance as int * 65536, glyph_scale(ch.point_size_fx, g))
}

/// The pen offset after one character: unchanged when the glyph is
/// missing, else advanced by the glyph's horizontal advance in pixels.
pub open spec fn char_advanced(ch: crate::utils::Character, off: int) -> int {
    match ch.glyph {
        None => off,
        Some(g) => fx_clamp(off + char_adv_px(ch, g)),
    }
}

/// The glyph origin: the box position plus the pen offset horizontally,
/// and the baseline `(ascender + descender) / px_size` below the box top.
pub open spec fn char_origin(g: GlyphRecord, ps_fx: i64, pos: (u32, u32), off: int) -> Pt {
    let sc = glyph_scale(ps_fx, g);
    Pt {
        x: fx_clamp(fx_clamp(pos.0 as int * 65536) + off) as i64,
        y: fx_clamp(
            fx_clamp(pos.1 as int * 65536) + fx_clamp(
                du2px(g.metrics.ascender as int * 65536, sc) + du2px(
                    g.metrics.descender as int * 65536,
                    sc,
                ),
            ),
        ) as i64,
    }
}

/// The buffer after one character is rasterized: nothing for a missing
/// glyph or an empty bounding box; otherwise the outline's strokes, then
/// the parity fill, in the character's stroke color.
pub open spec fn char_painted(
    w: int,
    h: int,
    base: Seq<u32>,
    ch: crate::utils::Character,
    pos: (u32, u32),
    off: int,
) -> Seq<u32> {
    match ch.glyph {
        None => base,
        Some(g) => match g.bbox {
            None => base,
            Some(bb) => {
                let sc = glyph_scale(ch.point_size_fx, g);
                let o = char_origin(g, ch.point_size_fx, pos, off);
                let segs = segs_upto(g.outline@, sc, o, g.outline@.len() as int);
                let e = enccol_spec(ch.stroke);
                fill_painted(
                    w,
                    h,
                    strokes_painted(w, h, base, segs, e),
                    segs,
                    bb,
                    sc,
                    o,
                    e,
                    glyph_w_px(bb, sc),
                    glyph_h_px(bb, sc),
                )
            },
        },
    }
}

/// Rasterize one character whose pen starts `draw_off_x` fixed-point
/// pixels right of the box origin `pos`, and return the advanced pen
/// offset. A character without a glyph is skipped without advancing; a
/// glyph without a bounding box only advances the pen.
pub fn draw_char(ch: &crate::utils::Character, pos: (u32, u32), draw_off_x: i64, buffer: &mut UIBuffer) -> (r: i64)
    requires
        old(buffer).wf(),
        ch.wf(),
        fx_ok(draw_off_x),
    ensures
        final(buffer).width == old(buffer).width,
        final(buffer).height == old(buffer).height,
        final(buffer).wf(),
        fx_ok(r),
        r as int == char_advanced(*ch, draw_off_x as int),
        r >= draw_off_x,
        final(buffer).buffer@ == char_painted(
            old(buffer).width as int,
            old(buffer).height as int,
            old(buffer).buffer@,
            *ch,
            pos,
            draw_off_x as int,
        ),
{
    match &ch.glyph {
        None => draw_off_x,
        Some(g) => {
            let sc = Scale {
                ps_fx: ch.point_size_fx,
                upem: g.metrics.units_per_em,
                line_height: g.metrics.line_height(),
            };
            proof {
                assert(sc == glyph_scale(ch.point_size_fx, *g));
                assert(sc.wf());
            }
            let adv: i64 = du_to_px((g.advance as i64) * 65536, &sc);
            proof {
                let num = (g.advance as int * 65536) * (sc.ps_fx as int) * (sc.upem as int);
                let den = (sc.line_height as int) * 224 * 65536;
                assert((g.advance as int * 65536) * (sc.ps_fx as int) * (sc.upem as int) >= 0)
                    by (nonlinear_arith)
                    requires
                        g.advance as int >= 0,
                        (sc.ps_fx as int) >= 1,
                        (sc.upem as int) >= 1,
                ;
                vstd::arithmetic::div_mod::lemma_div_pos_is_pos(num, den);
                assert(adv >= 0);
            }
            match &g.bbox {
                None => fx_add(draw_off_x, adv),
                Some(bb) => {
                    let asc: i64 = du_to_px((g.metrics.ascender as i64) * 65536, &sc);
                    let desc: i64 = du_to_px((g.metrics.descender as i64) * 65536, &sc);
                    let ox: i64 = fx_add(crate::fixed::fx_of_px(pos.0), draw_off_x);
                    let oy: i64 = fx_add(crate::fixed::fx_of_px(pos.1), fx_add(asc, desc));
                    let off = Pt { x: ox, y: oy };
                    proof {
                        assert(off == char_origin(*g, ch.point_size_fx, pos, draw_off_x as int));
                    }
                    let segs = emit_segments(&g.outline, &sc, off, ch.stroke, buffer);
                    fill_glyph(&segs, bb, &sc, off, ch.stroke, buffer);
                    fx_add(draw_off_x, adv)
                },
            }
        },
    }
}

/// The pen offset before the i-th character of a run: zero at the start,
/// then each character's advance in turn.
pub open spec fn off_at(chars: Seq<crate::utils::Character>, i: int) -> int
    decreases i,
{
    if i <= 0 {
        0
    } else {
        char_advanced(chars[i - 1], off_at(chars, i - 1))
    }
}

/// The buffer after the first `i` characters of a run are rasterized at
/// the box origin `pos`, left to right.
pub open spec fn text_painted(
    w: int,
    h: int,
    base: Seq<u32>,
    chars: Seq<crate::utils::Character>,
    pos: (u32, u32),
    i: int,
) -> Seq<u32>
    decreases i,
{
    if i <= 0 {
        base
    } else {
        char_painted(
            w,
            h,
            text_painted(w, h, base, chars, pos, i - 1),
            chars[i - 1],
            pos,
            off_at(chars, i - 1),
        )
    }
}

/// One character never moves the pen backwards, and keeps it in range.
pub proof fn lemma_char_advanced_mono(ch: crate::utils::Character, off: int)
    requires
        ch.wf(),
        -1099511627776 <= off <= 1099511627776,
    ensures
        off <= char_advanced(ch, off),
        -1099511627776 <= char_advanced(ch, off) <= 1099511627776,
{
    match ch.glyph {
        None => {},
        Some(g) => {
            let sc = glyph_scale(ch.point_size_fx, g);
            let num = (g.advance as int * 65536) * (sc.ps_fx as int) * (sc.upem as int);
            let den = (sc.line_height as int) * 224 * 65536;
            assert((g.advance as int * 65536) * (sc.ps_fx as int) * (sc.upem as int) >= 0)
                by (nonlinear_arith)
                requires
                    g.advance as int >= 0,
                    (sc.ps_fx as int) >= 1,
                    (sc.upem as int) >= 1,
            ;
            vstd::arithmetic::div_mod::lemma_div_pos_is_pos(num, den);
        },
    }
}

/// The pen offset of every prefix of a well-formed run stays in range.
pub proof fn lemma_off_at_ok(chars: Seq<crate::utils::Character>, i: int)
    requires
        forall|j: int| 0 <= j < chars.len() ==> (#[trigger] chars[j]).wf(),
        i <= chars.len(),
    ensures
        -1099511627776 <= off_at(chars, i) <= 1099511627776,
    decreases i,
{
    if i > 0 {
        lemma_off_at_ok(chars, i - 1);
        lemma_char_advanced_mono(chars[i - 1], off_at(chars, i - 1));
    }
}

/// Advance monotonicity: along a well-formed run, the pen offset after
/// character `i + 1` is at least its value after character `i`.
pub proof fn lemma_advance_monotonic(chars: Seq<crate::utils::Character>, i: int)
    requires
        forall|j: int| 0 <= j < chars.len() ==> (#[trigger] chars[j]).wf(),
        0 <= i < chars.len(),
    ensures
        off_at(chars, i + 1) >= off_at(chars, i),
{
    lemma_off_at_ok(chars, i);
    lemma_char_advanced_mono(chars[i], off_at(chars, i));
}

/// Every painting fold keeps the buffer's length.
pub proof fn lemma_strokes_painted_len(
    w: int,
    h: int,
    base: Seq<u32>,
    segs: Seq<LineSegment>,
    e: u32,
)
    ensures
        strokes_painted(w, h, base, segs, e).len() == base.len(),
    decreases segs.len(),
{
    if segs.len() > 0 {
        lemma_strokes_painted_len(w, h, base, segs.drop_last(), e);
    }
}

pub proof fn lemma_fill_col_len(
    w: int,
    h: int,
    base: Seq<u32>,
    segs: Seq<LineSegment>,
    bb: BBox,
    s: Scale,
    off: Pt,
    e: u32,
    x: int,
    y: int,
)
    requires
        w >= 1,
        h >= 1,
        base.len() == w * h,
    ensures
        fill_col(w, h, base, segs, bb, s, off, e, x, y).len() == base.len(),
    decreases y + 1,
{
    if y >= 0 {
        lemma_fill_col_len(w, h, base, segs, bb, s, off, e, x, y - 1);
        crate::fixed::lemma_px_of_nonneg(sample_x(bb, s, off, x));
        crate::fixed::lemma_px_of_nonneg(sample_y(bb, s, off, y));
        crate::uielement::lemma_cell_idx_in_range(
            w,
            h,
            px_of(sample_x(bb, s, off, x)),
            px_of(sample_y(bb, s, off, y)),
        );
    }
}

pub proof fn lemma_fill_painted_len(
    w: int,
    h: int,
    base: Seq<u32>,
    segs: Seq<LineSegment>,
    bb: BBox,
    s: Scale,
    off: Pt,
    e: u32,
    x: int,
    ny: int,
)
    requires
        w >= 1,
        h >= 1,
        base.len() == w * h,
    ensures
        fill_painted(w, h, base, segs, bb, s, off, e, x, ny).len() == base.len(),
    decreases x + 1,
{
    if x >= 0 {
        lemma_fill_painted_len(w, h, base, segs, bb, s, off, e, x - 1, ny);
        lemma_fill_col_len(
            w,
            h,
            fill_painted(w, h, base, segs, bb, s, off, e, x - 1, ny),
            segs,
            bb,
            s,
            off,
            e,
            x,
            ny,
        );
    }
}

pub proof fn lemma_char_painted_len(
    w: int,
    h: int,
    base: Seq<u32>,
    ch: crate::utils::Character,
    pos: (u32, u32),
    off: int,
)
    requires
        w >= 1,
        h >= 1,
        base.len() == w * h,
    ensures
        char_painted(w, h, base, ch, pos, off).len() == base.len(),
{
    match ch.glyph {
        None => {},
        Some(g) => {
            match g.bbox {
                None => {},
                Some(bb) => {
                    let sc = glyph_scale(ch.point_size_fx, g);
                    let o = char_origin(g, ch.point_size_fx, pos, off);
                    let segs = segs_upto(g.outline@, sc, o, g.outline@.len() as int);
                    let e = enccol_spec(ch.stroke);
                    lemma_strokes_painted_len(w, h, base, segs, e);
                    lemma_fill_painted_len(
                        w,
                        h,
                        strokes_painted(w, h, base, segs, e),
                        segs,
                        bb,
                        sc,
                        o,
                        e,
                        glyph_w_px(bb, sc),
                        glyph_h_px(bb, sc),
                    );
                },
            }
        },
    }
}

pub proof fn lemma_text_painted_len(
    w: int,
    h: int,
    base: Seq<u32>,
    chars: Seq<crate::utils::Character>,
    pos: (u32, u32),
    i: int,
)
    requires
        w >= 1,
        h >= 1,
        base.len() == w * h,
    ensures
        text_painted(w, h, base, chars, pos, i).len() == base.len(),
    decreases i,
{
    if i > 0 {
        lemma_text_painted_len(w, h, base, chars, pos, i - 1);
        lemma_char_painted_len(
            w,
            h,
            text_painted(w, h, base, chars, pos, i - 1),
            chars[i - 1],
            pos,
            off_at(chars, i - 1),
        );
    }
}

/// A view positioned by margins inside a parent, holding a text run.
pub struct TextBox {
    pub position: (u32, u32),
    pub width: usize,
    pub height: usize,
    pub text: crate::utils::UIString,
}

/// A value clipped into the unsigned 32-bit range from above.
pub open spec fn sat_u32(v: int) -> int {
    if v > u32::MAX as int {
        u32::MAX as int
    } else {
        v
    }
}

impl TextBox {
    pub open spec fn wf(self) -> bool {
        self.text.wf()
    }

    /// Place a text box inside a parent: each margin resolves against the
    /// parent's dimension, and the absolute position is the parent's
    /// position plus the resolved margins, saturated.
    pub fn new(
        left: crate::Margin,
        top: crate::Margin,
        width: usize,
        height: usize,
        text: crate::utils::UIString,
        parent_pos: (u32, u32),
        parent_size: (u32, u32),
    ) -> (t: TextBox)
        ensures
            t.position.0 as int == sat_u32(
                parent_pos.0 + crate::resolve_spec(left, parent_size.0),
            ),
            t.position.1 as int == sat_u32(parent_pos.1 + crate::resolve_spec(top, parent_size.1)),
            t.width == width,
            t.height == height,
            t.text == text,
    {
        let lx: u64 = parent_pos.0 as u64 + left.resolve(parent_size.0) as u64;
        let ty: u64 = parent_pos.1 as u64 + top.resolve(parent_size.1) as u64;
        let px: u32 = if lx > 0xFFFFFFFF {
            0xFFFFFFFF
        } else {
            lx as u32
        };
        let py: u32 = if ty > 0xFFFFFFFF {
            0xFFFFFFFF
        } else {
            ty as u32
        };
        TextBox { position: (px, py), width, height, text }
    }

    pub fn set_text(&mut self, text: crate::utils::UIString)
        ensures
            final(self).text == text,
            final(self).position == old(self).position,
            final(self).width == old(self).width,
            final(self).height == old(self).height,
    {
        self.text = text;
    }

    pub fn abs_pos(&self) -> (r: (u32, u32))
        ensures
            r == self.position,
    {
        self.position
    }

    pub fn pos(&self) -> (r: (u32, u32))
        ensures
            r == self.position,
    {
        self.position
    }

    /// The box's bounds: its position through position plus size,
    /// saturated.
    pub fn bbox(&self) -> (r: crate::panel::Bounds)
        ensures
            r.min_x == self.position.0,
            r.min_y == self.position.1,
            r.max_x as int == sat_u32(self.position.0 + self.width),
            r.max_y as int == sat_u32(self.position.1 + self.height),
    {
        let mx: u64 = self.position.0 as u64 + (if self.width > 0xFFFFFFFF {
            0xFFFFFFFF
        } else {
            self.width as u64
        });
        let my: u64 = self.position.1 as u64 + (if self.height > 0xFFFFFFFF {
            0xFFFFFFFF
        } else {
            self.height as u64
        });
        proof {
            assert(mx as int == self.position.0 + (if self.width > 0xFFFFFFFF {
                0xFFFFFFFF as int
            } else {
                self.width as int
            }));
        }
        crate::panel::Bounds {
            min_x: self.position.0,
            min_y: self.position.1,
            max_x: if mx > 0xFFFFFFFF {
                0xFFFFFFFF
            } else {
                mx as u32
            },
            max_y: if my > 0xFFFFFFFF {
                0xFFFFFFFF
            } else {
                my as u32
            },
        }
    }

    /// Rasterize the whole run left to right with a pen starting at the
    /// box origin: each character strokes and parity-fills its glyph and
    /// advances the pen.
    pub fn draw(&self, buffer: &mut UIBuffer)
        requires
            old(buffer).wf(),
            self.wf(),
        ensures
            final(buffer).width == old(buffer).width,
            final(buffer).height == old(buffer).height,
            final(buffer).wf(),
            final(buffer).buffer@ == text_painted(
                old(buffer).width as int,
                old(buffer).height as int,
                old(buffer).buffer@,
                self.text.chars@,
                self.position,
                self.text.chars@.len() as int,
            ),
    {
        let ghost pre = *old(buffer);
        let ghost wd = pre.width as int;
        let ghost hd = pre.height as int;
        let mut draw_off_x: i64 = 0;
        let mut i: usize = 0;
        while i < self.text.chars.len()
            invariant
                buffer.width == pre.width,
                buffer.height == pre.height,
                buffer.wf(),
                wd == pre.width as int,
                hd == pre.height as int,
                self.wf(),
                i <= self.text.chars@.len(),
                fx_ok(draw_off_x),
                draw_off_x as int == off_at(self.text.chars@, i as int),
                buffer.buffer@ == text_painted(
                    wd,
                    hd,
                    pre.buffer@,
                    self.text.chars@,
                    self.position,
                    i as int,
                ),
            decreases self.text.chars@.len() - i,
        {
            let ch = &self.text.chars[i];
            draw_off_x = draw_char(ch, self.position, draw_off_x, buffer);
            i = i + 1;
        }
    }
}

} // verus!
