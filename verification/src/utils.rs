use vstd::prelude::*;

use crate::fixed::{du_clamp, du_ok, du_sat, fx_ok, mulb};

verus! {

/// An 8-bit RGB color.
#[derive(Clone, Copy, PartialEq, Eq, Structural, Debug)]
pub struct Color {
    pub r: u8,
    pub g: u8,
    pub b: u8,
}

impl Color {
    pub fn new(r: u8, g: u8, b: u8) -> (c: Color)
        ensures
            c == (Color { r, g, b }),
    {
        Color { r, g, b }
    }
}

/// The 24-bit packing of a color: `(R<<16) | (G<<8) | B`, upper byte zero.
pub open spec fn enccol_spec(color: Color) -> u32 {
    ((color.r as u32) << 16) | ((color.g as u32) << 8) | (color.b as u32)
}

/// The inverse unpacking of a 24-bit color.
pub open spec fn deccol_spec(color: u32) -> Color {
    Color {
        r: ((color & 0xFF0000) >> 16) as u8,
        g: ((color & 0xFF00) >> 8) as u8,
        b: (color & 0xFF) as u8,
    }
}

/// Pack a color into the framebuffer's 24-bit integer form.
pub fn enccol(color: Color) -> (r: u32)
    ensures
        r == enccol_spec(color),
{
    ((color.r as u32) << 16) | ((color.g as u32) << 8) | (color.b as u32)
}

/// Unpack a framebuffer value back into its color.
pub fn deccol(color: u32) -> (c: Color)
    ensures
        c == deccol_spec(color),
{
    let b: u8 = (color & 0x0000FF) as u8;
    let g: u8 = ((color & 0x00FF00) >> 8) as u8;
    let r: u8 = ((color & 0xFF0000) >> 16) as u8;
    Color { r, g, b }
}

proof fn lemma_enc_dec_bytes(r: u8, g: u8, b: u8)
    ensures
        ((((r as u32) << 16) | ((g as u32) << 8) | (b as u32)) & 0xFF0000) >> 16 == r as u32,
        ((((r as u32) << 16) | ((g as u32) << 8) | (b as u32)) & 0xFF00) >> 8 == g as u32,
        (((r as u32) << 16) | ((g as u32) << 8) | (b as u32)) & 0xFF == b as u32,
{
    assert(((((r as u32) << 16) | ((g as u32) << 8) | (b as u32)) & 0xFF0000) >> 16 == r as u32)
        by (bit_vector);
    assert(((((r as u32) << 16) | ((g as u32) << 8) | (b as u32)) & 0xFF00) >> 8 == g as u32)
        by (bit_vector);
    assert((((r as u32) << 16) | ((g as u32) << 8) | (b as u32)) & 0xFF == b as u32)
        by (bit_vector);
}

/// Color round-trip: decoding an encoded color gives the color back.
pub proof fn lemma_color_round_trip(c: Color)
    ensures
        deccol_spec(enccol_spec(c)) == c,
{
    lemma_enc_dec_bytes(c.r, c.g, c.b);
}

/// A two-dimensional point in fixed-point coordinates.
#[derive(Clone, Copy, PartialEq, Eq, Structural, Debug)]
pub struct Pt {
    pub x: i64,
    pub y: i64,
}

impl Pt {
    /// Both coordinates lie in the framebuffer coordinate range.
    pub open spec fn wf(self) -> bool {
        fx_ok(self.x) && fx_ok(self.y)
    }

    /// Both coordinates lie in the design-unit range.
    pub open spec fn du_wf(self) -> bool {
        du_ok(self.x) && du_ok(self.y)
    }

    pub fn new(x: i64, y: i64) -> (p: Pt)
        ensures
            p == (Pt { x, y }),
    {
        Pt { x, y }
    }
}

pub open spec fn imin(a: int, b: int) -> int {
    if a <= b {
        a
    } else {
        b
    }
}

pub open spec fn imax(a: int, b: int) -> int {
    if a <= b {
        b
    } else {
        a
    }
}

/// The kind tag of an outline point.
#[derive(Clone, Copy, PartialEq, Eq, Structural, Debug)]
pub enum PointType {
    Move,
    Line,
    Quad,
    Curve,
}

/// One event of a glyph outline, in design-unit coordinates. Each arm
/// carries exactly the coordinates its callback delivers: an end point,
/// and for the Bezier arms their control points.
#[derive(Clone, Copy, PartialEq, Eq, Structural, Debug)]
pub enum OutlinePoint {
    Move { p: Pt },
    Line { p: Pt },
    Quad { c: Pt, p: Pt },
    Curve { c1: Pt, c2: Pt, p: Pt },
}

impl OutlinePoint {
    pub open spec fn wf(self) -> bool {
        match self {
            OutlinePoint::Move { p } => p.du_wf(),
            OutlinePoint::Line { p } => p.du_wf(),
            OutlinePoint::Quad { c, p } => c.du_wf() && p.du_wf(),
            OutlinePoint::Curve { c1, c2, p } => c1.du_wf() && c2.du_wf() && p.du_wf(),
        }
    }

    /// The kind tag of this point.
    pub fn point_type(&self) -> (t: PointType)
        ensures
            t == (match *self {
                OutlinePoint::Move { .. } => PointType::Move,
                OutlinePoint::Line { .. } => PointType::Line,
                OutlinePoint::Quad { .. } => PointType::Quad,
                OutlinePoint::Curve { .. } => PointType::Curve,
            }),
    {
        match self {
            OutlinePoint::Move { .. } => PointType::Move,
            OutlinePoint::Line { .. } => PointType::Line,
            OutlinePoint::Quad { .. } => PointType::Quad,
            OutlinePoint::Curve { .. } => PointType::Curve,
        }
    }
}

/// Records the outline callbacks of one glyph, in order, as a linear
/// sequence of typed points. Coordinates are design units in fixed point,
/// saturated into the design-unit range.
pub struct Builder {
    pub points: Vec<OutlinePoint>,
}

pub open spec fn sat_pt(x: i64, y: i64) -> Pt {
    Pt { x: du_clamp(x as int) as i64, y: du_clamp(y as int) as i64 }
}

impl Builder {
    pub open spec fn wf(self) -> bool {
        forall|i: int| 0 <= i < self.points@.len() ==> (#[trigger] self.points@[i]).wf()
    }

    pub fn new() -> (b: Builder)
        ensures
            b.points@.len() == 0,
            b.wf(),
    {
        Builder { points: Vec::new() }
    }

    /// Start a new subpath: records a Move point.
    pub fn move_to(&mut self, x: i64, y: i64)
        ensures
            final(self).points@ == old(self).points@.push(OutlinePoint::Move { p: sat_pt(x, y) }),
            old(self).wf() ==> final(self).wf(),
    {
        let p = Pt { x: du_sat(x), y: du_sat(y) };
        self.points.push(OutlinePoint::Move { p });
    }

    /// A straight edge to `(x, y)`: records a Line point.
    pub fn line_to(&mut self, x: i64, y: i64)
        ensures
            final(self).points@ == old(self).points@.push(OutlinePoint::Line { p: sat_pt(x, y) }),
            old(self).wf() ==> final(self).wf(),
    {
        let p = Pt { x: du_sat(x), y: du_sat(y) };
        self.points.push(OutlinePoint::Line { p });
    }

    /// A quadratic Bezier with control `(x1, y1)` ending at `(x, y)`.
    pub fn quad_to(&mut self, x1: i64, y1: i64, x: i64, y: i64)
        ensures
            final(self).points@ == old(self).points@.push(
                OutlinePoint::Quad { c: sat_pt(x1, y1), p: sat_pt(x, y) },
            ),
            old(self).wf() ==> final(self).wf(),
    {
        let c = Pt { x: du_sat(x1), y: du_sat(y1) };
        let p = Pt { x: du_sat(x), y: du_sat(y) };
        self.points.push(OutlinePoint::Quad { c, p });
    }

    /// A cubic Bezier with controls `(x1, y1)`, `(x2, y2)` ending at `(x, y)`.
    pub fn curve_to(&mut self, x1: i64, y1: i64, x2: i64, y2: i64, x: i64, y: i64)
        ensures
            final(self).points@ == old(self).points@.push(
                OutlinePoint::Curve { c1: sat_pt(x1, y1), c2: sat_pt(x2, y2), p: sat_pt(x, y) },
            ),
            old(self).wf() ==> final(self).wf(),
    {
        let c1 = Pt { x: du_sat(x1), y: du_sat(y1) };
        let c2 = Pt { x: du_sat(x2), y: du_sat(y2) };
        let p = Pt { x: du_sat(x), y: du_sat(y) };
        self.points.push(OutlinePoint::Curve { c1, c2, p });
    }

    /// Subpath close: a no-op, subpaths are not tracked.
    pub fn close(&mut self)
        ensures
            *final(self) == *old(self),
    {
    }
}

/// A straight segment between two fixed-point points.
#[derive(Clone, Copy, PartialEq, Eq, Structural, Debug)]
pub struct LineSegment {
    pub start: Pt,
    pub end: Pt,
}

/// Whether two segments are treated as crossing: the two carrier lines
/// must meet in a single point, and that point must lie inside the
/// axis-aligned bounding box of each segment. Parallel or degenerate
/// carrier lines never cross. The rational intersection point `n/den` is
/// compared by cross-multiplication with the sign of `den` normalized out.
pub open spec fn seg_hit(a: LineSegment, b: LineSegment) -> bool {
    let x1 = a.start.x as int;
    let y1 = a.start.y as int;
    let x2 = a.end.x as int;
    let y2 = a.end.y as int;
    let x3 = b.start.x as int;
    let y3 = b.start.y as int;
    let x4 = b.end.x as int;
    let y4 = b.end.y as int;
    let den = (x1 - x2) * (y3 - y4) - (y1 - y2) * (x3 - x4);
    if den == 0 {
        false
    } else {
        let c1 = x1 * y2 - y1 * x2;
        let c2 = x3 * y4 - y3 * x4;
        let nx = c1 * (x3 - x4) - (x1 - x2) * c2;
        let ny = c1 * (y3 - y4) - (y1 - y2) * c2;
        let dd = if den > 0 { den } else { -den };
        let sx = if den > 0 { nx } else { -nx };
        let sy = if den > 0 { ny } else { -ny };
        imin(x1, x2) * dd <= sx && sx <= imax(x1, x2) * dd && imin(y1, y2) * dd <= sy && sy <= imax(
            y1,
            y2,
        ) * dd && imin(x3, x4) * dd <= sx && sx <= imax(x3, x4) * dd && imin(y3, y4) * dd <= sy
            && sy <= imax(y3, y4) * dd
    }
}

impl LineSegment {
    pub open spec fn wf(self) -> bool {
        self.start.wf() && self.end.wf()
    }

    pub fn new(start: Pt, end: Pt) -> (s: LineSegment)
        ensures
            s == (LineSegment { start, end }),
    {
        LineSegment { start, end }
    }

    /// Whether this segment crosses `other`, by the carrier-line test
    /// `seg_hit`, computed exactly in wide integer arithmetic.
    pub fn intersects(&self, other: &LineSegment) -> (r: bool)
        requires
            self.wf(),
            other.wf(),
        ensures
            r == seg_hit(*self, *other),
    {
        let x1: i128 = self.start.x as i128;
        let y1: i128 = self.start.y as i128;
        let x2: i128 = self.end.x as i128;
        let y2: i128 = self.end.y as i128;
        let x3: i128 = other.start.x as i128;
        let y3: i128 = other.start.y as i128;
        let x4: i128 = other.end.x as i128;
        let y4: i128 = other.end.y as i128;
        let cl: i128 = 0x10000000000;
        let cd: i128 = 0x20000000000;
        let cc: i128 = 0x200000000000000000000;
        let cn: i128 = 0x1000000000000000000000;
        let den: i128 = mulb(x1 - x2, y3 - y4, cd, cd) - mulb(y1 - y2, x3 - x4, cd, cd);
        if den == 0 {
            return false;
        }
        let c1: i128 = mulb(x1, y2, cl, cl) - mulb(y1, x2, cl, cl);
        let c2: i128 = mulb(x3, y4, cl, cl) - mulb(y3, x4, cl, cl);
        let nx: i128 = mulb(c1, x3 - x4, cc, cd) - mulb(x1 - x2, c2, cd, cc);
        let ny: i128 = mulb(c1, y3 - y4, cc, cd) - mulb(y1 - y2, c2, cd, cc);
        let dd: i128 = if den > 0 { den } else { -den };
        let sx: i128 = if den > 0 { nx } else { -nx };
        let sy: i128 = if den > 0 { ny } else { -ny };
        let lx1: i128 = if x1 <= x2 { x1 } else { x2 };
        let hx1: i128 = if x1 <= x2 { x2 } else { x1 };
        let ly1: i128 = if y1 <= y2 { y1 } else { y2 };
        let hy1: i128 = if y1 <= y2 { y2 } else { y1 };
        let lx2: i128 = if x3 <= x4 { x3 } else { x4 };
        let hx2: i128 = if x3 <= x4 { x4 } else { x3 };
        let ly2: i128 = if y3 <= y4 { y3 } else { y4 };
        let hy2: i128 = if y3 <= y4 { y4 } else { y3 };
        mulb(lx1, dd, cl, cn) <= sx && sx <= mulb(hx1, dd, cl, cn) && mulb(ly1, dd, cl, cn) <= sy
            && sy <= mulb(hy1, dd, cl, cn) && mulb(lx2, dd, cl, cn) <= sx && sx <= mulb(
            hx2,
            dd,
            cl,
            cn,
        ) && mulb(ly2, dd, cl, cn) <= sy && sy <= mulb(hy2, dd, cl, cn)
    }
}

/// One styled character of a text run. The point size is carried in
/// fixed point (65536 per point); the glyph holds what the rasterizer
/// reads of the font for this character, or nothing when the font has no
/// glyph for it.
pub struct Character {
    pub char: char,
    pub ital: bool,
    pub bold: bool,
    pub point_size_fx: i64,
    pub highlight: Color,
    pub stroke: Color,
    pub glyph: Option<GlyphRecord>,
}

impl Character {
    pub open spec fn wf(self) -> bool {
        1 <= self.point_size_fx <= 0x4000000 && (match self.glyph {
            Some(g) => g.wf(),
            None => true,
        })
    }

    pub fn new(
        char: char,
        ital: bool,
        bold: bool,
        point_size_fx: i64,
        highlight: Color,
        stroke: Color,
        glyph: Option<GlyphRecord>,
    ) -> (c: Character)
        ensures
            c.char == char,
            c.ital == ital,
            c.bold == bold,
            c.point_size_fx == point_size_fx,
            c.highlight == highlight,
            c.stroke == stroke,
            c.glyph == glyph,
    {
        Character { char, ital, bold, point_size_fx, highlight, stroke, glyph }
    }
}

/// An ordered run of styled characters.
pub struct UIString {
    pub chars: Vec<Character>,
}

/// The one styled character `from_str` makes of a character and glyph.
pub open spec fn mk_char(ch: char, g: Option<GlyphRecord>, color: Color, size_fx: i64) -> Character {
    Character {
        char: ch,
        ital: false,
        bold: false,
        point_size_fx: size_fx,
        highlight: Color { r: 0, g: 0, b: 0 },
        stroke: color,
        glyph: g,
    }
}

/// The run of characters `from_str` builds from characters and glyphs.
pub open spec fn built_chars(
    tx: Seq<char>,
    gl: Seq<Option<GlyphRecord>>,
    color: Color,
    size_fx: i64,
) -> Seq<Character>
    decreases gl.len(),
{
    if gl.len() == 0 {
        Seq::empty()
    } else {
        seq![mk_char(tx[0], gl[0], color, size_fx)] + built_chars(tx.subrange(1, tx.len() as int), gl.subrange(1, gl.len() as int), color, size_fx)
    }
}

/// The first step of `built_chars`, written out.
pub proof fn lemma_built_unfold(
    tx: Seq<char>,
    gl: Seq<Option<GlyphRecord>>,
    color: Color,
    size_fx: i64,
)
    requires
        gl.len() > 0,
    ensures
        built_chars(tx, gl, color, size_fx) == seq![mk_char(tx[0], gl[0], color, size_fx)] + built_chars(
            tx.subrange(1, tx.len() as int),
            gl.subrange(1, gl.len() as int),
            color,
            size_fx,
        ),
{
}

/// Pointwise reading of `built_chars`: the i-th character carries the
/// i-th input character and glyph, in the one style given.
pub proof fn lemma_built_chars(
    tx: Seq<char>,
    gl: Seq<Option<GlyphRecord>>,
    color: Color,
    size_fx: i64,
)
    requires
        tx.len() == gl.len(),
    ensures
        built_chars(tx, gl, color, size_fx).len() == gl.len(),
        forall|i: int|
            0 <= i < gl.len() ==> #[trigger] built_chars(tx, gl, color, size_fx)[i] == mk_char(tx[i], gl[i], color, size_fx),
    decreases gl.len(),
{
    if gl.len() > 0 {
        lemma_built_unfold(tx, gl, color, size_fx);
        lemma_built_chars(
            tx.subrange(1, tx.len() as int),
            gl.subrange(1, gl.len() as int),
            color,
            size_fx,
        );
        assert forall|i: int|
            0 <= i < gl.len() implies #[trigger] built_chars(tx, gl, color, size_fx)[i] == mk_char(tx[i], gl[i], color, size_fx) by {
            if i > 0 {
                assert(built_chars(tx, gl, color, size_fx)[i] == built_chars(
                    tx.subrange(1, tx.len() as int),
                    gl.subrange(1, gl.len() as int),
                    color,
                    size_fx,
                )[i - 1]);
                assert(tx.subrange(1, tx.len() as int)[i - 1] == tx[i]);
                assert(gl.subrange(1, gl.len() as int)[i - 1] == gl[i]);
            }
        }
    }
}

/// One step of building a run: consume the first character and glyph and
/// append the styled character.
fn from_str_step(
    chars: &mut Vec<Character>,
    gl: &mut Vec<Option<GlyphRecord>>,
    tx: &mut Vec<char>,
    color: Color,
    size_fx: i64,
)
    requires
        old(gl)@.len() > 0,
        old(tx)@.len() > 0,
        old(chars)@.len() < usize::MAX,
    ensures
        final(gl)@ == old(gl)@.subrange(1, old(gl)@.len() as int),
        final(tx)@ == old(tx)@.subrange(1, old(tx)@.len() as int),
        final(chars)@ == old(chars)@.push(mk_char(old(tx)@[0], old(gl)@[0], color, size_fx)),
{
    let ghost gl0 = gl@;
    let ghost tx0 = tx@;
    let g0 = gl.remove(0);
    let ch0 = tx.remove(0);
    let c = Character {
        char: ch0,
        ital: false,
        bold: false,
        point_size_fx: size_fx,
        highlight: Color { r: 0, g: 0, b: 0 },
        stroke: color,
        glyph: g0,
    };
    chars.push(c);
    proof {
        assert(gl@ =~= gl0.subrange(1, gl0.len() as int));
        assert(tx@ =~= tx0.subrange(1, tx0.len() as int));
    }
}

/// Drain the inputs front to back, appending one styled character each.
fn build_chars(
    chars: &mut Vec<Character>,
    gl: &mut Vec<Option<GlyphRecord>>,
    tx: &mut Vec<char>,
    color: Color,
    size_fx: i64,
)
    requires
        old(gl)@.len() == old(tx)@.len(),
        old(chars)@.len() + old(gl)@.len() <= usize::MAX,
    ensures
        final(chars)@ == old(chars)@ + built_chars(old(tx)@, old(gl)@, color, size_fx),
    decreases old(gl)@.len(),
{
    if gl.len() == 0 {
        proof {
            assert(chars@ =~= chars@ + built_chars(tx@, gl@, color, size_fx));
        }
        return ;
    }
    let ghost gl0 = gl@;
    let ghost tx0 = tx@;
    let ghost cs0 = chars@;
    from_str_step(chars, gl, tx, color, size_fx);
    let ghost c = mk_char(tx0[0], gl0[0], color, size_fx);
    build_chars(chars, gl, tx, color, size_fx);
    proof {
        lemma_built_unfold(tx0, gl0, color, size_fx);
        assert(chars@ == cs0.push(c) + built_chars(
            tx0.subrange(1, tx0.len() as int),
            gl0.subrange(1, gl0.len() as int),
            color,
            size_fx,
        ));
        assert(chars@ =~= cs0 + built_chars(tx0, gl0, color, size_fx));
    }
}

impl UIString {
    pub open spec fn wf(self) -> bool {
        forall|i: int| 0 <= i < self.chars@.len() ==> (#[trigger] self.chars@[i]).wf()
    }

    pub fn new(chars: Vec<Character>) -> (s: UIString)
        ensures
            s.chars == chars,
    {
        UIString { chars }
    }

    /// Build a run from characters and their glyphs, all in one color and
    /// size, not bold, not italic, with a black highlight.
    pub fn from_str(
        text: Vec<char>,
        glyphs: Vec<Option<GlyphRecord>>,
        color: Color,
        size_fx: i64,
    ) -> (s: UIString)
        requires
            text@.len() == glyphs@.len(),
        ensures
            s.chars@ == built_chars(text@, glyphs@, color, size_fx),
            s.chars@.len() == text@.len(),
            forall|i: int|
                0 <= i < text@.len() ==> #[trigger] s.chars@[i] == mk_char(text@[i], glyphs@[i], color, size_fx),
    {
        let mut chars: Vec<Character> = Vec::new();
        let mut gl = glyphs;
        let mut tx = text;
        let total: usize = gl.len();
        proof {
            lemma_built_chars(tx@, gl@, color, size_fx);
            assert(chars@.len() + gl@.len() <= usize::MAX);
        }
        build_chars(&mut chars, &mut gl, &mut tx, color, size_fx);
        proof {
            assert(chars@ =~= Seq::<Character>::empty() + chars@);
        }
        UIString { chars }
    }
}

/// A glyph's bounding box in design units.
#[derive(Clone, Copy, PartialEq, Eq, Structural, Debug)]
pub struct BBox {
    pub x_min: i16,
    pub y_min: i16,
    pub x_max: i16,
    pub y_max: i16,
}

impl BBox {
    pub open spec fn wf(self) -> bool {
        self.x_min <= self.x_max && self.y_min <= self.y_max
    }

    pub fn new(x_min: i16, y_min: i16, x_max: i16, y_max: i16) -> (b: BBox)
        ensures
            b == (BBox { x_min, y_min, x_max, y_max }),
    {
        BBox { x_min, y_min, x_max, y_max }
    }
}

/// The four corners of a design-unit rectangle.
pub trait RectCorners {
    spec fn cx_min(&self) -> int;

    spec fn cy_min(&self) -> int;

    spec fn cx_max(&self) -> int;

    spec fn cy_max(&self) -> int;

    /// Top right.
    fn tr(&self) -> (r: (i16, i16))
        ensures
            r.0 == self.cx_max(),
            r.1 == self.cy_max(),
    ;

    /// Top left.
    fn tl(&self) -> (r: (i16, i16))
        ensures
            r.0 == self.cx_min(),
            r.1 == self.cy_max(),
    ;

    /// Bottom right.
    fn br(&self) -> (r: (i16, i16))
        ensures
            r.0 == self.cx_max(),
            r.1 == self.cy_min(),
    ;

    /// Bottom left.
    fn bl(&self) -> (r: (i16, i16))
        ensures
            r.0 == self.cx_min(),
            r.1 == self.cy_min(),
    ;
}

impl RectCorners for BBox {
    open spec fn cx_min(&self) -> int {
        self.x_min as int
    }

    open spec fn cy_min(&self) -> int {
        self.y_min as int
    }

    open spec fn cx_max(&self) -> int {
        self.x_max as int
    }

    open spec fn cy_max(&self) -> int {
        self.y_max as int
    }

    fn tr(&self) -> (r: (i16, i16)) {
        (self.x_max, self.y_max)
    }

    fn tl(&self) -> (r: (i16, i16)) {
        (self.x_min, self.y_max)
    }

    fn br(&self) -> (r: (i16, i16)) {
        (self.x_max, self.y_min)
    }

    fn bl(&self) -> (r: (i16, i16)) {
        (self.x_min, self.y_min)
    }
}

/// Font-wide vertical metrics, in design units.
#[derive(Clone, Copy, PartialEq, Eq, Structural, Debug)]
pub struct FontMetrics {
    pub ascender: i16,
    pub descender: i16,
    pub units_per_em: u16,
}

impl FontMetrics {
    /// The constant-spacing line height: `ascender - descender + 50`.
    pub open spec fn line_height_spec(self) -> int {
        self.ascender - self.descender + 50
    }

    /// Usable metrics: a positive em square and a positive line height.
    pub open spec fn wf(self) -> bool {
        self.units_per_em >= 1 && self.line_height_spec() >= 1
    }

    pub fn new(ascender: i16, descender: i16, units_per_em: u16) -> (m: FontMetrics)
        ensures
            m == (FontMetrics { ascender, descender, units_per_em }),
    {
        FontMetrics { ascender, descender, units_per_em }
    }

    pub fn line_height(&self) -> (r: i32)
        ensures
            r == self.line_height_spec(),
    {
        self.ascender as i32 - self.descender as i32 + 50
    }
}

/// Everything the rasterizer reads of one glyph: the font-wide metrics,
/// the pen advance, the design-unit bounding box (absent for a blank
/// glyph such as a space), and the collected outline.
pub struct GlyphRecord {
    pub metrics: FontMetrics,
    pub advance: u16,
    pub bbox: Option<BBox>,
    pub outline: Vec<OutlinePoint>,
}

impl GlyphRecord {
    pub open spec fn wf(self) -> bool {
        self.metrics.wf() && (match self.bbox {
            Some(b) => b.wf(),
            None => true,
        }) && forall|i: int| 0 <= i < self.outline@.len() ==> (#[trigger] self.outline@[i]).wf()
    }

    pub fn new(metrics: FontMetrics, advance: u16, bbox: Option<BBox>, outline: Vec<OutlinePoint>) -> (g: GlyphRecord)
        ensures
            g.metrics == metrics,
            g.advance == advance,
            g.bbox == bbox,
            g.outline == outline,
    {
        GlyphRecord { metrics, advance, bbox, outline }
    }
}

/// Clamped index resolution into a row-major pixel store.
pub trait Position {
    spec fn pos_wf(&self) -> bool;

    spec fn pos_view(&self) -> Seq<u32>;

    /// The cell at `(y * width + x)`, clamped into the store's range.
    fn pos_from_xy(&mut self, x: u32, y: u32, width: usize) -> (cell: &mut u32)
        requires
            old(self).pos_wf(),
            old(self).pos_view().len() >= 1,
            y as int * width as int + x as int <= usize::MAX,
        ensures
            *cell == old(self).pos_view()[imin(
                y as int * width as int + x as int,
                old(self).pos_view().len() - 1,
            )],
            final(self).pos_view() == old(self).pos_view().update(
                imin(y as int * width as int + x as int, old(self).pos_view().len() - 1),
                *final(cell),
            ),
            final(self).pos_wf(),
    ;
}

impl Position for Vec<u32> {
    open spec fn pos_wf(&self) -> bool {
        true
    }

    open spec fn pos_view(&self) -> Seq<u32> {
        self@
    }

    fn pos_from_xy(&mut self, x: u32, y: u32, width: usize) -> (cell: &mut u32) {
        let len: usize = self.len();
        let raw: usize = y as usize * width + x as usize;
        let idx: usize = if raw <= len - 1 {
            raw
        } else {
            len - 1
        };
        &mut self[idx]
    }
}

} // verus!
