use mini_gui::fixed::isqrt;
use mini_gui::panel::{Bounds, Panel, PanelStyle};
use mini_gui::textbox::{draw_char, emit_segments, fill_glyph, Scale, TextBox};
use mini_gui::uielement::{UIBuffer, UIScene, ViewNode};
use mini_gui::utils::{
    deccol, enccol, BBox, Builder, Character, Color, FontMetrics, GlyphRecord, LineSegment,
    OutlinePoint, Pt, PointType, UIString,
};
use mini_gui::{pct, px, Margin};

const FX: i64 = 65536;

fn white() -> Color {
    Color::new(0xFF, 0xFF, 0xFF)
}

/// Metrics chosen so that one design unit maps to exactly one pixel at a
/// one-point size: line_height = 250, so units_per_em = 250 * 224.
fn unit_metrics() -> FontMetrics {
    FontMetrics::new(150, -50, 56000)
}

#[test]
fn color_encoding_scenario() {
    assert_eq!(enccol(Color::new(0xAB, 0xCD, 0xEF)), 0x00ABCDEF);
    let c = deccol(0x00123456);
    assert_eq!((c.r, c.g, c.b), (0x12, 0x34, 0x56));
}

#[test]
fn color_round_trip() {
    for &(r, g, b) in &[(0u8, 0u8, 0u8), (255, 255, 255), (1, 2, 3), (200, 100, 50)] {
        let c = Color::new(r, g, b);
        let d = deccol(enccol(c));
        assert_eq!((d.r, d.g, d.b), (r, g, b));
    }
}

#[test]
fn isqrt_values() {
    assert_eq!(isqrt(0), 0);
    assert_eq!(isqrt(16), 4);
    assert_eq!(isqrt(17), 4);
    assert_eq!(isqrt(24), 4);
    assert_eq!(isqrt(25), 5);
}

#[test]
fn tiny_framebuffer_line() {
    let mut buf = UIBuffer::new(10, 10);
    buf.draw_line(Pt::new(0, 0), Pt::new(9 * FX, 9 * FX), white());
    for i in 0..10usize {
        assert_eq!(buf.buffer[i * 10 + i], 0x00FFFFFF, "diagonal pixel {} not set", i);
    }
}

#[test]
fn zero_length_line_single_pixel() {
    let mut buf = UIBuffer::new(4, 4);
    buf.draw_line(Pt::new(2 * FX, 1 * FX), Pt::new(2 * FX, 1 * FX), white());
    assert_eq!(buf.buffer[1 * 4 + 2], 0x00FFFFFF);
    let lit: usize = buf.buffer.iter().filter(|&&v| v != 0).count();
    assert_eq!(lit, 1);
}

#[test]
fn index_clamp_redirects_to_last_cell() {
    let mut buf = UIBuffer::new(4, 4);
    {
        let cell = buf.get(100, 100);
        *cell = 7;
    }
    assert_eq!(buf.buffer[15], 7);
    {
        let cell = buf.get_vec((2, 1));
        *cell = 9;
    }
    assert_eq!(buf.buffer[6], 9);
}

#[test]
fn draw_box_fills_inclusive_rectangle() {
    let mut buf = UIBuffer::new(6, 6);
    buf.draw_box(Pt::new(1 * FX, 1 * FX), Pt::new(3 * FX, 2 * FX), white());
    for y in 0..6u32 {
        for x in 0..6u32 {
            let lit = buf.buffer[(y * 6 + x) as usize] != 0;
            let expected = (1..=3).contains(&x) && (1..=2).contains(&y);
            assert_eq!(lit, expected, "pixel ({}, {})", x, y);
        }
    }
}

#[test]
fn draw_rect_box_branch() {
    let mut buf = UIBuffer::new(8, 8);
    // Top-left (1, 3), bottom-right (4, 1): an inclusive box over x 1..=4, y 1..=3.
    buf.draw_rect(BBox::new(1, 1, 4, 3), white(), false);
    for y in 0..8u32 {
        for x in 0..8u32 {
            let lit = buf.buffer[(y * 8 + x) as usize] != 0;
            let expected = (1..=4).contains(&x) && (1..=3).contains(&y);
            assert_eq!(lit, expected, "pixel ({}, {})", x, y);
        }
    }
}

#[test]
fn margin_resolution() {
    assert_eq!(Margin::Px(17).resolve(1000), 17);
    assert_eq!(Margin::Pct(32768).resolve(200), 100);
    assert_eq!(Margin::Pct(16384).resolve(100), 25);
    assert_eq!(Margin::Pct(49152).resolve(3), 2);
    assert_eq!(px(5).resolve(99), 5);
    assert_eq!(pct(0).resolve(99), 0);
}

#[test]
fn percent_margin_textbox_position() {
    let text = UIString::new(Vec::new());
    let tb = TextBox::new(
        pct(32768),
        pct(16384),
        200,
        200,
        text,
        (10, 20),
        (200, 100),
    );
    assert_eq!(tb.pos(), (110, 45));
    assert_eq!(tb.abs_pos(), (110, 45));
}

#[test]
fn textbox_bbox_and_set_text() {
    let mut tb = TextBox::new(px(3), px(4), 7, 8, UIString::new(Vec::new()), (0, 0), (100, 100));
    let bb = tb.bbox();
    assert_eq!((bb.min_x, bb.min_y, bb.max_x, bb.max_y), (3, 4, 10, 12));
    tb.set_text(UIString::new(Vec::new()));
    assert_eq!(tb.pos(), (3, 4));
}

#[test]
fn panel_with_stroke_one() {
    let red = Color::new(0xFF, 0, 0);
    let blue = Color::new(0, 0, 0xFF);
    let panel = Panel::new(Bounds::new(0, 0, 4, 4), PanelStyle::new(blue, red, 1));
    let mut buf = UIBuffer::new(10, 10);
    panel.draw(&mut buf);
    for y in 0..5u32 {
        for x in 0..5u32 {
            let v = buf.buffer[(y * 10 + x) as usize];
            if x == 2 && y == 2 {
                assert_eq!(v, enccol(blue), "center pixel");
            } else {
                assert_eq!(v, enccol(red), "stroke pixel ({}, {})", x, y);
            }
        }
    }
}

#[test]
fn panel_boundary_general() {
    let red = Color::new(0xFF, 0, 0);
    let blue = Color::new(0, 0, 0xFF);
    let panel = Panel::new(Bounds::new(2, 3, 12, 13), PanelStyle::new(blue, red, 2));
    let mut buf = UIBuffer::new(20, 20);
    panel.draw(&mut buf);
    for y in 0..=10u32 {
        for x in 0..=10u32 {
            let v = buf.buffer[((3 + y) * 20 + 2 + x) as usize];
            let d = x.min(10 - x).min(y).min(10 - y);
            if d <= 2 {
                assert_eq!(v, enccol(red), "stroke at ({}, {})", x, y);
            } else {
                assert_eq!(v, enccol(blue), "fill at ({}, {})", x, y);
            }
        }
    }
}

#[test]
fn painters_order_overlap() {
    let red = Color::new(0xFF, 0, 0);
    let green = Color::new(0, 0xFF, 0);
    let a = Panel::new(Bounds::new(0, 0, 6, 6), PanelStyle::new(red, red, 0));
    let b = Panel::new(Bounds::new(3, 3, 9, 9), PanelStyle::new(green, green, 0));
    let mut scene = UIScene::new();
    scene.add_child(ViewNode::Panel(a));
    scene.add_child(ViewNode::Panel(b));
    let mut buf = UIBuffer::new(16, 16);
    scene.draw(&mut buf);
    // The overlap (3..=6 squared) shows the later child's color.
    for y in 3..=6u32 {
        for x in 3..=6u32 {
            assert_eq!(buf.buffer[(y * 16 + x) as usize], enccol(green), "overlap ({}, {})", x, y);
        }
    }
    // A pixel covered only by the first child keeps its color.
    assert_eq!(buf.buffer[1 * 16 + 1], enccol(red));
}

#[test]
fn builder_records_callbacks_in_order() {
    let mut b = Builder::new();
    b.move_to(1 * FX, 2 * FX);
    b.line_to(3 * FX, 4 * FX);
    b.quad_to(5 * FX, 6 * FX, 7 * FX, 8 * FX);
    b.curve_to(1 * FX, 1 * FX, 2 * FX, 2 * FX, 3 * FX, 3 * FX);
    b.close();
    assert_eq!(b.points.len(), 4);
    assert_eq!(b.points[0].point_type(), PointType::Move);
    assert_eq!(b.points[1].point_type(), PointType::Line);
    assert_eq!(b.points[2].point_type(), PointType::Quad);
    assert_eq!(b.points[3].point_type(), PointType::Curve);
    match b.points[1] {
        OutlinePoint::Line { p } => assert_eq!((p.x, p.y), (3 * FX, 4 * FX)),
        _ => panic!("expected a Line point"),
    }
}

#[test]
fn segment_intersection_cases() {
    // A vertical segment against a horizontal one crossing it.
    let v = LineSegment::new(Pt::new(5 * FX, 0), Pt::new(5 * FX, 10 * FX));
    let h = LineSegment::new(Pt::new(0, 5 * FX), Pt::new(10 * FX, 5 * FX));
    assert!(v.intersects(&h));
    assert!(h.intersects(&v));
    // A horizontal ray left of the vertical segment does not reach it.
    let short = LineSegment::new(Pt::new(0, 5 * FX), Pt::new(3 * FX, 5 * FX));
    assert!(!v.intersects(&short));
    // Parallel segments never cross.
    let h2 = LineSegment::new(Pt::new(0, 7 * FX), Pt::new(10 * FX, 7 * FX));
    assert!(!h.intersects(&h2));
    // Two crossing diagonals.
    let d1 = LineSegment::new(Pt::new(0, 0), Pt::new(10 * FX, 10 * FX));
    let d2 = LineSegment::new(Pt::new(0, 10 * FX), Pt::new(10 * FX, 0));
    assert!(d1.intersects(&d2));
}

fn square_glyph() -> GlyphRecord {
    let mut b = Builder::new();
    b.move_to(0, 0);
    b.line_to(10 * FX, 0);
    b.line_to(10 * FX, 10 * FX);
    b.line_to(0, 10 * FX);
    b.line_to(0, 0);
    b.close();
    GlyphRecord::new(unit_metrics(), 12, Some(BBox::new(0, 0, 10, 10)), b.points)
}

fn square_char() -> Character {
    Character::new('#', false, false, FX, Color::new(0, 0, 0), white(), Some(square_glyph()))
}

#[test]
fn space_glyph_advances_without_writing() {
    let glyph = GlyphRecord::new(unit_metrics(), 500, None, Vec::new());
    let ch = Character::new(' ', false, false, FX, Color::new(0, 0, 0), white(), Some(glyph));
    let mut buf = UIBuffer::new(50, 50);
    let off = draw_char(&ch, (0, 0), 0, &mut buf);
    // px_size is one, so the advance is 500 whole pixels in fixed point.
    assert_eq!(off, 500 * FX);
    assert!(buf.buffer.iter().all(|&v| v == 0), "a blank glyph must write nothing");
}

#[test]
fn missing_glyph_skipped_without_advance() {
    let ch = Character::new('?', false, false, FX, Color::new(0, 0, 0), white(), None);
    let mut buf = UIBuffer::new(20, 20);
    let off = draw_char(&ch, (0, 0), 3 * FX, &mut buf);
    assert_eq!(off, 3 * FX);
    assert!(buf.buffer.iter().all(|&v| v == 0));
}

#[test]
fn fill_parity_square() {
    // The glyph origin lands at (20, 150): ascender + descender is 100
    // design units, one pixel each, above the box y of 50.
    let ch = square_char();
    let mut buf = UIBuffer::new(200, 200);
    let off = draw_char(&ch, (20, 50), 0, &mut buf);
    assert_eq!(off, 12 * FX);
    let at = |x: u32, y: u32| buf.buffer[(y * 200 + x) as usize];
    // Interior pixels are filled: the test ray crosses exactly the left edge.
    assert_ne!(at(25, 145), 0, "interior pixel");
    assert_ne!(at(21, 141), 0, "interior pixel near corner");
    // The edges are stroked.
    assert_ne!(at(20, 145), 0, "left edge");
    assert_ne!(at(30, 145), 0, "right edge");
    assert_ne!(at(25, 150), 0, "bottom edge");
    assert_ne!(at(25, 140), 0, "top edge");
    // Outside the glyph nothing is written.
    assert_eq!(at(35, 145), 0, "right of glyph");
    assert_eq!(at(15, 145), 0, "left of glyph");
    assert_eq!(at(25, 135), 0, "above glyph");
    assert_eq!(at(25, 155), 0, "below glyph");
}

#[test]
fn fill_parity_isolated_from_strokes() {
    let sc = Scale { ps_fx: FX, upem: 56000, line_height: 250 };
    let g = square_glyph();
    let off = Pt::new(20 * FX, 150 * FX);
    let mut scratch = UIBuffer::new(200, 200);
    let segs = emit_segments(&g.outline, &sc, off, white(), &mut scratch);
    let mut buf = UIBuffer::new(200, 200);
    let bb = BBox::new(0, 0, 10, 10);
    fill_glyph(&segs, &bb, &sc, off, white(), &mut buf);
    let at = |x: u32, y: u32| buf.buffer[(y * 200 + x) as usize];
    // Columns whose ray crosses exactly the left edge are filled.
    for x in 21..=29u32 {
        assert_ne!(at(x, 145), 0, "fill column {}", x);
    }
    // The sample on the origin's own column casts a degenerate ray.
    assert_eq!(at(20, 145), 0);
    // The column on the right edge crosses two edges: even, not filled.
    assert_eq!(at(30, 145), 0);
    assert_eq!(at(31, 145), 0);
}

#[test]
fn advance_monotonic_over_string() {
    let mut buf = UIBuffer::new(200, 200);
    let a = square_char();
    let b = square_char();
    let off0: i64 = 0;
    let off1 = draw_char(&a, (20, 50), off0, &mut buf);
    let off2 = draw_char(&b, (20, 50), off1, &mut buf);
    assert!(off1 >= off0);
    assert!(off2 >= off1);
    assert_eq!(off2, 24 * FX);
}

#[test]
fn from_str_builds_styled_run() {
    let text = vec!['a', 'b'];
    let glyphs = vec![None, Some(square_glyph())];
    let s = UIString::from_str(text, glyphs, white(), 2 * FX);
    assert_eq!(s.chars.len(), 2);
    assert_eq!(s.chars[0].char, 'a');
    assert!(s.chars[0].glyph.is_none());
    assert_eq!(s.chars[1].char, 'b');
    assert!(s.chars[1].glyph.is_some());
    assert_eq!(s.chars[0].point_size_fx, 2 * FX);
    assert_eq!(s.chars[0].stroke.r, 0xFF);
    assert!(!s.chars[0].bold && !s.chars[0].ital);
}

#[test]
fn textbox_draw_renders_run() {
    let glyphs = vec![Some(square_glyph())];
    let s = UIString::from_str(vec!['#'], glyphs, white(), FX);
    let tb = TextBox::new(px(20), px(50), 100, 100, s, (0, 0), (200, 200));
    let mut buf = UIBuffer::new(200, 200);
    tb.draw(&mut buf);
    assert_ne!(buf.buffer[(145 * 200 + 25) as usize], 0);
}

#[test]
fn scene_new_is_empty_and_at_origin() {
    let scene = UIScene::new();
    assert_eq!(scene.children.len(), 0);
    assert_eq!(scene.pos(), (0, 0));
    assert_eq!(scene.abs_pos(), (0, 0));
}
