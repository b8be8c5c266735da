use rasterizer::canvas::Canvas;
use rasterizer::color::Color;
use rasterizer::geom::{resolve_vertex_index, Displacement, Point, Vertex, COORD_ONE};
use rasterizer::interp::{get_interp_color, get_step_size};
use rasterizer::raster::draw_line;
use rasterizer::triangle::{draw_triangle, sort_trig_verts_in_y};

fn v(x: i64, y: i64, c: Color) -> Vertex {
    Vertex::new(x * COORD_ONE, y * COORD_ONE, c)
}

fn at(c: &Canvas, x: u32, y: u32) -> (u8, u8, u8, u8) {
    c.get_pixel(x, y).as_tuple()
}

const RED: Color = Color { red: 255, green: 0, blue: 0, alpha: 255 };
const GREEN: Color = Color { red: 0, green: 255, blue: 0, alpha: 255 };
const BLUE: Color = Color { red: 0, green: 0, blue: 255, alpha: 255 };
const CLEAR: (u8, u8, u8, u8) = (0, 0, 0, 0);

#[test]
fn fresh_canvas_is_transparent() {
    let c = Canvas::new(3, 2, String::from("t.png"));
    assert_eq!(c.width, 3);
    assert_eq!(c.height, 2);
    for y in 0..2 {
        for x in 0..3 {
            assert_eq!(at(&c, x, y), CLEAR);
        }
    }
}

#[test]
fn set_then_get_round_trip() {
    let mut c = Canvas::new(4, 4, String::from("t.png"));
    c.set_pixel(2, 1, RED);
    assert_eq!(at(&c, 2, 1), (255, 0, 0, 255));
    assert_eq!(at(&c, 1, 2), CLEAR);
    assert_eq!(at(&c, 2, 2), CLEAR);
}

#[test]
fn coincident_endpoints_paint_nothing() {
    let mut c = Canvas::new(8, 8, String::from("t.png"));
    let a = v(3, 3, RED);
    let painted = draw_line(&mut c, &a, &a, None);
    assert_eq!(painted, 0);
    for y in 0..8 {
        for x in 0..8 {
            assert_eq!(at(&c, x, y), CLEAR);
        }
    }
}

#[test]
fn horizontal_line_paints_contiguous_run() {
    let mut c = Canvas::new(8, 8, String::from("t.png"));
    let a = v(1, 2, RED);
    let b = v(6, 2, RED);
    let painted = draw_line(&mut c, &a, &b, Some(GREEN));
    // round(|displacement|) pixels, one unit apart, upper end exclusive
    assert_eq!(painted, 5);
    for x in 1..6 {
        assert_eq!(at(&c, x, 2), (0, 255, 0, 255));
    }
    assert_eq!(at(&c, 0, 2), CLEAR);
    assert_eq!(at(&c, 6, 2), CLEAR);
    for x in 0..8 {
        assert_eq!(at(&c, x, 1), CLEAR);
        assert_eq!(at(&c, x, 3), CLEAR);
    }
}

#[test]
fn vertical_line_paints_contiguous_run() {
    let mut c = Canvas::new(8, 8, String::from("t.png"));
    let painted = draw_line(&mut c, &v(5, 6, RED), &v(5, 1, RED), Some(BLUE));
    assert_eq!(painted, 5);
    for y in 1..6 {
        assert_eq!(at(&c, 5, y), (0, 0, 255, 255));
    }
    assert_eq!(at(&c, 5, 0), CLEAR);
    assert_eq!(at(&c, 5, 6), CLEAR);
}

#[test]
fn diagonal_line_steps_once_per_column() {
    let mut c = Canvas::new(8, 8, String::from("t.png"));
    let painted = draw_line(&mut c, &v(0, 0, RED), &v(3, 3, RED), Some(RED));
    assert_eq!(painted, 3);
    for k in 0..3 {
        assert_eq!(at(&c, k, k), (255, 0, 0, 255));
    }
    assert_eq!(at(&c, 3, 3), CLEAR);
}

#[test]
fn diagonal_tie_steps_along_x() {
    // equal |dx| and |dy|: the tie breaks toward the x axis, which a
    // fractional start makes observable — stepping x from (0.5, 0)
    // lands on columns 1..3 with y = round(0.5 + k) = k + 1
    let mut c = Canvas::new(8, 8, String::from("t.png"));
    let a = Vertex::new(COORD_ONE / 2, 0, RED);
    let b = Vertex::new(7 * COORD_ONE / 2, 3 * COORD_ONE, RED);
    let painted = draw_line(&mut c, &a, &b, Some(RED));
    assert_eq!(painted, 3);
    for k in 1..4 {
        assert_eq!(at(&c, k, k), (255, 0, 0, 255));
    }
    assert_eq!(at(&c, 1, 0), CLEAR);
    assert_eq!(at(&c, 2, 1), CLEAR);
    assert_eq!(at(&c, 3, 2), CLEAR);
}

#[test]
fn fractional_endpoints_prestep_to_grid() {
    let mut c = Canvas::new(8, 8, String::from("t.png"));
    // from x = 0.9 to x = 3.5 at y = 1: grid columns 1, 2, 3
    let a = Vertex::new(9 * COORD_ONE / 10, COORD_ONE, RED);
    let b = Vertex::new(7 * COORD_ONE / 2, COORD_ONE, RED);
    let painted = draw_line(&mut c, &a, &b, Some(RED));
    assert_eq!(painted, 3);
    assert_eq!(at(&c, 0, 1), CLEAR);
    for x in 1..4 {
        assert_eq!(at(&c, x, 1), (255, 0, 0, 255));
    }
    assert_eq!(at(&c, 4, 1), CLEAR);
}

#[test]
fn gradient_line_over_transparent_canvas() {
    // drawing (0,0) red .. (5,0) red with no fixed color: interpolation
    // between identical endpoint colors is constant, compositing over
    // transparent yields the color itself; the end column is exclusive
    let mut c = Canvas::new(10, 10, String::from("t.png"));
    let painted = draw_line(&mut c, &v(0, 0, RED), &v(5, 0, RED), None);
    assert_eq!(painted, 5);
    for x in 0..5 {
        assert_eq!(at(&c, x, 0), (255, 0, 0, 255));
    }
    assert_eq!(at(&c, 5, 0), CLEAR);
}

#[test]
fn gradient_line_blends_endpoint_colors() {
    let mut c = Canvas::new(8, 8, String::from("t.png"));
    draw_line(&mut c, &v(0, 0, RED), &v(4, 0, GREEN), None);
    // span rounds to 4, so the blend advances by thirds
    assert_eq!(at(&c, 0, 0), (255, 0, 0, 255));
    assert_eq!(at(&c, 1, 0), (170, 85, 0, 255));
    assert_eq!(at(&c, 2, 0), (85, 170, 0, 255));
    assert_eq!(at(&c, 3, 0), (0, 255, 0, 255));
    assert_eq!(at(&c, 4, 0), CLEAR);
}

#[test]
fn repeated_painting_is_not_idempotent() {
    // a 50%-alpha source over an opaque destination saturates further
    // with each pass, so compositing is count sensitive
    let semi = Color { red: 0, green: 0, blue: 255, alpha: 128 };
    let white = Color { red: 255, green: 255, blue: 255, alpha: 255 };
    let mut c = Canvas::new(4, 4, String::from("t.png"));
    for x in 0..4 {
        c.set_pixel(x, 1, white);
    }
    draw_line(&mut c, &v(0, 1, semi), &v(3, 1, semi), None);
    let once = at(&c, 1, 1);
    assert_eq!(once, (127, 127, 255, 255));
    draw_line(&mut c, &v(0, 1, semi), &v(3, 1, semi), None);
    let twice = at(&c, 1, 1);
    assert_eq!(twice, (63, 63, 255, 255));
    assert_ne!(once, twice);
}

#[test]
fn sort_is_stable_on_equal_rows() {
    let a = v(0, 0, RED);
    let b = v(4, 0, GREEN);
    let c3 = v(0, 4, BLUE);
    let (t, m, bt) = sort_trig_verts_in_y(&a, &b, &c3);
    assert_eq!(t, a);
    assert_eq!(m, b);
    assert_eq!(bt, c3);
    let (t2, m2, b2) = sort_trig_verts_in_y(&c3, &b, &a);
    assert_eq!(t2, b);
    assert_eq!(m2, a);
    assert_eq!(b2, c3);
    // an equal-y pair above the minimum also keeps its argument order
    let p = v(1, 5, RED);
    let q = v(3, 5, GREEN);
    let r = v(0, 2, BLUE);
    let (t3, m3, b3) = sort_trig_verts_in_y(&p, &q, &r);
    assert_eq!(t3, r);
    assert_eq!(m3, p);
    assert_eq!(b3, q);
}

#[test]
fn triangle_rows_are_contiguous_with_edge_colors() {
    // vertices (0,0) red, (4,0) green, (0,4) blue: each scanline is a
    // contiguous span whose boundaries carry the edge blends at that row
    let mut c = Canvas::new(10, 10, String::from("t.png"));
    draw_triangle(&mut c, &v(0, 0, RED), &v(4, 0, GREEN), &v(0, 4, BLUE));
    // left boundary: the long edge red -> blue in thirds
    assert_eq!(at(&c, 0, 0), (255, 0, 0, 255));
    assert_eq!(at(&c, 0, 1), (170, 0, 85, 255));
    assert_eq!(at(&c, 0, 2), (85, 0, 170, 255));
    assert_eq!(at(&c, 0, 3), (0, 0, 255, 255));
    // right boundary: the short edge green -> blue in thirds
    assert_eq!(at(&c, 3, 0), (0, 255, 0, 255));
    assert_eq!(at(&c, 2, 1), (0, 170, 85, 255));
    assert_eq!(at(&c, 1, 2), (0, 85, 170, 255));
    // every row's span is contiguous: painted up to the right edge,
    // untouched beyond it
    for y in 0..4u32 {
        for x in 0..(4 - y) {
            assert_eq!(at(&c, x, y).3, 255);
        }
        for x in (4 - y)..10 {
            assert_eq!(at(&c, x, y), CLEAR);
        }
    }
    for x in 0..10 {
        assert_eq!(at(&c, x, 4), CLEAR);
    }
}

#[test]
fn degenerate_triangle_paints_nothing() {
    let mut c = Canvas::new(8, 8, String::from("t.png"));
    draw_triangle(&mut c, &v(1, 2, RED), &v(5, 2, GREEN), &v(3, 2, BLUE));
    for y in 0..8 {
        for x in 0..8 {
            assert_eq!(at(&c, x, y), CLEAR);
        }
    }
}

#[test]
fn interpolation_at_step_zero_is_first_color() {
    let a = v(0, 0, Color { red: 10, green: 20, blue: 30, alpha: 40 });
    let b = v(9, 0, Color { red: 200, green: 210, blue: 220, alpha: 230 });
    let s = get_step_size(&a, &b, 0);
    assert_eq!(get_interp_color(&a, &b, s, 0), (10, 20, 30, 40));
    assert_eq!(get_interp_color(&a, &b, s, 8), (200, 210, 220, 230));
    assert_eq!(get_interp_color(&a, &b, s, 4), (105, 115, 125, 135));
}

#[test]
fn step_size_saturates_on_short_spans() {
    let a = v(0, 0, RED);
    let s1 = get_step_size(&a, &v(1, 0, GREEN), 0);
    assert_eq!((s1.num, s1.den), (1, 1));
    let s5 = get_step_size(&a, &v(5, 0, GREEN), 0);
    assert_eq!((s5.num, s5.den), (1, 4));
    let s0 = get_step_size(&a, &v(0, 0, GREEN), 0);
    assert_eq!((s0.num, s0.den), (-1, 1));
}

#[test]
fn displacement_arithmetic() {
    let p1 = Point::new(2 * COORD_ONE, 3 * COORD_ONE);
    let p2 = Point::new(5 * COORD_ONE, 1 * COORD_ONE);
    let mut d = Displacement::from_points(&p1, &p2);
    assert_eq!((d.dx, d.dy), (3 * COORD_ONE, -2 * COORD_ONE));
    d.swap();
    assert_eq!((d.dx, d.dy), (-2 * COORD_ONE, 3 * COORD_ONE));
    d.reverse();
    assert_eq!((d.dx, d.dy), (2 * COORD_ONE, -3 * COORD_ONE));
    d.add(&Displacement { dx: COORD_ONE, dy: COORD_ONE });
    assert_eq!((d.dx, d.dy), (3 * COORD_ONE, -2 * COORD_ONE));
}

#[test]
fn vertex_references_resolve_from_both_ends() {
    assert_eq!(resolve_vertex_index(5, 2), 2);
    assert_eq!(resolve_vertex_index(5, -1), 4);
    assert_eq!(resolve_vertex_index(5, -5), 0);
    assert_eq!(resolve_vertex_index(5, 0), 0);
}
