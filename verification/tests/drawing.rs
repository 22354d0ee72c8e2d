use softraster::canvas::Canvas;
use softraster::canvas::Color;
use softraster::depth::DepthBuffer;
use softraster::depth::NO_SURFACE;
use softraster::fill::fill_triangle;
use softraster::geometry::Vec2D;
use softraster::geometry::Vec2Di;
use softraster::geometry::Vec3D;
use softraster::geometry::Vec3Di;
use softraster::painting::try_line;
use softraster::painting::try_triangle;
use softraster::painting::Painting;
use softraster::polygon::draw_polygon;
use softraster::polygon::try_polygon;
use softraster::scan::interpolate_at;

const BLACK: Color = Color { r: 0, g: 0, b: 0 };
const RED: Color = Color { r: 255, g: 0, b: 0 };
const GREEN: Color = Color { r: 0, g: 255, b: 0 };

fn p(x: i32, y: i32) -> Vec2Di {
    Vec2D { x, y }
}

fn v(x: i32, y: i32, z: i32) -> Vec3Di {
    Vec3D { x, y, z }
}

fn painted(canvas: &Canvas, color: Color) -> Vec<(u32, u32)> {
    let mut found = Vec::new();
    for y in 0..canvas.height() {
        for x in 0..canvas.width() {
            if canvas.get_pixel(x, y) == color {
                found.push((x, y));
            }
        }
    }
    found
}

#[test]
fn new_canvas_is_black_and_has_its_size() {
    let canvas = Canvas::new(4, 3).unwrap();
    assert_eq!((canvas.width(), canvas.height()), (4, 3));
    assert_eq!(painted(&canvas, BLACK).len(), 12);
    assert!(canvas.has_point(3, 2));
    assert!(!canvas.has_point(4, 2));
    assert!(!canvas.has_point(3, 3));
    assert!(!canvas.has_point(-1, 0));
}

#[test]
fn canvas_too_large_to_address_is_refused() {
    assert!(Canvas::new(u32::MAX, u32::MAX).is_none());
}

#[test]
fn put_pixel_changes_one_pixel() {
    let mut canvas = Canvas::new(3, 3).unwrap();
    canvas.put_pixel(1, 2, RED);
    assert_eq!(painted(&canvas, RED), vec![(1, 2)]);
    assert_eq!(canvas.get_pixel(1, 2), RED);
    assert_eq!(canvas.get_pixel(2, 1), BLACK);
}

#[test]
fn flip_vertical_turns_rows_upside_down() {
    let mut canvas = Canvas::new(2, 3).unwrap();
    canvas.put_pixel(0, 0, RED);
    canvas.put_pixel(1, 1, GREEN);
    let flipped = canvas.flip_vertical();
    assert_eq!((flipped.width(), flipped.height()), (2, 3));
    assert_eq!(painted(&flipped, RED), vec![(0, 2)]);
    assert_eq!(painted(&flipped, GREEN), vec![(1, 1)]);
    assert_eq!(painted(&canvas, RED), vec![(0, 0)]);
}

#[test]
fn line_from_a_point_to_itself_is_one_pixel() {
    let mut canvas = Canvas::new(8, 8).unwrap();
    canvas.line(p(3, 5), p(3, 5), RED);
    assert_eq!(painted(&canvas, RED), vec![(3, 5)]);
}

#[test]
fn shallow_line_rounds_to_the_nearest_row() {
    let mut canvas = Canvas::new(8, 8).unwrap();
    canvas.line(p(0, 0), p(3, 1), RED);
    assert_eq!(painted(&canvas, RED), vec![(0, 0), (1, 0), (2, 1), (3, 1)]);
}

#[test]
fn steep_line_walks_along_y() {
    let mut canvas = Canvas::new(8, 8).unwrap();
    canvas.line(p(2, 1), p(0, 6), RED);
    // span 5 along y, rise 2: columns 2, 2, 1, 1, 0, 0 from the top
    assert_eq!(painted(&canvas, RED), vec![(2, 1), (2, 2), (1, 3), (1, 4), (0, 5), (0, 6)]);
}

#[test]
fn line_is_the_same_from_either_end() {
    let ends = [
        (p(0, 0), p(7, 3)),
        (p(7, 0), p(0, 5)),
        (p(1, 6), p(6, 1)),
        (p(2, 7), p(3, 0)),
        (p(0, 4), p(7, 4)),
        (p(5, 0), p(5, 7)),
        (p(0, 0), p(7, 7)),
    ];
    for (a, b) in ends {
        let mut forward = Canvas::new(8, 8).unwrap();
        let mut backward = Canvas::new(8, 8).unwrap();
        forward.line(a, b, RED);
        backward.line(b, a, RED);
        assert_eq!(painted(&forward, RED), painted(&backward, RED));
        let dx = (a.x - b.x).abs();
        let dy = (a.y - b.y).abs();
        assert_eq!(painted(&forward, RED).len() as i32, dx.max(dy) + 1);
    }
}

#[test]
fn line_calls_chain() {
    let mut canvas = Canvas::new(8, 8).unwrap();
    canvas.line(p(0, 0), p(2, 0), RED).line(p(0, 2), p(2, 2), GREEN);
    assert_eq!(painted(&canvas, RED), vec![(0, 0), (1, 0), (2, 0)]);
    assert_eq!(painted(&canvas, GREEN), vec![(0, 2), (1, 2), (2, 2)]);
}

#[test]
fn line_leaving_the_canvas_is_not_drawn() {
    let mut canvas = Canvas::new(4, 4).unwrap();
    assert!(!try_line(&mut canvas, p(0, 0), p(4, 0), RED));
    assert!(!try_line(&mut canvas, p(-1, 0), p(2, 0), RED));
    assert!(painted(&canvas, RED).is_empty());
    assert!(try_line(&mut canvas, p(0, 0), p(3, 0), RED));
    assert_eq!(painted(&canvas, RED).len(), 4);
}

#[test]
fn interpolation_cuts_off_towards_zero() {
    assert_eq!(interpolate_at(0, 10, 1, 3), 3);
    assert_eq!(interpolate_at(0, -10, 1, 3), -3);
    assert_eq!(interpolate_at(5, 15, 0, 4), 5);
    assert_eq!(interpolate_at(5, 15, 4, 4), 15);
    assert_eq!(interpolate_at(0, 10, -1, -3), 3);
    assert_eq!(interpolate_at(0, 49, 1, 49), 1);
    assert_eq!(interpolate_at(i32::MIN, i32::MAX, 1, 2), -1);
}

#[test]
fn fresh_depth_buffer_has_seen_no_surface() {
    let buffer = DepthBuffer::new(3, 2);
    assert_eq!((buffer.width(), buffer.height()), (3, 2));
    for x in 0..3 {
        for y in 0..2 {
            assert_eq!(buffer.get(x, y), NO_SURFACE);
        }
    }
}

#[test]
fn depth_buffer_only_rises() {
    let mut buffer = DepthBuffer::new(2, 2);
    assert!(buffer.raise(1, 0, 5));
    assert_eq!(buffer.get(1, 0), 5);
    assert!(!buffer.raise(1, 0, 5));
    assert!(!buffer.raise(1, 0, -3));
    assert_eq!(buffer.get(1, 0), 5);
    assert!(buffer.raise(1, 0, 6));
    assert_eq!(buffer.get(1, 0), 6);
    assert!(!buffer.raise(0, 0, NO_SURFACE));
    assert_eq!(buffer.get(0, 1), NO_SURFACE);
}

#[test]
fn triangle_fills_its_rows_between_the_edges() {
    let mut canvas = Canvas::new(6, 6).unwrap();
    let mut zbuffer = DepthBuffer::new(6, 6);
    canvas.triangle(v(0, 0, 1), v(4, 0, 1), v(0, 4, 1), RED, &mut zbuffer);
    let mut expected = Vec::new();
    for y in 0..5u32 {
        for x in 0..(5 - y) {
            expected.push((x, y));
        }
    }
    assert_eq!(painted(&canvas, RED), expected);
    for (x, y) in expected {
        assert_eq!(zbuffer.get(x as usize, y as usize), 1);
    }
    assert_eq!(zbuffer.get(5, 5), NO_SURFACE);
}

#[test]
fn triangle_with_a_middle_vertex_draws_both_halves() {
    let mut canvas = Canvas::new(8, 8).unwrap();
    let mut zbuffer = DepthBuffer::new(8, 8);
    canvas.triangle(v(0, 0, 0), v(4, 2, 0), v(0, 4, 0), RED, &mut zbuffer);
    assert_eq!(
        painted(&canvas, RED),
        vec![
            (0, 0),
            (0, 1),
            (1, 1),
            (2, 1),
            (0, 2),
            (1, 2),
            (2, 2),
            (3, 2),
            (4, 2),
            (0, 3),
            (1, 3),
            (2, 3),
            (0, 4),
        ]
    );
}

#[test]
fn nearer_triangle_wins_whichever_is_drawn_first() {
    let near = (v(0, 0, 9), v(4, 0, 9), v(0, 4, 9));
    let far = (v(0, 0, 2), v(4, 0, 2), v(0, 4, 2));
    let mut first = Canvas::new(6, 6).unwrap();
    let mut zfirst = DepthBuffer::new(6, 6);
    first.triangle(near.0, near.1, near.2, RED, &mut zfirst).triangle(
        far.0,
        far.1,
        far.2,
        GREEN,
        &mut zfirst,
    );
    let mut second = Canvas::new(6, 6).unwrap();
    let mut zsecond = DepthBuffer::new(6, 6);
    second.triangle(far.0, far.1, far.2, GREEN, &mut zsecond).triangle(
        near.0,
        near.1,
        near.2,
        RED,
        &mut zsecond,
    );
    assert_eq!(first.get_pixel(1, 1), RED);
    assert_eq!(second.get_pixel(1, 1), RED);
    assert_eq!(zfirst.get(1, 1), 9);
    assert_eq!(zsecond.get(1, 1), 9);
    assert!(painted(&first, GREEN).is_empty());
    assert!(painted(&second, GREEN).is_empty());
}

#[test]
fn depth_is_interpolated_across_a_span() {
    let mut canvas = Canvas::new(6, 3).unwrap();
    let mut zbuffer = DepthBuffer::new(6, 3);
    canvas.triangle(v(0, 0, 0), v(0, 2, 0), v(4, 2, 40), RED, &mut zbuffer);
    // the top row runs from (0, 2) at depth 0 to (4, 2) at depth 40
    for x in 0..5usize {
        assert_eq!(zbuffer.get(x, 2), 10 * x as i32);
    }
    // the middle row ends where the long edge passes: column 2, depth 20
    assert_eq!(zbuffer.get(2, 1), 20);
    assert_eq!(zbuffer.get(1, 1), 10);
    assert_eq!(zbuffer.get(3, 1), NO_SURFACE);
}

#[test]
fn surface_at_the_lowest_depth_is_never_drawn() {
    let mut canvas = Canvas::new(4, 4).unwrap();
    let mut zbuffer = DepthBuffer::new(4, 4);
    canvas.triangle(
        v(0, 0, NO_SURFACE),
        v(3, 0, NO_SURFACE),
        v(0, 3, NO_SURFACE),
        RED,
        &mut zbuffer,
    );
    assert!(painted(&canvas, RED).is_empty());
}

#[test]
fn collinear_triangle_draws_only_its_edge() {
    let mut canvas = Canvas::new(8, 8).unwrap();
    let mut zbuffer = DepthBuffer::new(8, 8);
    canvas.triangle(v(0, 0, 1), v(2, 2, 1), v(4, 4, 1), RED, &mut zbuffer);
    assert_eq!(painted(&canvas, RED), vec![(0, 0), (1, 1), (2, 2), (3, 3), (4, 4)]);
    let mut flat = Canvas::new(8, 8).unwrap();
    fill_triangle(&mut flat, p(6, 1), p(0, 4), p(2, 3), RED);
    assert_eq!(painted(&flat, RED), vec![(6, 1), (4, 2), (2, 3), (0, 4)]);
}

#[test]
fn level_triangle_draws_nothing() {
    let mut canvas = Canvas::new(8, 8).unwrap();
    let mut zbuffer = DepthBuffer::new(8, 8);
    canvas.triangle(v(0, 3, 1), v(5, 3, 1), v(2, 3, 1), RED, &mut zbuffer);
    assert!(painted(&canvas, RED).is_empty());
    fill_triangle(&mut canvas, p(0, 3), p(5, 3), p(2, 3), RED);
    assert!(painted(&canvas, RED).is_empty());
}

#[test]
fn flat_triangle_ignores_depth() {
    let mut canvas = Canvas::new(6, 6).unwrap();
    fill_triangle(&mut canvas, p(0, 4), p(0, 0), p(4, 0), RED);
    let mut expected = Vec::new();
    for y in 0..5u32 {
        for x in 0..(5 - y) {
            expected.push((x, y));
        }
    }
    assert_eq!(painted(&canvas, RED), expected);
    fill_triangle(&mut canvas, p(0, 0), p(1, 0), p(0, 1), GREEN);
    assert_eq!(painted(&canvas, GREEN), vec![(0, 0), (1, 0), (0, 1)]);
}

#[test]
fn triangle_order_of_vertices_does_not_matter_for_coverage() {
    let corners = [v(1, 0, 3), v(6, 3, 3), v(2, 7, 3)];
    let orders = [[0, 1, 2], [0, 2, 1], [1, 0, 2], [1, 2, 0], [2, 0, 1], [2, 1, 0]];
    let mut reference: Option<Vec<(u32, u32)>> = None;
    for order in orders {
        let mut canvas = Canvas::new(8, 8).unwrap();
        let mut zbuffer = DepthBuffer::new(8, 8);
        canvas.triangle(
            corners[order[0]],
            corners[order[1]],
            corners[order[2]],
            RED,
            &mut zbuffer,
        );
        let found = painted(&canvas, RED);
        match &reference {
            None => reference = Some(found),
            Some(expected) => assert_eq!(&found, expected),
        }
    }
}

#[test]
fn triangle_outside_the_canvas_or_with_a_wrong_buffer_is_not_drawn() {
    let mut canvas = Canvas::new(4, 4).unwrap();
    let mut zbuffer = DepthBuffer::new(4, 4);
    assert!(!try_triangle(&mut canvas, v(0, 0, 1), v(4, 0, 1), v(0, 3, 1), RED, &mut zbuffer));
    let mut small = DepthBuffer::new(3, 4);
    assert!(!try_triangle(&mut canvas, v(0, 0, 1), v(3, 0, 1), v(0, 3, 1), RED, &mut small));
    assert!(painted(&canvas, RED).is_empty());
    assert_eq!(zbuffer.get(0, 0), NO_SURFACE);
    assert!(try_triangle(&mut canvas, v(0, 0, 1), v(3, 0, 1), v(0, 3, 1), RED, &mut zbuffer));
    assert_eq!(painted(&canvas, RED).len(), 10);
}

#[test]
fn polygon_is_drawn_as_the_fan_of_its_triangles() {
    let square = vec![v(0, 0, 1), v(3, 0, 1), v(3, 3, 1), v(0, 3, 1)];
    let mut canvas = Canvas::new(5, 5).unwrap();
    let mut zbuffer = DepthBuffer::new(5, 5);
    draw_polygon(&mut canvas, &square, RED, &mut zbuffer);
    let mut by_hand = Canvas::new(5, 5).unwrap();
    let mut zhand = DepthBuffer::new(5, 5);
    by_hand.triangle(square[0], square[1], square[2], RED, &mut zhand).triangle(
        square[0],
        square[2],
        square[3],
        RED,
        &mut zhand,
    );
    assert_eq!(painted(&canvas, RED), painted(&by_hand, RED));
    assert_eq!(painted(&canvas, RED).len(), 16);
    let mut untouched = Canvas::new(5, 5).unwrap();
    draw_polygon(&mut untouched, &vec![v(0, 0, 1), v(3, 3, 1)], RED, &mut zbuffer);
    assert!(painted(&untouched, RED).is_empty());
}

#[test]
fn polygon_with_a_corner_off_the_canvas_is_not_drawn() {
    let mut canvas = Canvas::new(4, 4).unwrap();
    let mut zbuffer = DepthBuffer::new(4, 4);
    let corners = vec![v(0, 0, 1), v(3, 0, 1), v(3, 4, 1), v(0, 3, 1)];
    assert!(!try_polygon(&mut canvas, &corners, RED, &mut zbuffer));
    assert!(painted(&canvas, RED).is_empty());
    let corners = vec![v(0, 0, 1), v(3, 0, 1), v(3, 3, 1), v(0, 3, 1)];
    assert!(try_polygon(&mut canvas, &corners, RED, &mut zbuffer));
    assert_eq!(painted(&canvas, RED).len(), 16);
}

#[test]
fn span_of_one_column_takes_the_smaller_depth() {
    let mut canvas = Canvas::new(4, 5).unwrap();
    let mut zbuffer = DepthBuffer::new(4, 5);
    canvas.triangle(v(2, 0, 5), v(2, 4, 9), v(2, 2, 1), RED, &mut zbuffer);
    assert_eq!(painted(&canvas, RED), vec![(2, 0), (2, 1), (2, 2), (2, 3), (2, 4)]);
    let depths: Vec<i32> = (0..5).map(|y| zbuffer.get(2, y)).collect();
    assert_eq!(depths, vec![5, 3, 1, 5, 9]);
}
