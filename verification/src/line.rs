//! Straight lines by Bresenham's integer algorithm.
//!
//! A line is walked along its primary axis, the one on which its endpoints
//! lie further apart, always upwards from the endpoint with the smaller
//! primary coordinate. Each primary coordinate between the endpoints gets
//! exactly one pixel, whose secondary coordinate is that of the ideal line
//! rounded to the nearest integer, a tie going towards the starting point.

use crate::canvas::paint;
use crate::canvas::Canvas;
use crate::canvas::Color;
use crate::geometry::Vec2Di;
use vstd::prelude::*;

verus! {

/// Distance between two integers.
pub open spec fn distance(a: int, b: int) -> int {
    if a >= b {
        a - b
    } else {
        b - a
    }
}

/// Whether the line from `v0` to `v1` is walked along the y axis.
pub open spec fn is_steep(v0: Vec2Di, v1: Vec2Di) -> bool {
    distance(v0.x as int, v1.x as int) < distance(v0.y as int, v1.y as int)
}

/// The coordinate of `p` along which a line is walked.
pub open spec fn primary(steep: bool, p: Vec2Di) -> int {
    if steep {
        p.y as int
    } else {
        p.x as int
    }
}

/// The coordinate of `p` across the walking direction.
pub open spec fn secondary(steep: bool, p: Vec2Di) -> int {
    if steep {
        p.x as int
    } else {
        p.y as int
    }
}

/// Whether the walk starts at `v1` rather than at `v0`.
pub open spec fn is_reversed(v0: Vec2Di, v1: Vec2Di) -> bool {
    primary(is_steep(v0, v1), v0) > primary(is_steep(v0, v1), v1)
}

/// The endpoint at which the walk starts.
pub open spec fn walk_from(v0: Vec2Di, v1: Vec2Di) -> Vec2Di {
    if is_reversed(v0, v1) {
        v1
    } else {
        v0
    }
}

/// The endpoint at which the walk ends.
pub open spec fn walk_to(v0: Vec2Di, v1: Vec2Di) -> Vec2Di {
    if is_reversed(v0, v1) {
        v0
    } else {
        v1
    }
}

/// Number of steps along the primary axis: the larger of `|dx|` and `|dy|`.
pub open spec fn line_span(v0: Vec2Di, v1: Vec2Di) -> int {
    let steep = is_steep(v0, v1);
    primary(steep, walk_to(v0, v1)) - primary(steep, walk_from(v0, v1))
}

/// Distance of the endpoints across the walking direction: the smaller of
/// `|dx|` and `|dy|`.
pub open spec fn line_rise(v0: Vec2Di, v1: Vec2Di) -> int {
    let steep = is_steep(v0, v1);
    distance(secondary(steep, walk_from(v0, v1)), secondary(steep, walk_to(v0, v1)))
}

/// How far the line has moved across after `k` steps along: `rise * k / span`
/// rounded to the nearest integer, a half rounded down.
pub open spec fn lift(span: int, rise: int, k: int) -> int {
    if span <= 0 {
        0
    } else {
        (2 * (rise * k) + span - 1) / (2 * span)
    }
}

/// The pixel drawn at step `k` of the walk, for `0 <= k <= line_span`.
pub open spec fn line_point(v0: Vec2Di, v1: Vec2Di, k: int) -> (int, int) {
    let steep = is_steep(v0, v1);
    let from = walk_from(v0, v1);
    let to = walk_to(v0, v1);
    let a = primary(steep, from) + k;
    let moved = lift(line_span(v0, v1), line_rise(v0, v1), k);
    let b = if secondary(steep, to) > secondary(steep, from) {
        secondary(steep, from) + moved
    } else {
        secondary(steep, from) - moved
    };
    if steep {
        (b, a)
    } else {
        (a, b)
    }
}

/// The pixels of the line between `v0` and `v1`, in the order drawn.
pub open spec fn line_points(v0: Vec2Di, v1: Vec2Di) -> Seq<(int, int)> {
    Seq::new((line_span(v0, v1) + 1) as nat, |k: int| line_point(v0, v1, k))
}

/// The pixels drawn in the first `n` steps of the walk.
pub open spec fn line_prefix(v0: Vec2Di, v1: Vec2Di, n: int) -> Set<(int, int)> {
    Set::new(|p: (int, int)| exists|k: int| 0 <= k < n && #[trigger] line_point(v0, v1, k) == p)
}

/// The error accumulator of the walk determines how far the line has moved
/// across: with `err == 2 * rise * k - 2 * span * n` kept within
/// `(-span, span]`, the `n` moves made are `lift(span, rise, k)`.
proof fn lemma_lift_from_error(span: int, rise: int, k: int, n: int, rk: int, sn: int, err: int)
    requires
        span > 0,
        0 <= rise <= span,
        0 <= k <= span,
        rk == rise * k,
        sn == span * n,
        err == 2 * rk - 2 * sn,
        -span < err <= span,
    ensures
        n == lift(span, rise, k),
        0 <= n <= rise,
{
    let x = 2 * (rise * k) + span - 1;
    let d = 2 * span;
    let r = x - d * n;
    assert(d * n == 2 * sn) by (nonlinear_arith)
        requires
            d == 2 * span,
            sn == span * n,
    ;
    assert(0 <= r < d);
    assert(x == n * d + r) by (nonlinear_arith)
        requires
            r == x - d * n,
    ;
    vstd::arithmetic::div_mod::lemma_fundamental_div_mod_converse(x, d, n, r);
    assert(n >= 0) by (nonlinear_arith)
        requires
            span > 0,
            2 * (span * n) > -2 * span,
    ;
    assert(n <= rise) by (nonlinear_arith)
        requires
            span > 0,
            0 <= rise,
            0 <= k <= span,
            2 * (span * n) <= 2 * (rise * k) + span - 1,
    ;
}

/// The line has one pixel for each primary coordinate between its
/// endpoints, all of them different: `max(|dx|, |dy|) + 1` pixels.
pub proof fn lemma_line_pixel_count(v0: Vec2Di, v1: Vec2Di)
    ensures
        line_span(v0, v1) == if distance(v0.x as int, v1.x as int) >= distance(
            v0.y as int,
            v1.y as int,
        ) {
            distance(v0.x as int, v1.x as int)
        } else {
            distance(v0.y as int, v1.y as int)
        },
        line_points(v0, v1).len() == line_span(v0, v1) + 1,
        line_points(v0, v1).no_duplicates(),
        line_points(v0, v1).to_set().finite(),
        line_points(v0, v1).to_set().len() == line_span(v0, v1) + 1,
{
    let pts = line_points(v0, v1);
    assert forall|i: int, j: int| 0 <= i < pts.len() && 0 <= j < pts.len() && i != j implies pts[i]
        != pts[j] by {
        let steep = is_steep(v0, v1);
        if steep {
            assert(pts[i].1 != pts[j].1);
        } else {
            assert(pts[i].0 != pts[j].0);
        }
    }
    pts.unique_seq_to_set();
    vstd::seq_lib::seq_to_set_is_finite(pts);
}

/// Every step of the walk advances along the primary axis by one: the
/// pixel of step `k` has the primary coordinate of the starting point plus
/// `k`, so that each primary coordinate between the endpoints is visited
/// exactly once.
pub proof fn lemma_line_visits_each_step_once(v0: Vec2Di, v1: Vec2Di, k: int)
    ensures
        ({
            let steep = is_steep(v0, v1);
            let point = line_point(v0, v1, k);
            let along = if steep {
                point.1
            } else {
                point.0
            };
            along == primary(steep, walk_from(v0, v1)) + k
        }),
{
}

/// The line starts at one of its endpoints and ends at the other.
pub proof fn lemma_line_joins_its_ends(v0: Vec2Di, v1: Vec2Di)
    ensures
        line_points(v0, v1).first() == (walk_from(v0, v1).x as int, walk_from(v0, v1).y as int),
        line_points(v0, v1).last() == (walk_to(v0, v1).x as int, walk_to(v0, v1).y as int),
{
    let span = line_span(v0, v1);
    let rise = line_rise(v0, v1);
    assert(rise * 0 == 0) by (nonlinear_arith);
    if span > 0 {
        let x = 2 * (rise * span) + span - 1;
        assert(x == rise * (2 * span) + (span - 1)) by (nonlinear_arith)
            requires
                x == 2 * (rise * span) + span - 1,
        ;
        vstd::arithmetic::div_mod::lemma_fundamental_div_mod_converse(
            x,
            2 * span,
            rise,
            span - 1,
        );
        assert(lift(span, rise, span) == rise);
        vstd::arithmetic::div_mod::lemma_fundamental_div_mod_converse(
            span - 1,
            2 * span,
            0,
            span - 1,
        );
        assert(lift(span, rise, 0) == 0);
    }
    assert(line_points(v0, v1).first() == line_point(v0, v1, 0));
    assert(line_points(v0, v1).last() == line_point(v0, v1, span));
}

/// Drawing from `v0` to `v1` and drawing from `v1` to `v0` give the same
/// pixels, in the same order.
pub proof fn lemma_line_symmetric(v0: Vec2Di, v1: Vec2Di)
    ensures
        line_points(v0, v1) == line_points(v1, v0),
        line_points(v0, v1).to_set() == line_points(v1, v0).to_set(),
{
    assert(is_steep(v0, v1) == is_steep(v1, v0));
    if primary(is_steep(v0, v1), v0) == primary(is_steep(v0, v1), v1) {
        assert(v0.x == v1.x && v0.y == v1.y);
        assert(v0 == v1);
    } else {
        assert(walk_from(v0, v1) == walk_from(v1, v0));
        assert(walk_to(v0, v1) == walk_to(v1, v0));
    }
    assert(line_points(v0, v1) =~= line_points(v1, v0));
}

/// A line from a point to itself is that one point.
pub proof fn lemma_line_of_one_point(p: Vec2Di)
    ensures
        line_points(p, p) == seq![(p.x as int, p.y as int)],
        line_points(p, p).to_set() == set![(p.x as int, p.y as int)],
{
    let pts = line_points(p, p);
    assert(pts =~= seq![(p.x as int, p.y as int)]);
    assert(pts.to_set() =~= set![(p.x as int, p.y as int)]) by {
        assert(pts[0] == (p.x as int, p.y as int));
        assert forall|q: (int, int)| pts.to_set().contains(q) implies q == (
            p.x as int,
            p.y as int,
        ) by {
            let i = choose|i: int| 0 <= i < pts.len() && pts[i] == q;
            assert(i == 0);
        }
    }
}

/// The pixels drawn in all the steps of the walk are the pixels of the line.
proof fn lemma_prefix_is_line(v0: Vec2Di, v1: Vec2Di)
    ensures
        line_prefix(v0, v1, line_span(v0, v1) + 1) == line_points(v0, v1).to_set(),
{
    let pts = line_points(v0, v1);
    let n = line_span(v0, v1) + 1;
    assert forall|p: (int, int)| line_prefix(v0, v1, n).contains(p) implies pts.to_set().contains(
        p,
    ) by {
        let k = choose|k: int| 0 <= k < n && #[trigger] line_point(v0, v1, k) == p;
        assert(pts[k] == p);
    }
    assert forall|p: (int, int)| pts.to_set().contains(p) implies line_prefix(v0, v1, n).contains(
        p,
    ) by {
        let k = choose|k: int| 0 <= k < pts.len() && pts[k] == p;
        assert(line_point(v0, v1, k) == p);
    }
    assert(line_prefix(v0, v1, n) =~= pts.to_set());
}

/// Painting one more step of the walk.
proof fn lemma_paint_step(pixels: Map<(int, int), Color>, v0: Vec2Di, v1: Vec2Di, k: int, color: Color)
    requires
        0 <= k,
    ensures
        paint(pixels, line_prefix(v0, v1, k), color).insert(line_point(v0, v1, k), color) == paint(
            pixels,
            line_prefix(v0, v1, k + 1),
            color,
        ),
{
    let before = line_prefix(v0, v1, k);
    let after = line_prefix(v0, v1, k + 1);
    let pt = line_point(v0, v1, k);
    assert forall|p: (int, int)| after.contains(p) <==> (before.contains(p) || p == pt) by {
        if before.contains(p) {
            let j = choose|j: int| 0 <= j < k && #[trigger] line_point(v0, v1, j) == p;
            assert(0 <= j < k + 1);
        }
        if after.contains(p) {
            let j = choose|j: int| 0 <= j < k + 1 && #[trigger] line_point(v0, v1, j) == p;
            if j < k {
                assert(before.contains(p));
            }
        }
    }
    assert(paint(pixels, before, color).insert(pt, color) =~= paint(pixels, after, color));
}

/// Draws the line between `v0` and `v1`, both on the canvas, in `color`.
pub fn draw_line(canvas: &mut Canvas, v0: Vec2Di, v1: Vec2Di, color: Color)
    requires
        old(canvas).contains(v0.x as int, v0.y as int),
        old(canvas).contains(v1.x as int, v1.y as int),
    ensures
        final(canvas).spec_width() == old(canvas).spec_width(),
        final(canvas).spec_height() == old(canvas).spec_height(),
        final(canvas).pixels() == paint(
            old(canvas).pixels(),
            line_points(v0, v1).to_set(),
            color,
        ),
{
    let ghost before = canvas.pixels();
    let x0: i64 = v0.x as i64;
    let y0: i64 = v0.y as i64;
    let x1: i64 = v1.x as i64;
    let y1: i64 = v1.y as i64;
    let adx: i64 = if x0 >= x1 {
        x0 - x1
    } else {
        x1 - x0
    };
    let ady: i64 = if y0 >= y1 {
        y0 - y1
    } else {
        y1 - y0
    };
    let transpose = adx < ady;
    let reverse = (!transpose && x0 > x1) || (transpose && y0 > y1);
    let a0: i64 = if transpose {
        if reverse {
            y1
        } else {
            y0
        }
    } else {
        if reverse {
            x1
        } else {
            x0
        }
    };
    let a1: i64 = if transpose {
        if reverse {
            y0
        } else {
            y1
        }
    } else {
        if reverse {
            x0
        } else {
            x1
        }
    };
    let b0: i64 = if transpose {
        if reverse {
            x1
        } else {
            x0
        }
    } else {
        if reverse {
            y1
        } else {
            y0
        }
    };
    let b1: i64 = if transpose {
        if reverse {
            x0
        } else {
            x1
        }
    } else {
        if reverse {
            y0
        } else {
            y1
        }
    };
    let da: i64 = a1 - a0;
    let rise: i64 = if b1 > b0 {
        b1 - b0
    } else {
        b0 - b1
    };
    let derr: i64 = 2 * rise;
    let up = b1 > b0;
    let mut err: i64 = 0;
    let mut a: i64 = a0;
    let mut b: i64 = b0;
    let ghost mut n: int = 0;
    let ghost mut rk: int = 0;
    let ghost mut sn: int = 0;
    proof {
        assert(transpose == is_steep(v0, v1));
        assert(reverse == is_reversed(v0, v1));
        assert(da == line_span(v0, v1));
        assert(rise == line_rise(v0, v1));
        assert(line_prefix(v0, v1, 0) =~= Set::<(int, int)>::empty());
        assert(paint(before, line_prefix(v0, v1, 0), color) =~= before);
        assert(rise * 0 == 0) by (nonlinear_arith);
        assert(da * 0 == 0) by (nonlinear_arith);
    }
    if da == 0 {
        canvas.put_pixel(x0 as u32, y0 as u32, color);
        proof {
            assert(line_point(v0, v1, 0) == (x0 as int, y0 as int));
            lemma_paint_step(before, v0, v1, 0, color);
            lemma_prefix_is_line(v0, v1);
        }
        return ;
    }
    while a <= a1
        invariant
            da > 0,
            da == a1 - a0,
            da == line_span(v0, v1),
            rise == line_rise(v0, v1),
            0 <= rise <= da,
            derr == 2 * rise,
            transpose == is_steep(v0, v1),
            a0 == primary(transpose, walk_from(v0, v1)),
            b0 == secondary(transpose, walk_from(v0, v1)),
            b1 == secondary(transpose, walk_to(v0, v1)),
            up == (b1 > b0),
            rise == if up { b1 - b0 } else { b0 - b1 },
            0 <= a0 <= a1 <= i32::MAX,
            0 <= b0 <= i32::MAX,
            0 <= b1 <= i32::MAX,
            transpose ==> a1 < canvas.spec_height() && b0 < canvas.spec_width() && b1
                < canvas.spec_width(),
            !transpose ==> a1 < canvas.spec_width() && b0 < canvas.spec_height() && b1
                < canvas.spec_height(),
            a0 <= a <= a1 + 1,
            rk == rise * (a - a0),
            sn == da * n,
            err == 2 * rk - 2 * sn,
            -da < err <= da,
            b == if up { b0 + n } else { b0 - n },
            -1 <= n <= a - a0,
            canvas.spec_width() == old(canvas).spec_width(),
            canvas.spec_height() == old(canvas).spec_height(),
            canvas.pixels() == paint(before, line_prefix(v0, v1, a - a0), color),
        decreases a1 + 1 - a,
    {
        proof {
            lemma_lift_from_error(da as int, rise as int, a - a0, n, rk, sn, err as int);
            assert(line_point(v0, v1, a - a0) == if transpose {
                (b as int, a as int)
            } else {
                (a as int, b as int)
            });
            lemma_paint_step(before, v0, v1, a - a0, color);
        }
        if transpose {
            canvas.put_pixel(b as u32, a as u32, color);
        } else {
            canvas.put_pixel(a as u32, b as u32, color);
        }
        err = err + derr;
        proof {
            assert(rise * (a + 1 - a0) == rise * (a - a0) + rise) by (nonlinear_arith);
            rk = rk + rise;
        }
        if err > da {
            b = if up {
                b + 1
            } else {
                b - 1
            };
            err = err - 2 * da;
            proof {
                assert(da * (n + 1) == da * n + da) by (nonlinear_arith);
                n = n + 1;
                sn = sn + da;
            }
        }
        a = a + 1;
    }
    proof {
        lemma_prefix_is_line(v0, v1);
    }
}

} // verus!
