//! Linear interpolation in exact integer arithmetic, and the depth-tested
//! horizontal span that every scanline of a triangle comes down to.

use crate::canvas::Canvas;
use crate::canvas::Color;
use crate::depth::is_nearer;
use crate::depth::DepthBuffer;
use vstd::prelude::*;

verus! {

/// The quotient of `n` by `d`, rounded towards zero.
pub open spec fn trunc_div(n: int, d: int) -> int {
    let num = if d < 0 {
        -n
    } else {
        n
    };
    let den = if d < 0 {
        -d
    } else {
        d
    };
    if num >= 0 {
        num / den
    } else {
        -((-num) / den)
    }
}

/// The value at `t` of the straight line that is `from` at `0` and `to` at
/// `span`, its fractional part cut off: `from + (to - from) * t / span`.
pub open spec fn interpolate(from: int, to: int, t: int, span: int) -> int {
    from + trunc_div((to - from) * t, span)
}

/// Whether `t` lies between `0` and `span`, whichever sign `span` has.
pub open spec fn within_span(t: int, span: int) -> bool {
    (0 <= t <= span) || (span <= t <= 0)
}

/// Whether `v` lies between `a` and `b`, in either order, ends included.
pub open spec fn between(a: int, b: int, v: int) -> bool {
    (a <= v <= b) || (b <= v <= a)
}

/// The smaller of two integers.
pub open spec fn min_of(a: int, b: int) -> int {
    if a <= b {
        a
    } else {
        b
    }
}

/// A quotient of non-negative numbers does not exceed a factor of its
/// numerator when the other factor does not exceed the divisor.
proof fn lemma_scaled_quotient(delta: int, t: int, span: int)
    requires
        0 <= delta,
        0 <= t <= span,
        0 < span,
    ensures
        0 <= delta * t,
        0 <= (delta * t) / span <= delta,
{
    assert(0 <= delta * t <= delta * span) by (nonlinear_arith)
        requires
            0 <= delta,
            0 <= t <= span,
    ;
    vstd::arithmetic::div_mod::lemma_div_is_ordered(delta * t, delta * span, span);
    vstd::arithmetic::div_mod::lemma_div_multiples_vanish(delta, span);
    vstd::arithmetic::div_mod::lemma_div_pos_is_pos(delta * t, span);
    assert(delta * span == span * delta) by (nonlinear_arith);
}

/// An interpolated value lies between the two values it interpolates.
pub proof fn lemma_interpolate_between(from: int, to: int, t: int, span: int)
    requires
        span != 0,
        within_span(t, span),
    ensures
        between(from, to, interpolate(from, to, t, span)),
{
    let delta = to - from;
    let steps = if span < 0 {
        -t
    } else {
        t
    };
    let den = if span < 0 {
        -span
    } else {
        span
    };
    let num = if span < 0 {
        -(delta * t)
    } else {
        delta * t
    };
    assert(num == delta * steps) by (nonlinear_arith)
        requires
            num == if span < 0 {
                -(delta * t)
            } else {
                delta * t
            },
            steps == if span < 0 {
                -t
            } else {
                t
            },
    ;
    if delta >= 0 {
        lemma_scaled_quotient(delta, steps, den);
    } else {
        lemma_scaled_quotient(-delta, steps, den);
        assert(-num == (-delta) * steps) by (nonlinear_arith)
            requires
                num == delta * steps,
        ;
    }
}

/// Equal fractions have equal truncated quotients.
pub proof fn lemma_equal_fractions(n1: int, depths_a: int, n2: int, depths_b: int)
    requires
        depths_a != 0,
        depths_b != 0,
        n1 * depths_b == n2 * depths_a,
    ensures
        trunc_div(n1, depths_a) == trunc_div(n2, depths_b),
{
    let a1 = if depths_a < 0 {
        -n1
    } else {
        n1
    };
    let b1 = if depths_a < 0 {
        -depths_a
    } else {
        depths_a
    };
    let a2 = if depths_b < 0 {
        -n2
    } else {
        n2
    };
    let b2 = if depths_b < 0 {
        -depths_b
    } else {
        depths_b
    };
    assert(a1 * b2 == a2 * b1) by (nonlinear_arith)
        requires
            n1 * depths_b == n2 * depths_a,
            a1 == if depths_a < 0 {
                -n1
            } else {
                n1
            },
            b1 == if depths_a < 0 {
                -depths_a
            } else {
                depths_a
            },
            a2 == if depths_b < 0 {
                -n2
            } else {
                n2
            },
            b2 == if depths_b < 0 {
                -depths_b
            } else {
                depths_b
            },
    ;
    assert((a1 >= 0) == (a2 >= 0) || a1 == 0 || a2 == 0) by (nonlinear_arith)
        requires
            a1 * b2 == a2 * b1,
            b1 > 0,
            b2 > 0,
    ;
    assert(a1 == 0 <==> a2 == 0) by (nonlinear_arith)
        requires
            a1 * b2 == a2 * b1,
            b1 > 0,
            b2 > 0,
    ;
    if a1 >= 0 && a2 >= 0 {
        lemma_equal_positive_fractions(a1, b1, a2, b2);
    } else {
        assert((-a1) * b2 == (-a2) * b1) by (nonlinear_arith)
            requires
                a1 * b2 == a2 * b1,
        ;
        lemma_equal_positive_fractions(-a1, b1, -a2, b2);
    }
}

/// Equal fractions of non-negative numbers have equal quotients.
proof fn lemma_equal_positive_fractions(n1: int, depths_a: int, n2: int, depths_b: int)
    requires
        n1 >= 0,
        n2 >= 0,
        depths_a > 0,
        depths_b > 0,
        n1 * depths_b == n2 * depths_a,
    ensures
        n1 / depths_a == n2 / depths_b,
{
    let q = n1 / depths_a;
    let r = n1 % depths_a;
    vstd::arithmetic::div_mod::lemma_fundamental_div_mod(n1, depths_a);
    assert(0 <= r < depths_a);
    assert(n1 == depths_a * q + r);
    // depths_a * (n2 - depths_b * q) == depths_b * r, and 0 <= depths_b * r < depths_b * depths_a
    let r2 = n2 - depths_b * q;
    assert(depths_a * r2 == depths_b * r) by (nonlinear_arith)
        requires
            n1 * depths_b == n2 * depths_a,
            n1 == depths_a * q + r,
            r2 == n2 - depths_b * q,
    ;
    assert(0 <= r2 < depths_b) by (nonlinear_arith)
        requires
            depths_a * r2 == depths_b * r,
            0 <= r < depths_a,
            depths_a > 0,
            depths_b > 0,
    ;
    assert(n2 == q * depths_b + r2) by (nonlinear_arith)
        requires
            r2 == n2 - depths_b * q,
    ;
    vstd::arithmetic::div_mod::lemma_fundamental_div_mod_converse(n2, depths_b, q, r2);
}

/// Computes `interpolate(from, to, t, span)` for a position `t` between `0`
/// and `span`.
pub fn interpolate_at(from: i32, to: i32, t: i64, span: i64) -> (r: i32)
    requires
        span != 0,
        within_span(t as int, span as int),
        -0x8000_0000 <= span <= 0x8000_0000,
    ensures
        r == interpolate(from as int, to as int, t as int, span as int),
        between(from as int, to as int, r as int),
{
    let delta: i64 = to as i64 - from as i64;
    proof {
        lemma_interpolate_between(from as int, to as int, t as int, span as int);
        assert(-0x8000_0000_0000_0000 < delta * t < 0x8000_0000_0000_0000) by (nonlinear_arith)
            requires
                -0xffff_ffff <= delta <= 0xffff_ffff,
                -0x8000_0000 <= t <= 0x8000_0000,
        ;
    }
    let product: i64 = delta * t;
    let num: i64 = if span < 0 {
        -product
    } else {
        product
    };
    let den: i64 = if span < 0 {
        -span
    } else {
        span
    };
    let quotient: i64 = num / den;
    (from as i64 + quotient) as i32
}

/// The depth of the surface at column `x` of a span that runs from column
/// `xa` at depth `za` to column `xb` at depth `zb`. A span of one column
/// takes the smaller of its two depths.
pub open spec fn span_depth(xa: int, za: int, xb: int, zb: int, x: int) -> int {
    if xa == xb {
        min_of(za, zb)
    } else {
        interpolate(za, zb, x - xa, xb - xa)
    }
}

/// Whether the span of row `y` draws at `pos`: the position lies on the
/// span, left of `limit`, and the surface is nearer there than what
/// `depths` holds.
pub open spec fn span_wins(
    depths: Map<(int, int), int>,
    y: int,
    xa: int,
    za: int,
    xb: int,
    zb: int,
    limit: int,
    pos: (int, int),
) -> bool {
    &&& pos.1 == y
    &&& pos.0 < limit
    &&& between(xa, xb, pos.0)
    &&& is_nearer(depths[pos], span_depth(xa, za, xb, zb, pos.0))
}

/// The depths after the columns left of `limit` of a span were drawn.
pub open spec fn span_depths(
    depths: Map<(int, int), int>,
    y: int,
    xa: int,
    za: int,
    xb: int,
    zb: int,
    limit: int,
) -> Map<(int, int), int> {
    Map::new(
        |pos: (int, int)| depths.dom().contains(pos),
        |pos: (int, int)|
            if span_wins(depths, y, xa, za, xb, zb, limit, pos) {
                span_depth(xa, za, xb, zb, pos.0)
            } else {
                depths[pos]
            },
    )
}

/// The pixels after the columns left of `limit` of a span were drawn in
/// `color` against `depths`.
pub open spec fn span_pixels(
    pixels: Map<(int, int), Color>,
    depths: Map<(int, int), int>,
    y: int,
    xa: int,
    za: int,
    xb: int,
    zb: int,
    limit: int,
    color: Color,
) -> Map<(int, int), Color> {
    Map::new(
        |pos: (int, int)|
            pixels.dom().contains(pos) || span_wins(depths, y, xa, za, xb, zb, limit, pos),
        |pos: (int, int)|
            if span_wins(depths, y, xa, za, xb, zb, limit, pos) {
                color
            } else {
                pixels[pos]
            },
    )
}

/// A limit right of every column: the whole span.
pub open spec fn whole_span(xa: int, xb: int) -> int {
    if xa >= xb {
        xa + 1
    } else {
        xb + 1
    }
}

/// Tests the surface at depth `z` against pixel `(x, y)` and, where it is
/// nearer than what was drawn there before, colours the pixel and records
/// the depth.
pub fn draw_fragment(
    canvas: &mut Canvas,
    zbuffer: &mut DepthBuffer,
    x: i32,
    y: i32,
    z: i32,
    color: Color,
)
    requires
        old(canvas).contains(x as int, y as int),
        old(zbuffer).spec_width() == old(canvas).spec_width(),
        old(zbuffer).spec_height() == old(canvas).spec_height(),
    ensures
        final(canvas).spec_width() == old(canvas).spec_width(),
        final(canvas).spec_height() == old(canvas).spec_height(),
        final(zbuffer).spec_width() == old(zbuffer).spec_width(),
        final(zbuffer).spec_height() == old(zbuffer).spec_height(),
        final(zbuffer).depths() == span_depths(
            old(zbuffer).depths(),
            y as int,
            x as int,
            z as int,
            x as int,
            z as int,
            x + 1,
        ),
        final(canvas).pixels() == span_pixels(
            old(canvas).pixels(),
            old(zbuffer).depths(),
            y as int,
            x as int,
            z as int,
            x as int,
            z as int,
            x + 1,
            color,
        ),
{
    let nearer = zbuffer.raise(x as usize, y as usize, z);
    if nearer {
        canvas.put_pixel(x as u32, y as u32, color);
    }
    proof {
        let depths_before = old(zbuffer).depths();
        let pixels_before = old(canvas).pixels();
        assert(zbuffer.depths() =~= span_depths(
            depths_before,
            y as int,
            x as int,
            z as int,
            x as int,
            z as int,
            x + 1,
        ));
        assert(canvas.pixels() =~= span_pixels(
            pixels_before,
            depths_before,
            y as int,
            x as int,
            z as int,
            x as int,
            z as int,
            x + 1,
            color,
        ));
    }
}

/// Draws one scanline of a surface: the columns of row `y` from `xa`, where
/// the surface has depth `za`, to `xb`, where it has depth `zb`, each
/// depth-tested against `zbuffer`.
pub fn draw_span(
    canvas: &mut Canvas,
    zbuffer: &mut DepthBuffer,
    y: i32,
    xa: i32,
    za: i32,
    xb: i32,
    zb: i32,
    color: Color,
)
    requires
        old(canvas).contains(xa as int, y as int),
        old(canvas).contains(xb as int, y as int),
        old(zbuffer).spec_width() == old(canvas).spec_width(),
        old(zbuffer).spec_height() == old(canvas).spec_height(),
    ensures
        final(canvas).spec_width() == old(canvas).spec_width(),
        final(canvas).spec_height() == old(canvas).spec_height(),
        final(zbuffer).spec_width() == old(zbuffer).spec_width(),
        final(zbuffer).spec_height() == old(zbuffer).spec_height(),
        final(zbuffer).depths() == span_depths(
            old(zbuffer).depths(),
            y as int,
            xa as int,
            za as int,
            xb as int,
            zb as int,
            whole_span(xa as int, xb as int),
        ),
        final(canvas).pixels() == span_pixels(
            old(canvas).pixels(),
            old(zbuffer).depths(),
            y as int,
            xa as int,
            za as int,
            xb as int,
            zb as int,
            whole_span(xa as int, xb as int),
            color,
        ),
{
    let ghost depths_before = zbuffer.depths();
    let ghost pixels_before = canvas.pixels();
    if xa != xb {
        let lo: i64 = if xa < xb {
            xa as i64
        } else {
            xb as i64
        };
        let hi: i64 = if xa < xb {
            xb as i64
        } else {
            xa as i64
        };
        let mut x: i64 = lo;
        proof {
            assert(zbuffer.depths() =~= span_depths(
                depths_before,
                y as int,
                xa as int,
                za as int,
                xb as int,
                zb as int,
                x as int,
            ));
            assert(canvas.pixels() =~= span_pixels(
                pixels_before,
                depths_before,
                y as int,
                xa as int,
                za as int,
                xb as int,
                zb as int,
                x as int,
                color,
            ));
        }
        while x <= hi
            invariant
                xa != xb,
                lo == min_of(xa as int, xb as int),
                hi + 1 == whole_span(xa as int, xb as int),
                lo <= x <= hi + 1,
                canvas.contains(xa as int, y as int),
                canvas.contains(xb as int, y as int),
                canvas.spec_width() == old(canvas).spec_width(),
                canvas.spec_height() == old(canvas).spec_height(),
                zbuffer.spec_width() == canvas.spec_width(),
                zbuffer.spec_height() == canvas.spec_height(),
                zbuffer.depths() == span_depths(
                    depths_before,
                    y as int,
                    xa as int,
                    za as int,
                    xb as int,
                    zb as int,
                    x as int,
                ),
                canvas.pixels() == span_pixels(
                    pixels_before,
                    depths_before,
                    y as int,
                    xa as int,
                    za as int,
                    xb as int,
                    zb as int,
                    x as int,
                    color,
                ),
            decreases hi + 1 - x,
        {
            let ghost depths_a = zbuffer.depths();
            let ghost pixels_a = canvas.pixels();
            let z = interpolate_at(za, zb, x - xa as i64, xb as i64 - xa as i64);
            draw_fragment(canvas, zbuffer, x as i32, y, z, color);
            proof {
                assert(z == span_depth(xa as int, za as int, xb as int, zb as int, x as int));
                assert(zbuffer.depths() =~= span_depths(
                    depths_before,
                    y as int,
                    xa as int,
                    za as int,
                    xb as int,
                    zb as int,
                    x + 1,
                ));
                assert(canvas.pixels() =~= span_pixels(
                    pixels_before,
                    depths_before,
                    y as int,
                    xa as int,
                    za as int,
                    xb as int,
                    zb as int,
                    x + 1,
                    color,
                ));
            }
            x = x + 1;
        }
    } else {
        let z = if za < zb {
            za
        } else {
            zb
        };
        draw_fragment(canvas, zbuffer, xa, y, z, color);
        proof {
            assert(zbuffer.depths() =~= span_depths(
                depths_before,
                y as int,
                xa as int,
                za as int,
                xb as int,
                zb as int,
                whole_span(xa as int, xb as int),
            ));
            assert(canvas.pixels() =~= span_pixels(
                pixels_before,
                depths_before,
                y as int,
                xa as int,
                za as int,
                xb as int,
                zb as int,
                whole_span(xa as int, xb as int),
                color,
            ));
        }
    }
}

} // verus!
