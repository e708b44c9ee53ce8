//! Scan conversion of a line: the pixels from one screen point to another.

use vstd::prelude::*;
use vstd::arithmetic::div_mod::lemma_fundamental_div_mod_converse;
use crate::vector::Vec3;
use crate::vertex::Vertex;

verus! {

/// The colour that every pixel of a line is drawn in: white, as `0xRRGGBB`.
pub const LINE_COLOR_HEX: u32 = 0xFF_FFFF;

/// A pixel of the screen, by column and row.
#[derive(Debug, Clone, Copy, PartialEq, Eq, Structural)]
pub struct Pixel {
    pub x: i32,
    pub y: i32,
}

/// How far a coordinate has come after `k` of `n` equal steps on its way to
/// a point `d` away: `k * d / n`, rounded to the nearest integer, a tie
/// going to the lower one.
pub open spec fn advance(k: int, d: int, n: int) -> int {
    (k * d + (n - 1) / 2) / n
}

/// The coordinate reached after `k` of `n` steps from `from` to `to`.
pub open spec fn toward(from: int, to: int, k: int, n: int) -> int {
    if from < to {
        from + advance(k, to - from, n)
    } else if to < from {
        from - advance(k, from - to, n)
    } else {
        from
    }
}

pub open spec fn distance(a: int, b: int) -> int {
    if a < b {
        b - a
    } else {
        a - b
    }
}

/// The number of steps of the line: the greater of its two extents.
pub open spec fn steps(x0: int, y0: int, x1: int, y1: int) -> int {
    if distance(x0, x1) > distance(y0, y1) {
        distance(x0, x1)
    } else {
        distance(y0, y1)
    }
}

/// The pixel that the line has reached after `k` steps.
pub open spec fn pixel_at(x0: int, y0: int, x1: int, y1: int, k: int) -> Pixel {
    let n = steps(x0, y0, x1, y1);
    Pixel { x: toward(x0, x1, k, n) as i32, y: toward(y0, y1, k, n) as i32 }
}

/// The pixels of the line from `(x0, y0)` to `(x1, y1)`, both ends included,
/// in the order in which the line passes them. Each step moves one pixel
/// along the longer extent of the line, and the other coordinate follows in
/// proportion.
pub open spec fn segment(x0: int, y0: int, x1: int, y1: int) -> Seq<Pixel> {
    Seq::new((steps(x0, y0, x1, y1) + 1) as nat, |k: int| pixel_at(x0, y0, x1, y1, k))
}

/// Whether a line can be drawn between two screen positions: both must be
/// places on the screen (finite, and less than `2^31` pixels from the
/// origin), and they must differ in `x`, for depth is spread along a line in
/// proportion to `x`.
pub open spec fn drawable(start: Vec3, end: Vec3) -> bool {
    &&& start.x.in_pixel_range()
    &&& start.y.in_pixel_range()
    &&& end.x.in_pixel_range()
    &&& end.y.in_pixel_range()
    &&& (start.x.less_than(end.x) || end.x.less_than(start.x))
}

/// The pixels of the line between two vertices, by their transformed
/// positions. The line runs between the pixels nearest to the two
/// positions: each coordinate of an end is rounded to the nearest integer,
/// a tie going away from zero. A line that cannot be drawn has no pixels.
pub open spec fn line_pixels(a: Vertex, b: Vertex) -> Seq<Pixel> {
    let start = a.transformed_position;
    let end = b.transformed_position;
    if drawable(start, end) {
        segment(start.x.rounded(), start.y.rounded(), end.x.rounded(), end.y.rounded())
    } else {
        Seq::empty()
    }
}

proof fn lemma_advance_is(k: int, d: int, n: int, q: int, r: int)
    requires
        n > 0,
        k * d + (n - 1) / 2 == q * n + r,
        0 <= r < n,
    ensures
        advance(k, d, n) == q,
{
    lemma_fundamental_div_mod_converse(k * d + (n - 1) / 2, n, q, r);
}

/// Along the longer extent the line moves one pixel with every step.
proof fn lemma_advance_major(k: int, n: int)
    requires
        n > 0,
    ensures
        advance(k, n, n) == k,
{
    lemma_advance_is(k, n, n, k, (n - 1) / 2);
}

/// A coordinate sets out from its start, arrives at its end, and on the way
/// moves by one pixel at a time or not at all.
pub proof fn lemma_advance_steps(k: int, d: int, n: int)
    requires
        0 < n,
        0 <= d <= n,
        0 <= k < n,
    ensures
        advance(0, d, n) == 0,
        advance(n, d, n) == d,
        0 <= advance(k, d, n) <= advance(k + 1, d, n) <= advance(k, d, n) + 1,
        advance(k + 1, d, n) <= d,
        d == n ==> advance(k + 1, d, n) == advance(k, d, n) + 1,
    decreases n - k,
{
    let half = (n - 1) / 2;
    assert(0 * d == 0) by (nonlinear_arith);
    lemma_advance_is(0, d, n, 0, half);
    assert(n * d == d * n) by (nonlinear_arith);
    lemma_advance_is(n, d, n, d, half);
    let a = k * d + half;
    let q = a / n;
    let r = a % n;
    vstd::arithmetic::div_mod::lemma_fundamental_div_mod(a, n);
    vstd::arithmetic::div_mod::lemma_mod_bound(a, n);
    assert(a == q * n + r) by (nonlinear_arith)
        requires
            a == n * q + r,
    ;
    assert((k + 1) * d == k * d + d) by (nonlinear_arith);
    assert(k * d >= 0) by (nonlinear_arith)
        requires
            k >= 0,
            d >= 0,
    ;
    assert(q >= 0) by (nonlinear_arith)
        requires
            a == q * n + r,
            a >= 0,
            r < n,
            n > 0,
    ;
    if r + d < n {
        lemma_advance_is(k + 1, d, n, q, r + d);
    } else {
        assert((q + 1) * n == q * n + n) by (nonlinear_arith);
        lemma_advance_is(k + 1, d, n, q + 1, r + d - n);
    }
    if d == n {
        lemma_advance_major(k, n);
        lemma_advance_major(k + 1, n);
    }
    if k + 1 < n {
        lemma_advance_steps(k + 1, d, n);
    }
}

/// A line has one pixel more than it has steps. It starts at its first end
/// and stops at its second.
pub proof fn lemma_segment_ends(x0: i32, y0: i32, x1: i32, y1: i32)
    ensures
        segment(x0 as int, y0 as int, x1 as int, y1 as int).len() == steps(
            x0 as int,
            y0 as int,
            x1 as int,
            y1 as int,
        ) + 1,
        segment(x0 as int, y0 as int, x1 as int, y1 as int)[0] == (Pixel { x: x0, y: y0 }),
        segment(x0 as int, y0 as int, x1 as int, y1 as int).last() == (Pixel { x: x1, y: y1 }),
{
    let n = steps(x0 as int, y0 as int, x1 as int, y1 as int);
    if n > 0 {
        lemma_advance_steps(0, distance(x0 as int, x1 as int), n);
        lemma_advance_steps(0, distance(y0 as int, y1 as int), n);
    }
}

/// A line is connected: each of its pixels is a neighbour of the one
/// before, one pixel on along the longer extent of the line and at most one
/// pixel off along the other. No pixel of the line lies beyond its ends.
pub proof fn lemma_segment_is_connected(x0: i32, y0: i32, x1: i32, y1: i32, k: int)
    requires
        0 <= k < steps(x0 as int, y0 as int, x1 as int, y1 as int),
    ensures
        ({
            let line = segment(x0 as int, y0 as int, x1 as int, y1 as int);
            let (dx, dy) = (distance(x0 as int, x1 as int), distance(y0 as int, y1 as int));
            &&& distance(line[k].x as int, line[k + 1].x as int) <= 1
            &&& distance(line[k].y as int, line[k + 1].y as int) <= 1
            &&& dx >= dy ==> distance(line[k].x as int, line[k + 1].x as int) == 1
            &&& dy >= dx ==> distance(line[k].y as int, line[k + 1].y as int) == 1
            &&& distance(x0 as int, line[k + 1].x as int) <= dx
            &&& distance(y0 as int, line[k + 1].y as int) <= dy
        }),
{
    let n = steps(x0 as int, y0 as int, x1 as int, y1 as int);
    lemma_advance_steps(k, distance(x0 as int, x1 as int), n);
    lemma_advance_steps(k, distance(y0 as int, y1 as int), n);
}

/// The state of the walk after `k` steps of `n`, for the coordinate with the
/// shorter extent `minor`: it has moved `c` pixels, and `f` is the error
/// term, counted so that it stays within `0..n`.
spec fn walk(n: int, minor: int, k: int, c: int, f: int) -> bool {
    &&& 0 < n
    &&& 0 <= minor <= n
    &&& 0 <= k <= n
    &&& 0 <= c <= minor
    &&& 0 <= f < n
    &&& f == n / 2 - k * minor + c * n
}

/// In a walk the shorter coordinate is where the closed form puts it.
proof fn lemma_walk_position(n: int, minor: int, k: int, c: int, f: int)
    requires
        walk(n, minor, k, c, f),
    ensures
        c == advance(k, minor, n),
        k == advance(k, n, n),
{
    lemma_advance_is(k, minor, n, c, n - 1 - f);
    lemma_advance_major(k, n);
}

/// One step of a walk: the shorter coordinate moves exactly when the error
/// term is below its extent, and the walk goes on.
proof fn lemma_walk_step(n: int, minor: int, k: int, c: int, f: int)
    requires
        walk(n, minor, k, c, f),
        k < n,
    ensures
        f < minor ==> walk(n, minor, k + 1, c + 1, f - minor + n),
        f >= minor ==> walk(n, minor, k + 1, c, f - minor),
{
    assert((k + 1) * minor == k * minor + minor) by (nonlinear_arith);
    assert((c + 1) * n == c * n + n) by (nonlinear_arith);
    if f < minor {
        assert(c < minor) by (nonlinear_arith)
            requires
                f == n / 2 - k * minor + c * n,
                f < minor,
                0 <= k < n,
                0 <= c,
                0 <= minor,
                n / 2 >= 0,
        ;
    }
}

/// A walk that has made all its steps has arrived.
proof fn lemma_walk_end(n: int, minor: int, c: int, f: int)
    requires
        walk(n, minor, n, c, f),
    ensures
        c == minor,
{
    assert(c == minor) by (nonlinear_arith)
        requires
            f == n / 2 - n * minor + c * n,
            0 <= f < n,
            0 <= n / 2 < n,
    ;
}

/// Walks the line from `(x0, y0)` to `(x1, y1)` with integer steps, keeping
/// an error term that says which coordinate is due to move.
pub fn bresenham(x0: i32, y0: i32, x1: i32, y1: i32) -> (pixels: Vec<Pixel>)
    ensures
        pixels@ == segment(x0 as int, y0 as int, x1 as int, y1 as int),
{
    let xe: i64 = x1 as i64;
    let ye: i64 = y1 as i64;
    let mut x: i64 = x0 as i64;
    let mut y: i64 = y0 as i64;
    let dx: i64 = if x < xe {
        xe - x
    } else {
        x - xe
    };
    let dy: i64 = if y < ye {
        ye - y
    } else {
        y - ye
    };
    let sx: i64 = if x < xe {
        1
    } else {
        -1
    };
    let sy: i64 = if y < ye {
        1
    } else {
        -1
    };
    let mut err: i64 = if dx > dy {
        dx / 2
    } else {
        -(dy / 2)
    };
    let ghost n: int = steps(x0 as int, y0 as int, x1 as int, y1 as int);
    let ghost minor: int = if dx > dy {
        dy as int
    } else {
        dx as int
    };
    let ghost mut k: int = 0;
    let ghost mut xc: int = 0;
    let ghost mut yc: int = 0;
    let mut pixels: Vec<Pixel> = Vec::new();
    pixels.push(Pixel { x: x0, y: y0 });
    proof {
        assert(0 * minor == 0) by (nonlinear_arith);
        assert(0 * n == 0) by (nonlinear_arith);
        if n > 0 {
            lemma_walk_position(n, minor, 0, 0, n / 2);
        }
        assert(pixels@[0] == pixel_at(x0 as int, y0 as int, x1 as int, y1 as int, 0));
    }
    while !(x == xe && y == ye)
        invariant
            xe == x1,
            ye == y1,
            dx == distance(x0 as int, x1 as int),
            dy == distance(y0 as int, y1 as int),
            sx == (if x0 < x1 {
                1int
            } else {
                -1int
            }),
            sy == (if y0 < y1 {
                1int
            } else {
                -1int
            }),
            n == steps(x0 as int, y0 as int, x1 as int, y1 as int),
            n == (if dx > dy {
                dx
            } else {
                dy
            }),
            minor == (if dx > dy {
                dy
            } else {
                dx
            }),
            0 <= k <= n,
            0 <= xc <= dx,
            0 <= yc <= dy,
            x == (if x0 < x1 {
                x0 + xc
            } else {
                x0 - xc
            }),
            y == (if y0 < y1 {
                y0 + yc
            } else {
                y0 - yc
            }),
            n > 0 && dx > dy ==> xc == k && walk(n, minor, k, yc, err as int),
            n > 0 && dx <= dy ==> yc == k && walk(n, minor, k, xc, -err),
            pixels@.len() == k + 1,
            forall|i: int|
                0 <= i <= k ==> pixels@[i] == pixel_at(
                    x0 as int,
                    y0 as int,
                    x1 as int,
                    y1 as int,
                    i,
                ),
        decreases n - k,
    {
        let e2: i64 = err;
        proof {
            if k == n && n > 0 {
                // Every step is made, so both ends are reached and the loop
                // would have stopped.
                if dx > dy {
                    lemma_walk_end(n, minor, yc, err as int);
                } else {
                    lemma_walk_end(n, minor, xc, -err);
                }
                assert(false);
            }
            if dx > dy {
                lemma_walk_step(n, minor, k, yc, err as int);
            } else {
                lemma_walk_step(n, minor, k, xc, -err);
            }
        }
        if e2 > -dx {
            err -= dy;
            x += sx;
            proof {
                xc = xc + 1;
            }
        }
        if e2 < dy {
            err += dx;
            y += sy;
            proof {
                yc = yc + 1;
            }
        }
        proof {
            k = k + 1;
            if dx > dy {
                lemma_walk_position(n, minor, k, yc, err as int);
            } else {
                lemma_walk_position(n, minor, k, xc, -err);
            }
        }
        pixels.push(Pixel { x: x as i32, y: y as i32 });
        proof {
            assert(pixels@[k] == pixel_at(x0 as int, y0 as int, x1 as int, y1 as int, k));
        }
    }
    proof {
        assert(k == n);
        assert(pixels@ =~= segment(x0 as int, y0 as int, x1 as int, y1 as int));
    }
    pixels
}

/// A line that can be drawn starts at the pixel nearest to its first
/// position and stops at the pixel nearest to its second. A position whose
/// fraction is less than a half goes to the pixel of its integer part, any
/// other to the next pixel away from zero.
pub proof fn lemma_line_runs_between_the_nearest_pixels(a: Vertex, b: Vertex)
    requires
        drawable(a.transformed_position, b.transformed_position),
    ensures
        ({
            let (start, end) = (a.transformed_position, b.transformed_position);
            let line = line_pixels(a, b);
            &&& line.len() == steps(
                start.x.rounded(),
                start.y.rounded(),
                end.x.rounded(),
                end.y.rounded(),
            ) + 1
            &&& line[0].x == start.x.rounded()
            &&& line[0].y == start.y.rounded()
            &&& line.last().x == end.x.rounded()
            &&& line.last().y == end.y.rounded()
        }),
{
    let (start, end) = (a.transformed_position, b.transformed_position);
    start.x.lemma_rounded_in_pixel_range();
    start.y.lemma_rounded_in_pixel_range();
    end.x.lemma_rounded_in_pixel_range();
    end.y.lemma_rounded_in_pixel_range();
    lemma_segment_ends(
        start.x.rounded() as i32,
        start.y.rounded() as i32,
        end.x.rounded() as i32,
        end.y.rounded() as i32,
    );
}

/// Scan-converts the line between two transformed vertices.
pub fn line(a: &Vertex, b: &Vertex) -> (pixels: Vec<Pixel>)
    ensures
        pixels@ == line_pixels(*a, *b),
{
    let start = a.transformed_position;
    let end = b.transformed_position;
    let on_screen = start.x.is_in_pixel_range() && start.y.is_in_pixel_range()
        && end.x.is_in_pixel_range() && end.y.is_in_pixel_range();
    if on_screen && (start.x.lt(&end.x) || end.x.lt(&start.x)) {
        proof {
            start.x.lemma_rounded_in_pixel_range();
            start.y.lemma_rounded_in_pixel_range();
            end.x.lemma_rounded_in_pixel_range();
            end.y.lemma_rounded_in_pixel_range();
        }
        bresenham(
            start.x.round_to_i32(),
            start.y.round_to_i32(),
            end.x.round_to_i32(),
            end.y.round_to_i32(),
        )
    } else {
        Vec::new()
    }
}

} // verus!
