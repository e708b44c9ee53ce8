//! Scan conversion of a triangle: which pixels it covers, and with what
//! barycentric weights.
//!
//! The three screen positions are snapped down to a grid of `2^24` steps per
//! pixel. From there on everything is integer arithmetic, and exact.

use vstd::prelude::*;
use crate::color::Color;
use crate::scalar::{Scalar, ZERO_BITS};
use crate::vector::Vec3;
use crate::vertex::Vertex;

verus! {

/// The light that reaches a surface, by how far its normal faces the light:
/// that much where the normal faces the light at all, and none where it
/// faces away or is no direction.
pub open spec fn intensity_of(facing: Scalar) -> Scalar {
    if (Scalar { bits: ZERO_BITS }).less_than(facing) {
        facing
    } else {
        Scalar { bits: ZERO_BITS }
    }
}

/// The colour of a lit surface: a grey of 100 in every channel, scaled by
/// the intensity of the light.
pub open spec fn lit(intensity: Scalar) -> Color {
    (Color { r: 100, g: 100, b: 100 }).scaled(intensity)
}

/// The intensity of the light on a surface whose unit normal has the given
/// component toward the light.
pub fn intensity(facing: Scalar) -> (light: Scalar)
    ensures
        light == intensity_of(facing),
{
    if facing.gt(&Scalar::from_bits(ZERO_BITS)) {
        facing
    } else {
        Scalar::from_bits(ZERO_BITS)
    }
}

/// The colour that a triangle shows under light of the given intensity.
pub fn lit_color(intensity: Scalar) -> (c: Color)
    ensures
        c == lit(intensity),
{
    Color::new(100, 100, 100) * intensity
}

/// The grid has `2^SUBPIXEL_BITS` steps per pixel.
pub const SUBPIXEL_BITS: u8 = 24;

/// The steps of the grid per pixel.
pub const SUBPIXEL: i64 = 0x100_0000;

/// The steps from the edge of a pixel to its centre.
pub const HALF_PIXEL: i64 = 0x80_0000;

/// The grid ends `2^31` pixels from the origin, on either side.
pub const GRID_LIMIT: i64 = 0x80_0000_0000_0000;

/// A point of the grid.
#[derive(Debug, Clone, Copy, PartialEq, Eq, Structural)]
pub struct Corner {
    pub x: i64,
    pub y: i64,
}

/// A covered pixel with its barycentric weights.
///
/// The weights are numerators over a common denominator, which is their
/// sum: the weight of the first vertex is `w1 / (w1 + w2 + w3)`. The sum is
/// the area of the triangle as the edge function measures it, and all
/// three numerators have its sign.
#[derive(Debug, Clone, Copy, PartialEq, Eq, Structural)]
pub struct Sample {
    pub x: i32,
    pub y: i32,
    pub w1: i128,
    pub w2: i128,
    pub w3: i128,
}

/// A triangle of the grid.
#[derive(Debug, Clone, Copy, PartialEq, Eq, Structural)]
pub struct Snapped {
    pub a: Corner,
    pub b: Corner,
    pub c: Corner,
}

/// The edge function: twice the signed area of the triangle `a`, `b`, `p`.
/// Its sign says on which side of the line from `a` to `b` the point `p`
/// lies, and it is zero on the line.
pub open spec fn edge(ax: int, ay: int, bx: int, by: int, px: int, py: int) -> int {
    (px - ax) * (by - ay) - (py - ay) * (bx - ax)
}

/// Whether the weight with numerator `w` and denominator `area` lies in
/// `0..=1`. A zero area admits no weight.
pub open spec fn is_weight(w: int, area: int) -> bool {
    (area > 0 && 0 <= w <= area) || (area < 0 && area <= w <= 0)
}

/// The centre of a pixel, on the grid.
pub open spec fn center(pixel: int) -> int {
    pixel * SUBPIXEL + HALF_PIXEL
}

/// The pixel whose left (lower) edge is at or just below a grid coordinate.
pub open spec fn pixel_floor(q: int) -> int {
    q / (SUBPIXEL as int)
}

/// The first pixel edge at or above a grid coordinate.
pub open spec fn pixel_ceil(q: int) -> int {
    -((-q) / (SUBPIXEL as int))
}

pub open spec fn min3(a: int, b: int, c: int) -> int {
    if a <= b && a <= c {
        a
    } else if b <= c {
        b
    } else {
        c
    }
}

pub open spec fn max3(a: int, b: int, c: int) -> int {
    if a >= b && a >= c {
        a
    } else if b >= c {
        b
    } else {
        c
    }
}

pub open spec fn on_grid(q: int) -> bool {
    -GRID_LIMIT <= q < GRID_LIMIT
}

impl Corner {
    pub open spec fn on_grid(self) -> bool {
        on_grid(self.x as int) && on_grid(self.y as int)
    }
}

impl Snapped {
    pub open spec fn on_grid(self) -> bool {
        self.a.on_grid() && self.b.on_grid() && self.c.on_grid()
    }

    /// The area as the edge function measures it: twice the signed area.
    pub open spec fn area(self) -> int {
        edge(
            self.a.x as int,
            self.a.y as int,
            self.b.x as int,
            self.b.y as int,
            self.c.x as int,
            self.c.y as int,
        )
    }

    /// The weight numerator of vertex `a` at the centre of pixel `(x, y)`.
    pub open spec fn w1(self, x: int, y: int) -> int {
        edge(
            self.b.x as int,
            self.b.y as int,
            self.c.x as int,
            self.c.y as int,
            center(x),
            center(y),
        )
    }

    /// The weight numerator of vertex `b` at the centre of pixel `(x, y)`.
    pub open spec fn w2(self, x: int, y: int) -> int {
        edge(
            self.c.x as int,
            self.c.y as int,
            self.a.x as int,
            self.a.y as int,
            center(x),
            center(y),
        )
    }

    /// The weight numerator of vertex `c` at the centre of pixel `(x, y)`.
    pub open spec fn w3(self, x: int, y: int) -> int {
        edge(
            self.a.x as int,
            self.a.y as int,
            self.b.x as int,
            self.b.y as int,
            center(x),
            center(y),
        )
    }

    /// Whether the triangle covers the pixel `(x, y)`: all three weights at
    /// the centre of the pixel lie in `0..=1`. That is so exactly when the
    /// triangle has an area and the centre is inside it or on its border.
    pub open spec fn covers(self, x: int, y: int) -> bool {
        &&& is_weight(self.w1(x, y), self.area())
        &&& is_weight(self.w2(x, y), self.area())
        &&& is_weight(self.w3(x, y), self.area())
    }

    pub open spec fn sample_at(self, x: int, y: int) -> Sample {
        Sample {
            x: x as i32,
            y: y as i32,
            w1: self.w1(x, y) as i128,
            w2: self.w2(x, y) as i128,
            w3: self.w3(x, y) as i128,
        }
    }

    /// The first column of the bounding box.
    pub open spec fn min_x(self) -> int {
        pixel_floor(min3(self.a.x as int, self.b.x as int, self.c.x as int))
    }

    /// The last column of the bounding box.
    pub open spec fn max_x(self) -> int {
        pixel_ceil(max3(self.a.x as int, self.b.x as int, self.c.x as int))
    }

    /// The first row of the bounding box.
    pub open spec fn min_y(self) -> int {
        pixel_floor(min3(self.a.y as int, self.b.y as int, self.c.y as int))
    }

    /// The last row of the bounding box.
    pub open spec fn max_y(self) -> int {
        pixel_ceil(max3(self.a.y as int, self.b.y as int, self.c.y as int))
    }

    /// The samples of row `y` in the columns from `from` up to but not
    /// including `to`, from left to right.
    pub open spec fn span(self, y: int, from: int, to: int) -> Seq<Sample>
        decreases to - from,
    {
        if from >= to {
            Seq::empty()
        } else if self.covers(to - 1, y) {
            self.span(y, from, to - 1).push(self.sample_at(to - 1, y))
        } else {
            self.span(y, from, to - 1)
        }
    }

    /// The samples of the rows from `from` up to but not including `to`,
    /// within the columns of the bounding box, row after row.
    pub open spec fn rows(self, from: int, to: int) -> Seq<Sample>
        decreases to - from,
    {
        if from >= to {
            Seq::empty()
        } else {
            self.rows(from, to - 1) + self.span(to - 1, self.min_x(), self.max_x() + 1)
        }
    }

    /// The samples of the triangle: one for each covered pixel of the
    /// bounding box, row after row and from left to right within a row.
    pub open spec fn samples(self) -> Seq<Sample> {
        self.rows(self.min_y(), self.max_y() + 1)
    }
}

/// The grid point at or just below and left of a screen position, if the
/// position has one.
pub open spec fn snapped(p: Vec3) -> Option<Corner> {
    if p.x.in_pixel_range() && p.y.in_pixel_range() {
        Some(
            Corner {
                x: p.x.floor_scaled(SUBPIXEL_BITS as int) as i64,
                y: p.y.floor_scaled(SUBPIXEL_BITS as int) as i64,
            },
        )
    } else {
        None
    }
}

/// The samples of the triangle between three vertices, by their transformed
/// positions. A triangle with a corner that cannot be a place on the screen
/// (it is not finite, or `2^31` pixels or more from the origin) has no
/// samples, and neither has one without area.
pub open spec fn triangle_samples(v1: Vertex, v2: Vertex, v3: Vertex) -> Seq<Sample> {
    match snapped_triangle(v1, v2, v3) {
        Some(t) => t.samples(),
        None => Seq::empty(),
    }
}

/// The triangle of the grid between three vertices, by their transformed
/// positions, if all three can be places on the screen.
pub open spec fn snapped_triangle(v1: Vertex, v2: Vertex, v3: Vertex) -> Option<Snapped> {
    match (
        snapped(v1.transformed_position),
        snapped(v2.transformed_position),
        snapped(v3.transformed_position),
    ) {
        (Some(a), Some(b), Some(c)) => Some(Snapped { a, b, c }),
        _ => None,
    }
}

/// The weights of a triangle with one corner at the origin, the others at
/// `u` and `v`, for the point `q`: they add up to the area, and the two that
/// belong to `u` and `v` rebuild `q`.
proof fn lemma_weights_from_origin(ux: int, uy: int, vx: int, vy: int, qx: int, qy: int)
    ensures
        edge(ux, uy, vx, vy, qx, qy) + edge(vx, vy, 0, 0, qx, qy) + edge(0, 0, ux, uy, qx, qy)
            == edge(0, 0, ux, uy, vx, vy),
        edge(vx, vy, 0, 0, qx, qy) * ux + edge(0, 0, ux, uy, qx, qy) * vx == edge(
            0,
            0,
            ux,
            uy,
            vx,
            vy,
        ) * qx,
        edge(vx, vy, 0, 0, qx, qy) * uy + edge(0, 0, ux, uy, qx, qy) * vy == edge(
            0,
            0,
            ux,
            uy,
            vx,
            vy,
        ) * qy,
{
    let w1 = edge(ux, uy, vx, vy, qx, qy);
    let w2 = edge(vx, vy, 0, 0, qx, qy);
    let w3 = edge(0, 0, ux, uy, qx, qy);
    let area = edge(0, 0, ux, uy, vx, vy);
    assert(w3 == qx * uy - qy * ux);
    assert(area == vx * uy - vy * ux);
    assert(w2 == qy * vx - qx * vy) by (nonlinear_arith)
        requires
            w2 == (qx - vx) * (0 - vy) - (qy - vy) * (0 - vx),
    ;
    assert(w1 == qx * vy - qx * uy - ux * vy - qy * vx + qy * ux + uy * vx) by (nonlinear_arith)
        requires
            w1 == (qx - ux) * (vy - uy) - (qy - uy) * (vx - ux),
    ;
    assert(w1 + w2 + w3 == area) by (nonlinear_arith)
        requires
            w1 == qx * vy - qx * uy - ux * vy - qy * vx + qy * ux + uy * vx,
            w2 == qy * vx - qx * vy,
            w3 == qx * uy - qy * ux,
            area == vx * uy - vy * ux,
    ;
    assert(w2 * ux + w3 * vx == area * qx) by (nonlinear_arith)
        requires
            w2 == qy * vx - qx * vy,
            w3 == qx * uy - qy * ux,
            area == vx * uy - vy * ux,
    ;
    assert(w2 * uy + w3 * vy == area * qy) by (nonlinear_arith)
        requires
            w2 == qy * vx - qx * vy,
            w3 == qx * uy - qy * ux,
            area == vx * uy - vy * ux,
    ;
}

/// Moving all three points by the same amount leaves the edge function as
/// it is.
proof fn lemma_edge_translates(
    ax: int,
    ay: int,
    bx: int,
    by: int,
    px: int,
    py: int,
    tx: int,
    ty: int,
)
    ensures
        edge(ax - tx, ay - ty, bx - tx, by - ty, px - tx, py - ty) == edge(ax, ay, bx, by, px, py),
{
    assert((px - tx) - (ax - tx) == px - ax);
    assert((by - ty) - (ay - ty) == by - ay);
    assert((py - ty) - (ay - ty) == py - ay);
    assert((bx - tx) - (ax - tx) == bx - ax);
}

/// The three weight numerators at any point `p` add up to the area, and
/// they place `p` between the corners: measured from any origin `t`,
/// `w1 * a + w2 * b + w3 * c == area * p`.
pub proof fn lemma_barycentric(
    ax: int,
    ay: int,
    bx: int,
    by: int,
    cx: int,
    cy: int,
    px: int,
    py: int,
    tx: int,
    ty: int,
)
    ensures
        edge(bx, by, cx, cy, px, py) + edge(cx, cy, ax, ay, px, py) + edge(ax, ay, bx, by, px, py)
            == edge(ax, ay, bx, by, cx, cy),
        edge(bx, by, cx, cy, px, py) * (ax - tx) + edge(cx, cy, ax, ay, px, py) * (bx - tx) + edge(
            ax,
            ay,
            bx,
            by,
            px,
            py,
        ) * (cx - tx) == edge(ax, ay, bx, by, cx, cy) * (px - tx),
        edge(bx, by, cx, cy, px, py) * (ay - ty) + edge(cx, cy, ax, ay, px, py) * (by - ty) + edge(
            ax,
            ay,
            bx,
            by,
            px,
            py,
        ) * (cy - ty) == edge(ax, ay, bx, by, cx, cy) * (py - ty),
{
    let w1 = edge(bx, by, cx, cy, px, py);
    let w2 = edge(cx, cy, ax, ay, px, py);
    let w3 = edge(ax, ay, bx, by, px, py);
    let area = edge(ax, ay, bx, by, cx, cy);
    let (ux, uy) = (bx - ax, by - ay);
    let (vx, vy) = (cx - ax, cy - ay);
    let (qx, qy) = (px - ax, py - ay);
    lemma_edge_translates(bx, by, cx, cy, px, py, ax, ay);
    lemma_edge_translates(cx, cy, ax, ay, px, py, ax, ay);
    lemma_edge_translates(ax, ay, bx, by, px, py, ax, ay);
    lemma_edge_translates(ax, ay, bx, by, cx, cy, ax, ay);
    lemma_weights_from_origin(ux, uy, vx, vy, qx, qy);
    assert(w1 == edge(ux, uy, vx, vy, qx, qy));
    assert(w2 == edge(vx, vy, 0, 0, qx, qy));
    assert(w3 == edge(0, 0, ux, uy, qx, qy));
    assert(area == edge(0, 0, ux, uy, vx, vy));
    lemma_mean_from_elsewhere(
        w1,
        w2,
        w3,
        area,
        ux,
        vx,
        qx,
        ax - tx,
        bx - tx,
        cx - tx,
        px - tx,
    );
    lemma_mean_from_elsewhere(
        w1,
        w2,
        w3,
        area,
        uy,
        vy,
        qy,
        ay - ty,
        by - ty,
        cy - ty,
        py - ty,
    );
}

/// A weighted mean taken from the first of three points holds from any
/// other origin too, where the weights add up to their denominator.
proof fn lemma_mean_from_elsewhere(
    w1: int,
    w2: int,
    w3: int,
    area: int,
    u: int,
    v: int,
    q: int,
    sa: int,
    sb: int,
    sc: int,
    sp: int,
)
    requires
        w1 + w2 + w3 == area,
        w2 * u + w3 * v == area * q,
        sb == sa + u,
        sc == sa + v,
        sp == sa + q,
    ensures
        w1 * sa + w2 * sb + w3 * sc == area * sp,
{
    assert(w2 * sb == w2 * sa + w2 * u) by (nonlinear_arith)
        requires
            sb == sa + u,
    ;
    assert(w3 * sc == w3 * sa + w3 * v) by (nonlinear_arith)
        requires
            sc == sa + v,
    ;
    assert(area * sp == area * sa + area * q) by (nonlinear_arith)
        requires
            sp == sa + q,
    ;
    assert(area * sa == w1 * sa + w2 * sa + w3 * sa) by (nonlinear_arith)
        requires
            w1 + w2 + w3 == area,
    ;
}

/// A mean with weights of one sign lies on the side of zero on which all
/// that it averages lie.
proof fn lemma_mean_keeps_side(
    w1: int,
    w2: int,
    w3: int,
    d1: int,
    d2: int,
    d3: int,
    area: int,
    d: int,
)
    requires
        w1 * d1 + w2 * d2 + w3 * d3 == area * d,
        is_weight(w1, area),
        is_weight(w2, area),
        is_weight(w3, area),
    ensures
        d1 >= 0 && d2 >= 0 && d3 >= 0 ==> d >= 0,
        d1 <= 0 && d2 <= 0 && d3 <= 0 ==> d <= 0,
{
    if d1 >= 0 && d2 >= 0 && d3 >= 0 {
        if area > 0 {
            assert(w1 * d1 >= 0 && w2 * d2 >= 0 && w3 * d3 >= 0) by (nonlinear_arith)
                requires
                    w1 >= 0 && w2 >= 0 && w3 >= 0,
                    d1 >= 0 && d2 >= 0 && d3 >= 0,
            ;
            assert(d >= 0) by (nonlinear_arith)
                requires
                    area * d >= 0,
                    area > 0,
            ;
        } else {
            assert(w1 * d1 <= 0 && w2 * d2 <= 0 && w3 * d3 <= 0) by (nonlinear_arith)
                requires
                    w1 <= 0 && w2 <= 0 && w3 <= 0,
                    d1 >= 0 && d2 >= 0 && d3 >= 0,
            ;
            assert(d >= 0) by (nonlinear_arith)
                requires
                    area * d <= 0,
                    area < 0,
            ;
        }
    }
    if d1 <= 0 && d2 <= 0 && d3 <= 0 {
        if area > 0 {
            assert(w1 * d1 <= 0 && w2 * d2 <= 0 && w3 * d3 <= 0) by (nonlinear_arith)
                requires
                    w1 >= 0 && w2 >= 0 && w3 >= 0,
                    d1 <= 0 && d2 <= 0 && d3 <= 0,
            ;
            assert(d <= 0) by (nonlinear_arith)
                requires
                    area * d <= 0,
                    area > 0,
            ;
        } else {
            assert(w1 * d1 >= 0 && w2 * d2 >= 0 && w3 * d3 >= 0) by (nonlinear_arith)
                requires
                    w1 <= 0 && w2 <= 0 && w3 <= 0,
                    d1 <= 0 && d2 <= 0 && d3 <= 0,
            ;
            assert(d <= 0) by (nonlinear_arith)
                requires
                    area * d >= 0,
                    area < 0,
            ;
        }
    }
}

/// The centre of a covered pixel lies between the corners of the triangle,
/// in either coordinate.
pub proof fn lemma_covered_lies_between_corners(t: Snapped, x: int, y: int)
    requires
        t.covers(x, y),
    ensures
        min3(t.a.x as int, t.b.x as int, t.c.x as int) <= center(x) <= max3(
            t.a.x as int,
            t.b.x as int,
            t.c.x as int,
        ),
        min3(t.a.y as int, t.b.y as int, t.c.y as int) <= center(y) <= max3(
            t.a.y as int,
            t.b.y as int,
            t.c.y as int,
        ),
{
    let (ax, ay) = (t.a.x as int, t.a.y as int);
    let (bx, by) = (t.b.x as int, t.b.y as int);
    let (cx, cy) = (t.c.x as int, t.c.y as int);
    let (px, py) = (center(x), center(y));
    let (lx, ly) = (min3(ax, bx, cx), min3(ay, by, cy));
    let (hx, hy) = (max3(ax, bx, cx), max3(ay, by, cy));
    let (w1, w2, w3) = (t.w1(x, y), t.w2(x, y), t.w3(x, y));
    lemma_barycentric(ax, ay, bx, by, cx, cy, px, py, lx, ly);
    lemma_mean_keeps_side(w1, w2, w3, ax - lx, bx - lx, cx - lx, t.area(), px - lx);
    lemma_mean_keeps_side(w1, w2, w3, ay - ly, by - ly, cy - ly, t.area(), py - ly);
    lemma_barycentric(ax, ay, bx, by, cx, cy, px, py, hx, hy);
    lemma_mean_keeps_side(w1, w2, w3, ax - hx, bx - hx, cx - hx, t.area(), px - hx);
    lemma_mean_keeps_side(w1, w2, w3, ay - hy, by - hy, cy - hy, t.area(), py - hy);
}

/// A covered pixel lies in the bounding box.
pub proof fn lemma_covered_lies_in_box(t: Snapped, x: int, y: int)
    requires
        t.covers(x, y),
    ensures
        t.min_x() <= x < t.max_x(),
        t.min_y() <= y < t.max_y(),
{
    lemma_covered_lies_between_corners(t, x, y);
}

/// Every sample of a span is the sample of a covered pixel of the span.
proof fn lemma_span_sound(t: Snapped, y: int, from: int, to: int, i: int) -> (x: int)
    requires
        0 <= i < t.span(y, from, to).len(),
    ensures
        from <= x < to,
        t.covers(x, y),
        t.span(y, from, to)[i] == t.sample_at(x, y),
    decreases to - from,
{
    if t.covers(to - 1, y) && i == t.span(y, from, to - 1).len() {
        to - 1
    } else {
        lemma_span_sound(t, y, from, to - 1, i)
    }
}

/// Every covered pixel of a span has its sample in the span.
proof fn lemma_span_complete(t: Snapped, y: int, from: int, to: int, x: int) -> (i: int)
    requires
        from <= x < to,
        t.covers(x, y),
    ensures
        0 <= i < t.span(y, from, to).len(),
        t.span(y, from, to)[i] == t.sample_at(x, y),
    decreases to - from,
{
    if x == to - 1 {
        t.span(y, from, to - 1).len() as int
    } else {
        lemma_span_complete(t, y, from, to - 1, x)
    }
}

/// Every sample of some rows is the sample of a covered pixel of the rows.
proof fn lemma_rows_sound(t: Snapped, from: int, to: int, i: int) -> (at: (int, int))
    requires
        0 <= i < t.rows(from, to).len(),
    ensures
        t.min_x() <= at.0 <= t.max_x(),
        from <= at.1 < to,
        t.covers(at.0, at.1),
        t.rows(from, to)[i] == t.sample_at(at.0, at.1),
    decreases to - from,
{
    let above = t.rows(from, to - 1);
    if i < above.len() {
        lemma_rows_sound(t, from, to - 1, i)
    } else {
        let x = lemma_span_sound(t, to - 1, t.min_x(), t.max_x() + 1, i - above.len());
        (x, to - 1)
    }
}

/// Every covered pixel of some rows, within the columns of the bounding
/// box, has its sample in the rows.
proof fn lemma_rows_complete(t: Snapped, from: int, to: int, x: int, y: int) -> (i: int)
    requires
        t.min_x() <= x <= t.max_x(),
        from <= y < to,
        t.covers(x, y),
    ensures
        0 <= i < t.rows(from, to).len(),
        t.rows(from, to)[i] == t.sample_at(x, y),
    decreases to - from,
{
    let above = t.rows(from, to - 1);
    if y == to - 1 {
        let j = lemma_span_complete(t, y, t.min_x(), t.max_x() + 1, x);
        above.len() + j
    } else {
        lemma_rows_complete(t, from, to - 1, x, y)
    }
}

/// The samples of a triangle are its covered pixels: there is a sample at a
/// pixel exactly when the triangle covers the pixel, wherever on the screen
/// the pixel is.
pub proof fn lemma_samples_are_the_covered_pixels(t: Snapped, x: int, y: int)
    requires
        t.on_grid(),
    ensures
        t.covers(x, y) <==> exists|i: int|
            0 <= i < t.samples().len() && (#[trigger] t.samples()[i]).x == x && t.samples()[i].y
                == y,
{
    if t.covers(x, y) {
        lemma_covered_lies_in_box(t, x, y);
        let i = lemma_rows_complete(t, t.min_y(), t.max_y() + 1, x, y);
        assert(t.samples()[i].x == x && t.samples()[i].y == y);
    }
    if exists|i: int|
        0 <= i < t.samples().len() && (#[trigger] t.samples()[i]).x == x && t.samples()[i].y == y {
        let i = choose|i: int|
            0 <= i < t.samples().len() && (#[trigger] t.samples()[i]).x == x && t.samples()[i].y
                == y;
        let at = lemma_rows_sound(t, t.min_y(), t.max_y() + 1, i);
        lemma_covered_lies_in_box(t, at.0, at.1);
    }
}

/// Every sample carries the weights of its pixel. They add up to the area
/// of the triangle, which is not zero, and each is a share of it between
/// nothing and all: as fractions of the area they lie in `0..=1` and add up
/// to one.
pub proof fn lemma_sample_weights(t: Snapped, i: int)
    requires
        t.on_grid(),
        0 <= i < t.samples().len(),
    ensures
        ({
            let s = t.samples()[i];
            &&& t.covers(s.x as int, s.y as int)
            &&& s.w1 == t.w1(s.x as int, s.y as int)
            &&& s.w2 == t.w2(s.x as int, s.y as int)
            &&& s.w3 == t.w3(s.x as int, s.y as int)
            &&& s.w1 + s.w2 + s.w3 == t.area()
            &&& t.area() != 0
            &&& is_weight(s.w1 as int, t.area())
            &&& is_weight(s.w2 as int, t.area())
            &&& is_weight(s.w3 as int, t.area())
        }),
{
    let at = lemma_rows_sound(t, t.min_y(), t.max_y() + 1, i);
    let (x, y) = at;
    lemma_covered_lies_in_box(t, x, y);
    let (ax, ay) = (t.a.x as int, t.a.y as int);
    let (bx, by) = (t.b.x as int, t.b.y as int);
    let (cx, cy) = (t.c.x as int, t.c.y as int);
    lemma_edge_is_bounded(bx, by, cx, cy, center(x), center(y));
    lemma_edge_is_bounded(cx, cy, ax, ay, center(x), center(y));
    lemma_edge_is_bounded(ax, ay, bx, by, center(x), center(y));
    let s = t.samples()[i];
    assert(s == t.sample_at(x, y));
    assert(s.x == x && s.y == y);
    assert(s.w1 == t.w1(x, y));
    assert(s.w2 == t.w2(x, y));
    assert(s.w3 == t.w3(x, y));
    lemma_barycentric(
        t.a.x as int,
        t.a.y as int,
        t.b.x as int,
        t.b.y as int,
        t.c.x as int,
        t.c.y as int,
        center(x),
        center(y),
        0,
        0,
    );
}

/// For a triangle with an area, a pixel is covered exactly when none of
/// its three weights is negative: as they add up to one, none can then be
/// more than one. Which way round the corners are named makes no
/// difference to what is covered.
pub proof fn lemma_covered_means_no_negative_weight(t: Snapped, x: int, y: int)
    ensures
        t.covers(x, y) <==> (t.area() > 0 && t.w1(x, y) >= 0 && t.w2(x, y) >= 0 && t.w3(x, y) >= 0)
            || (t.area() < 0 && t.w1(x, y) <= 0 && t.w2(x, y) <= 0 && t.w3(x, y) <= 0),
        t.covers(x, y) <==> (Snapped { a: t.a, b: t.c, c: t.b }).covers(x, y),
{
    let (ax, ay) = (t.a.x as int, t.a.y as int);
    let (bx, by) = (t.b.x as int, t.b.y as int);
    let (cx, cy) = (t.c.x as int, t.c.y as int);
    let (px, py) = (center(x), center(y));
    lemma_barycentric(ax, ay, bx, by, cx, cy, px, py, 0, 0);
    let turned = Snapped { a: t.a, b: t.c, c: t.b };
    lemma_barycentric(ax, ay, cx, cy, bx, by, px, py, 0, 0);
    lemma_edge_turns(ax, ay, bx, by, cx, cy);
    lemma_edge_turns(bx, by, cx, cy, px, py);
    lemma_edge_turns(cx, cy, ax, ay, px, py);
    lemma_edge_turns(ax, ay, bx, by, px, py);
    assert(turned.area() == -t.area());
    assert(turned.w1(x, y) == -t.w1(x, y));
    assert(turned.w2(x, y) == -t.w3(x, y));
    assert(turned.w3(x, y) == -t.w2(x, y));
}

/// Swapping the two ends of the line changes the sign of the edge function.
proof fn lemma_edge_turns(ax: int, ay: int, bx: int, by: int, px: int, py: int)
    ensures
        edge(bx, by, ax, ay, px, py) == -edge(ax, ay, bx, by, px, py),
{
    let (ux, uy) = (bx - ax, by - ay);
    let (qx, qy) = (px - ax, py - ay);
    assert(edge(ax, ay, bx, by, px, py) == qx * uy - qy * ux);
    assert(edge(bx, by, ax, ay, px, py) == (qx - ux) * (0 - uy) - (qy - uy) * (0 - ux));
    assert((qx - ux) * (0 - uy) - (qy - uy) * (0 - ux) == -(qx * uy - qy * ux))
        by (nonlinear_arith);
}

/// The samples come row after row, and from left to right within a row: no
/// pixel has two of them.
pub proof fn lemma_samples_are_in_order(t: Snapped, i: int, j: int)
    requires
        t.on_grid(),
        0 <= i < j < t.samples().len(),
    ensures
        t.samples()[i].y < t.samples()[j].y || (t.samples()[i].y == t.samples()[j].y
            && t.samples()[i].x < t.samples()[j].x),
{
    lemma_rows_in_order(t, t.min_y(), t.max_y() + 1, i, j);
}

proof fn lemma_span_in_order(t: Snapped, y: int, from: int, to: int, i: int, j: int)
    requires
        t.on_grid(),
        -0x8000_0000 <= from,
        to <= t.max_x() + 1,
        -0x8000_0000 <= y < 0x8000_0000,
        0 <= i < j < t.span(y, from, to).len(),
    ensures
        t.span(y, from, to)[i].y == y,
        t.span(y, from, to)[j].y == y,
        t.span(y, from, to)[i].x < t.span(y, from, to)[j].x,
    decreases to - from,
{
    let shorter = t.span(y, from, to - 1);
    if t.covers(to - 1, y) && j == shorter.len() {
        let x = lemma_span_sound(t, y, from, to - 1, i);
        lemma_covered_lies_in_box(t, x, y);
        lemma_covered_lies_in_box(t, to - 1, y);
    } else {
        lemma_span_in_order(t, y, from, to - 1, i, j);
    }
}

proof fn lemma_rows_in_order(t: Snapped, from: int, to: int, i: int, j: int)
    requires
        t.on_grid(),
        0 <= i < j < t.rows(from, to).len(),
    ensures
        t.rows(from, to)[i].y < t.rows(from, to)[j].y || (t.rows(from, to)[i].y == t.rows(
            from,
            to,
        )[j].y && t.rows(from, to)[i].x < t.rows(from, to)[j].x),
    decreases to - from,
{
    let above = t.rows(from, to - 1);
    if j < above.len() {
        lemma_rows_in_order(t, from, to - 1, i, j);
    } else {
        let last = t.span(to - 1, t.min_x(), t.max_x() + 1);
        let xj = lemma_span_sound(t, to - 1, t.min_x(), t.max_x() + 1, j - above.len());
        lemma_covered_lies_in_box(t, xj, to - 1);
        if i < above.len() {
            let at = lemma_rows_sound(t, from, to - 1, i);
            lemma_covered_lies_in_box(t, at.0, at.1);
        } else {
            lemma_span_in_order(
                t,
                to - 1,
                t.min_x(),
                t.max_x() + 1,
                i - above.len(),
                j - above.len(),
            );
        }
    }
}

/// The edge function stays within 128 bits for points that are within
/// `2^56` grid steps of the origin.
proof fn lemma_edge_is_bounded(ax: int, ay: int, bx: int, by: int, px: int, py: int)
    requires
        -0x100_0000_0000_0000 <= ax <= 0x100_0000_0000_0000,
        -0x100_0000_0000_0000 <= ay <= 0x100_0000_0000_0000,
        -0x100_0000_0000_0000 <= bx <= 0x100_0000_0000_0000,
        -0x100_0000_0000_0000 <= by <= 0x100_0000_0000_0000,
        -0x100_0000_0000_0000 <= px <= 0x100_0000_0000_0000,
        -0x100_0000_0000_0000 <= py <= 0x100_0000_0000_0000,
    ensures
        -0x4_0000_0000_0000_0000_0000_0000_0000 <= (px - ax) * (by - ay)
            <= 0x4_0000_0000_0000_0000_0000_0000_0000,
        -0x4_0000_0000_0000_0000_0000_0000_0000 <= (py - ay) * (bx - ax)
            <= 0x4_0000_0000_0000_0000_0000_0000_0000,
{
    lemma_product_is_bounded(px - ax, by - ay, 0x200_0000_0000_0000);
    lemma_product_is_bounded(py - ay, bx - ax, 0x200_0000_0000_0000);
}

proof fn lemma_product_is_bounded(x: int, y: int, bound: int)
    by (nonlinear_arith)
    requires
        -bound <= x <= bound,
        -bound <= y <= bound,
    ensures
        -(bound * bound) <= x * y <= bound * bound,
{
}

/// The edge function of the line from `a` to `b` at the point `p`.
fn edge_function(ax: i64, ay: i64, bx: i64, by: i64, px: i64, py: i64) -> (e: i128)
    requires
        -0x100_0000_0000_0000 <= ax <= 0x100_0000_0000_0000,
        -0x100_0000_0000_0000 <= ay <= 0x100_0000_0000_0000,
        -0x100_0000_0000_0000 <= bx <= 0x100_0000_0000_0000,
        -0x100_0000_0000_0000 <= by <= 0x100_0000_0000_0000,
        -0x100_0000_0000_0000 <= px <= 0x100_0000_0000_0000,
        -0x100_0000_0000_0000 <= py <= 0x100_0000_0000_0000,
    ensures
        e == edge(ax as int, ay as int, bx as int, by as int, px as int, py as int),
{
    proof {
        lemma_edge_is_bounded(ax as int, ay as int, bx as int, by as int, px as int, py as int);
    }
    let dxp: i128 = px as i128 - ax as i128;
    let dyb: i128 = by as i128 - ay as i128;
    let dyp: i128 = py as i128 - ay as i128;
    let dxb: i128 = bx as i128 - ax as i128;
    dxp * dyb - dyp * dxb
}

fn weight_in_range(w: i128, area: i128) -> (ok: bool)
    ensures
        ok == is_weight(w as int, area as int),
{
    (area > 0 && 0 <= w && w <= area) || (area < 0 && area <= w && w <= 0)
}

fn floor_pixel(q: i64) -> (p: i64)
    requires
        on_grid(q as int),
    ensures
        p == pixel_floor(q as int),
        -0x8000_0000 <= p < 0x8000_0000,
{
    if q >= 0 {
        q / SUBPIXEL
    } else {
        -((-q + (SUBPIXEL - 1)) / SUBPIXEL)
    }
}

fn ceil_pixel(q: i64) -> (p: i64)
    requires
        on_grid(q as int),
    ensures
        p == pixel_ceil(q as int),
        -0x8000_0000 <= p <= 0x8000_0000,
{
    if q > 0 {
        (q + (SUBPIXEL - 1)) / SUBPIXEL
    } else {
        -((-q) / SUBPIXEL)
    }
}

fn least(a: i64, b: i64, c: i64) -> (m: i64)
    ensures
        m == min3(a as int, b as int, c as int),
{
    if a <= b && a <= c {
        a
    } else if b <= c {
        b
    } else {
        c
    }
}

fn greatest(a: i64, b: i64, c: i64) -> (m: i64)
    ensures
        m == max3(a as int, b as int, c as int),
{
    if a >= b && a >= c {
        a
    } else if b >= c {
        b
    } else {
        c
    }
}

/// The bounding box of the triangle, in pixels: from the floor of the least
/// coordinate to the ceiling of the greatest, in `x` and in `y`.
fn calculate_bounding_box(t: &Snapped) -> (bounds: (i64, i64, i64, i64))
    requires
        t.on_grid(),
    ensures
        bounds.0 == t.min_x(),
        bounds.1 == t.min_y(),
        bounds.2 == t.max_x(),
        bounds.3 == t.max_y(),
        -0x8000_0000 <= bounds.0 <= bounds.2 <= 0x8000_0000,
        -0x8000_0000 <= bounds.1 <= bounds.3 <= 0x8000_0000,
{
    let min_x: i64 = floor_pixel(least(t.a.x, t.b.x, t.c.x));
    let min_y: i64 = floor_pixel(least(t.a.y, t.b.y, t.c.y));
    let max_x: i64 = ceil_pixel(greatest(t.a.x, t.b.x, t.c.x));
    let max_y: i64 = ceil_pixel(greatest(t.a.y, t.b.y, t.c.y));
    (min_x, min_y, max_x, max_y)
}

/// The three weight numerators at the grid point `(px, py)`, which is the
/// centre of a pixel.
fn barycentric_coordinates(t: &Snapped, px: i64, py: i64) -> (w: (i128, i128, i128))
    requires
        t.on_grid(),
        -0x100_0000_0000_0000 <= px <= 0x100_0000_0000_0000,
        -0x100_0000_0000_0000 <= py <= 0x100_0000_0000_0000,
    ensures
        w.0 == edge(t.b.x as int, t.b.y as int, t.c.x as int, t.c.y as int, px as int, py as int),
        w.1 == edge(t.c.x as int, t.c.y as int, t.a.x as int, t.a.y as int, px as int, py as int),
        w.2 == edge(t.a.x as int, t.a.y as int, t.b.x as int, t.b.y as int, px as int, py as int),
{
    let w1: i128 = edge_function(t.b.x, t.b.y, t.c.x, t.c.y, px, py);
    let w2: i128 = edge_function(t.c.x, t.c.y, t.a.x, t.a.y, px, py);
    let w3: i128 = edge_function(t.a.x, t.a.y, t.b.x, t.b.y, px, py);
    (w1, w2, w3)
}

/// Visits the pixels of the bounding box row by row and keeps those that
/// the triangle covers.
fn rasterize(t: Snapped) -> (samples: Vec<Sample>)
    requires
        t.on_grid(),
    ensures
        samples@ == t.samples(),
{
    let (min_x, min_y, max_x, max_y) = calculate_bounding_box(&t);
    let area: i128 = edge_function(t.a.x, t.a.y, t.b.x, t.b.y, t.c.x, t.c.y);
    let mut samples: Vec<Sample> = Vec::new();
    let mut y: i64 = min_y;
    while y <= max_y
        invariant
            t.on_grid(),
            min_x == t.min_x(),
            max_x == t.max_x(),
            min_y == t.min_y(),
            max_y == t.max_y(),
            -0x8000_0000 <= min_x <= max_x <= 0x8000_0000,
            -0x8000_0000 <= min_y <= y <= max_y + 1 <= 0x8000_0001,
            area == t.area(),
            samples@ == t.rows(min_y as int, y as int),
        decreases max_y + 1 - y,
    {
        let ghost above = samples@;
        let py: i64 = y * SUBPIXEL + HALF_PIXEL;
        let mut x: i64 = min_x;
        while x <= max_x
            invariant
                t.on_grid(),
                max_x == t.max_x(),
                -0x8000_0000 <= min_x <= x <= max_x + 1 <= 0x8000_0001,
                -0x8000_0000 <= y <= 0x8000_0000,
                py == center(y as int),
                area == t.area(),
                samples@ == above + t.span(y as int, min_x as int, x as int),
            decreases max_x + 1 - x,
        {
            let px: i64 = x * SUBPIXEL + HALF_PIXEL;
            let (w1, w2, w3) = barycentric_coordinates(&t, px, py);
            if weight_in_range(w1, area) && weight_in_range(w2, area) && weight_in_range(w3, area) {
                proof {
                    lemma_covered_lies_in_box(t, x as int, y as int);
                }
                samples.push(Sample { x: x as i32, y: y as i32, w1, w2, w3 });
            }
            x += 1;
            assert(samples@ =~= above + t.span(y as int, min_x as int, x as int));
        }
        y += 1;
        assert(samples@ =~= t.rows(min_y as int, y as int));
    }
    samples
}

fn snap(p: &Vec3) -> (corner: Option<Corner>)
    ensures
        corner == snapped(*p),
        corner matches Some(c) ==> c.on_grid(),
{
    match (p.x.to_fixed(SUBPIXEL_BITS), p.y.to_fixed(SUBPIXEL_BITS)) {
        (Some(x), Some(y)) => {
            proof {
                lemma_snapped_is_on_grid(p.x);
                lemma_snapped_is_on_grid(p.y);
            }
            Some(Corner { x, y })
        },
        _ => None,
    }
}

/// A coordinate that can be snapped lands on the grid.
pub proof fn lemma_snapped_is_on_grid(v: Scalar)
    requires
        v.in_pixel_range(),
    ensures
        on_grid(v.floor_scaled(SUBPIXEL_BITS as int)),
{
    vstd::arithmetic::power2::lemma2_to64();
    v.lemma_scaling_is_monotonic(SUBPIXEL_BITS as int);
    v.lemma_floor_by_sign(SUBPIXEL_BITS as int);
    v.lemma_magnitude_is_not_negative(0);
    v.lemma_magnitude_is_not_negative(SUBPIXEL_BITS as int);
    let whole = v.magnitude_scaled(0);
    let step = vstd::arithmetic::power2::pow2(SUBPIXEL_BITS as nat) as int;
    assert(step == 0x100_0000);
    assert((whole + 1) * step <= 0x80_0000_0000_0000) by (nonlinear_arith)
        requires
            0 <= whole < 0x8000_0000,
            step == 0x100_0000,
    ;
}

/// The triangle between three vertices lies on the grid, so that all that
/// holds of the samples of a triangle on the grid holds of the samples of
/// the three vertices.
pub proof fn lemma_snapped_triangle_is_on_grid(v1: Vertex, v2: Vertex, v3: Vertex)
    ensures
        snapped_triangle(v1, v2, v3) matches Some(t) ==> t.on_grid() && triangle_samples(v1, v2, v3)
            == t.samples(),
        snapped_triangle(v1, v2, v3) is None ==> triangle_samples(v1, v2, v3) == Seq::<
            Sample,
        >::empty(),
{
    if snapped_triangle(v1, v2, v3) is Some {
        lemma_snapped_is_on_grid(v1.transformed_position.x);
        lemma_snapped_is_on_grid(v1.transformed_position.y);
        lemma_snapped_is_on_grid(v2.transformed_position.x);
        lemma_snapped_is_on_grid(v2.transformed_position.y);
        lemma_snapped_is_on_grid(v3.transformed_position.x);
        lemma_snapped_is_on_grid(v3.transformed_position.y);
    }
}

/// What `triangle` gives for three vertices: a sample at exactly the pixels
/// that the snapped triangle covers, and none at all where a vertex cannot
/// be a place on the screen.
pub proof fn lemma_triangle_samples_are_the_covered_pixels(
    v1: Vertex,
    v2: Vertex,
    v3: Vertex,
    x: int,
    y: int,
)
    ensures
        (exists|i: int|
            0 <= i < triangle_samples(v1, v2, v3).len() && (#[trigger] triangle_samples(
                v1,
                v2,
                v3,
            )[i]).x == x && triangle_samples(v1, v2, v3)[i].y == y) <==> (snapped_triangle(
            v1,
            v2,
            v3,
        ) matches Some(t) && t.covers(x, y)),
{
    lemma_snapped_triangle_is_on_grid(v1, v2, v3);
    match snapped_triangle(v1, v2, v3) {
        Some(t) => {
            lemma_samples_are_the_covered_pixels(t, x, y);
        },
        None => {},
    }
}

/// What `triangle` gives for three vertices: every sample carries three
/// weights that have one sign and add up to the area of the snapped
/// triangle, which is not zero. As fractions of the area they lie in
/// `0..=1` and add up to one.
pub proof fn lemma_triangle_sample_weights(v1: Vertex, v2: Vertex, v3: Vertex, i: int)
    requires
        0 <= i < triangle_samples(v1, v2, v3).len(),
    ensures
        ({
            let s = triangle_samples(v1, v2, v3)[i];
            let area = s.w1 + s.w2 + s.w3;
            &&& snapped_triangle(v1, v2, v3) matches Some(t) && area == t.area() && t.covers(
                s.x as int,
                s.y as int,
            )
            &&& area != 0
            &&& is_weight(s.w1 as int, area)
            &&& is_weight(s.w2 as int, area)
            &&& is_weight(s.w3 as int, area)
        }),
{
    lemma_snapped_triangle_is_on_grid(v1, v2, v3);
    let t = snapped_triangle(v1, v2, v3)->Some_0;
    lemma_sample_weights(t, i);
}

/// Scan-converts the triangle between three transformed vertices.
pub fn triangle(v1: &Vertex, v2: &Vertex, v3: &Vertex) -> (samples: Vec<Sample>)
    ensures
        samples@ == triangle_samples(*v1, *v2, *v3),
{
    let a = snap(&v1.transformed_position);
    let b = snap(&v2.transformed_position);
    let c = snap(&v3.transformed_position);
    match (a, b, c) {
        (Some(a), Some(b), Some(c)) => rasterize(Snapped { a, b, c }),
        _ => Vec::new(),
    }
}

} // verus!
