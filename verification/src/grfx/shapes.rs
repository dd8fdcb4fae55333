//! The positions that each shape plots, in plotting order, as sequences over
//! the unbounded integer grid.

use crate::math::vector::Point2D;
use vstd::arithmetic::div_mod::lemma_fundamental_div_mod;
use vstd::arithmetic::div_mod::lemma_fundamental_div_mod_converse;
use vstd::prelude::*;

verus! {

/// `base` moved by `amount`, towards larger values when `up` holds and
/// towards smaller ones otherwise.
pub open spec fn shift(base: int, amount: int, up: bool) -> int {
    if up {
        base + amount
    } else {
        base - amount
    }
}

/// The quotient `num / den` rounded to the nearest integer, halves upwards.
pub open spec fn nearest(num: int, den: int) -> int {
    (2 * num + den) / (2 * den)
}

/// The quotient `num / den` rounded upwards.
pub open spec fn ceil_div(num: int, den: int) -> int {
    (num + den - 1) / den
}

/// Number of steps a steep line takes along its rows before its column
/// reaches the far end: the first `k` at which `nearest(k * run, rise)` is
/// `run`.
pub open spec fn steep_steps(run: int, rise: int) -> int {
    ceil_div(rise * (2 * run - 1), 2 * run)
}

/// `count` positions of the column `x`, from row `low` upwards.
pub open spec fn column_points(x: int, low: int, count: int) -> Seq<(int, int)> {
    Seq::new(count as nat, |k: int| (x, low + k))
}

/// `count` positions of the row `y`, from column `left` rightwards.
pub open spec fn row_points(left: int, y: int, count: int) -> Seq<(int, int)> {
    Seq::new(count as nat, |k: int| (left + k, y))
}

/// A line of slope at most one, from `left` over `run` columns, `rise` rows
/// up or down: one position in each column, in the row nearest to the ideal
/// line.
pub open spec fn shallow_points(left: (int, int), run: int, rise: int, up: bool) -> Seq<
    (int, int),
> {
    Seq::new(
        (run + 1) as nat,
        |k: int| (left.0 + k, shift(left.1, nearest(k * rise, run), up)),
    )
}

/// A line of slope above one, from `left`: one position in each row, in the
/// column nearest to the ideal line, ending with the first position in the
/// last column.
pub open spec fn steep_points(left: (int, int), run: int, rise: int, up: bool) -> Seq<
    (int, int),
> {
    Seq::new(
        (steep_steps(run, rise) + 1) as nat,
        |k: int| (left.0 + nearest(k * run, rise), shift(left.1, k, up)),
    )
}

/// The positions of the line between `from` and `to`, in plotting order.
///
/// A line is drawn from its left end to its right end. A vertical or
/// horizontal line leaves out its last position (an empty line plots
/// nothing); a steep line stops at the first position in the column of its
/// right end.
pub open spec fn line_points(from: (int, int), to: (int, int)) -> Seq<(int, int)> {
    let left = if to.0 >= from.0 {
        from
    } else {
        to
    };
    let right = if to.0 >= from.0 {
        to
    } else {
        from
    };
    let run = right.0 - left.0;
    let up = right.1 >= left.1;
    let rise = if up {
        right.1 - left.1
    } else {
        left.1 - right.1
    };
    if run == 0 {
        column_points(left.0, if up { left.1 } else { right.1 }, rise)
    } else if rise == 0 {
        row_points(left.0, left.1, run)
    } else if rise <= run {
        shallow_points(left, run, rise, up)
    } else {
        steep_points(left, run, rise, up)
    }
}

/// The value on which the walk along a circle's upper octant decides, in
/// column `x` and row `y`, whether to step one row towards the centre: it
/// steps when the value is positive. It starts at `3 - 2 * radius`.
pub open spec fn arc_decision(radius: int, x: int, y: int) -> int {
    2 * (x * x) + 2 * (y * y) - 2 * (radius * radius) + 8 * x - 6 * y + 4 * radius + 3
}

/// The row, relative to the centre, that the octant walk visits in column
/// `k`: it starts at `radius` and comes one row nearer to the centre after
/// each column whose decision value is positive.
pub open spec fn arc_row(radius: int, k: nat) -> int
    decreases k,
{
    if k == 0 {
        radius
    } else {
        let before = arc_row(radius, (k - 1) as nat);
        if arc_decision(radius, k - 1, before) > 0 {
            before - 1
        } else {
            before
        }
    }
}

/// Number of columns that the octant walk visits from column `k` on: it goes
/// on for as long as the column does not exceed the row.
pub open spec fn arc_columns_from(radius: int, k: nat) -> nat
    decreases radius + 1 - k,
{
    if k <= radius && arc_row(radius, k) >= k {
        1 + arc_columns_from(radius, k + 1)
    } else {
        0
    }
}

/// Number of columns that the octant walk of a circle visits.
pub open spec fn arc_columns(radius: int) -> nat {
    arc_columns_from(radius, 0)
}

/// The eight reflections of the offset `(x, y)` about `center`, in plotting
/// order.
pub open spec fn octant_points(center: (int, int), x: int, y: int) -> Seq<(int, int)> {
    seq![
        (center.0 + x, center.1 + y),
        (center.0 - x, center.1 + y),
        (center.0 + x, center.1 - y),
        (center.0 - x, center.1 - y),
        (center.0 + y, center.1 + x),
        (center.0 - y, center.1 + x),
        (center.0 + y, center.1 - x),
        (center.0 - y, center.1 - x),
    ]
}

/// The outline positions that the first `columns` columns of the octant walk
/// contribute.
pub open spec fn circle_points_upto(center: (int, int), radius: int, columns: nat) -> Seq<
    (int, int),
>
    decreases columns,
{
    if columns == 0 {
        Seq::empty()
    } else {
        let k = (columns - 1) as nat;
        circle_points_upto(center, radius, k) + octant_points(center, k as int, arc_row(radius, k))
    }
}

/// The positions of the outline of the circle about `center`, in plotting
/// order. A negative radius gives none.
pub open spec fn circle_points(center: (int, int), radius: int) -> Seq<(int, int)> {
    circle_points_upto(center, radius, arc_columns(radius))
}

/// The four spans that fill the disk at the offset `(x, y)` of the octant
/// walk: the columns `x` to the right and to the left of the centre, then
/// the rows `x` above and below it, each of `2 * y` positions starting `y`
/// before the centre.
pub open spec fn span_points(center: (int, int), x: int, y: int) -> Seq<(int, int)> {
    column_points(center.0 + x, center.1 - y, 2 * y) + column_points(
        center.0 - x,
        center.1 - y,
        2 * y,
    ) + row_points(center.0 - y, center.1 - x, 2 * y) + row_points(
        center.0 - y,
        center.1 + x,
        2 * y,
    )
}

/// The disk positions that the first `columns` columns of the octant walk
/// contribute.
pub open spec fn disk_points_upto(center: (int, int), radius: int, columns: nat) -> Seq<
    (int, int),
>
    decreases columns,
{
    if columns == 0 {
        Seq::empty()
    } else {
        let k = (columns - 1) as nat;
        disk_points_upto(center, radius, k) + span_points(center, k as int, arc_row(radius, k))
    }
}

/// The positions of the filled circle about `center`, in plotting order. A
/// negative radius gives none.
pub open spec fn disk_points(center: (int, int), radius: int) -> Seq<(int, int)> {
    disk_points_upto(center, radius, arc_columns(radius))
}

/// The positions of the outline of the rectangle with corner `origin`: its
/// top, left, bottom and right edges, each a line.
pub open spec fn rectangle_points(origin: (int, int), width: int, height: int) -> Seq<
    (int, int),
> {
    let top_right = (origin.0 + width, origin.1);
    let bottom_left = (origin.0, origin.1 + height);
    let bottom_right = (origin.0 + width, origin.1 + height);
    line_points(origin, top_right) + line_points(origin, bottom_left) + line_points(
        bottom_left,
        bottom_right,
    ) + line_points(top_right, bottom_right)
}

/// The positions of `rows` horizontal lines of extent `width`, the first one
/// starting at `origin` and each next one a row further.
pub open spec fn band_points(origin: (int, int), width: int, rows: nat) -> Seq<(int, int)>
    decreases rows,
{
    if rows == 0 {
        Seq::empty()
    } else {
        let i = rows - 1;
        band_points(origin, width, i as nat) + line_points(
            (origin.0, origin.1 + i),
            (origin.0 + width, origin.1 + i),
        )
    }
}

/// The positions of the filled rectangle with corner `origin`: the rows
/// `origin.1` to `origin.1 + height`, both included, each a horizontal line.
pub open spec fn filled_rectangle_points(origin: (int, int), width: int, height: int) -> Seq<
    (int, int),
> {
    band_points(
        origin,
        width,
        if height >= 0 {
            (height + 1) as nat
        } else {
            0
        },
    )
}

/// The positions of the triangle's three sides.
pub open spec fn triangle_points(v1: (int, int), v2: (int, int), v3: (int, int)) -> Seq<
    (int, int),
> {
    line_points(v1, v2) + line_points(v2, v3) + line_points(v3, v1)
}

/// The positions of a list of points.
pub open spec fn positions(points: Seq<Point2D>) -> Seq<(int, int)> {
    Seq::new(points.len(), |i: int| points[i]@)
}

/// The positions of the lines that join each vertex to the next.
pub open spec fn path_points(vertices: Seq<(int, int)>) -> Seq<(int, int)>
    decreases vertices.len(),
{
    if vertices.len() < 2 {
        Seq::empty()
    } else {
        path_points(vertices.drop_last()) + line_points(
            vertices[vertices.len() - 2],
            vertices[vertices.len() - 1],
        )
    }
}

/// The positions of the closed polygon through `vertices`: the path through
/// them, then the line from the last back to the first. Fewer than three
/// vertices give none.
pub open spec fn polygon_points(vertices: Seq<(int, int)>) -> Seq<(int, int)> {
    if vertices.len() >= 3 {
        path_points(vertices) + line_points(vertices.last(), vertices.first())
    } else {
        Seq::empty()
    }
}

/// `nearest(num, den)` is the one integer `q` with
/// `-den <= 2 * num - 2 * (den * q) < den`.
pub proof fn lemma_nearest(num: int, den: int, q: int)
    requires
        den > 0,
        0 <= 2 * num + den - 2 * (den * q) < 2 * den,
    ensures
        nearest(num, den) == q,
{
    let r = 2 * num + den - 2 * (den * q);
    assert(2 * num + den == q * (2 * den) + r) by (nonlinear_arith)
        requires
            r == 2 * num + den - 2 * (den * q),
    ;
    lemma_fundamental_div_mod_converse(2 * num + den, 2 * den, q, r);
}

/// `ceil_div(num, den)` is the least integer whose multiple of `den` reaches
/// `num`.
pub proof fn lemma_ceil_div(num: int, den: int, k: int)
    requires
        den > 0,
    ensures
        k * den < num <==> k < ceil_div(num, den),
{
    let x = num + den - 1;
    let q = x / den;
    let r = x % den;
    lemma_fundamental_div_mod(x, den);
    assert(0 <= r < den);
    assert(k * den < num <==> k < q) by (nonlinear_arith)
        requires
            den > 0,
            num + den - 1 == den * q + r,
            0 <= r < den,
    ;
}

} // verus!
