//! Where the shapes lie: the ends of a line and the box that holds it, the
//! square that holds a circle, and how near a circle's positions are to the
//! ideal circle.

use crate::grfx::color::Color;
use crate::grfx::frame::Frame;
use crate::grfx::frame::lemma_paint_shows;
use crate::grfx::shapes::arc_columns;
use crate::grfx::shapes::arc_columns_from;
use crate::grfx::shapes::arc_decision;
use crate::grfx::shapes::arc_row;
use crate::grfx::shapes::circle_points;
use crate::grfx::shapes::circle_points_upto;
use crate::grfx::shapes::column_points;
use crate::grfx::shapes::disk_points;
use crate::grfx::shapes::disk_points_upto;
use crate::grfx::shapes::lemma_ceil_div;
use crate::grfx::shapes::lemma_nearest;
use crate::grfx::shapes::line_points;
use crate::grfx::shapes::nearest;
use crate::grfx::shapes::octant_points;
use crate::grfx::shapes::row_points;
use crate::grfx::shapes::span_points;
use crate::grfx::shapes::steep_steps;
use vstd::arithmetic::div_mod::lemma_fundamental_div_mod;
use vstd::prelude::*;

verus! {

/// The smaller of two integers.
pub open spec fn lesser(a: int, b: int) -> int {
    if a <= b {
        a
    } else {
        b
    }
}

/// The larger of two integers.
pub open spec fn greater(a: int, b: int) -> int {
    if a >= b {
        a
    } else {
        b
    }
}

/// Whether `p` lies in the smallest upright box that holds `a` and `b`.
pub open spec fn within_box(p: (int, int), a: (int, int), b: (int, int)) -> bool {
    &&& lesser(a.0, b.0) <= p.0 <= greater(a.0, b.0)
    &&& lesser(a.1, b.1) <= p.1 <= greater(a.1, b.1)
}

/// Whether `p` lies in the upright square of half side `radius` about
/// `center`.
pub open spec fn within_square(p: (int, int), center: (int, int), radius: int) -> bool {
    &&& center.0 - radius <= p.0 <= center.0 + radius
    &&& center.1 - radius <= p.1 <= center.1 + radius
}

/// A rounded quotient is no more than one half away from the quotient
/// itself: `num / den - 1 / 2 < nearest(num, den) <= num / den + 1 / 2`.
pub proof fn lemma_nearest_error(num: int, den: int)
    requires
        den > 0,
    ensures
        -den < 2 * (den * nearest(num, den)) - 2 * num <= den,
{
    let x = 2 * num + den;
    let q = x / (2 * den);
    let r = x % (2 * den);
    lemma_fundamental_div_mod(x, 2 * den);
    assert((2 * den) * q == 2 * (den * q)) by (nonlinear_arith);
}

/// A rounded quotient of a numerator between zero and `bound * den` lies
/// between zero and `bound`.
pub proof fn lemma_nearest_bounds(num: int, den: int, bound: int)
    requires
        den > 0,
        0 <= num <= bound * den,
    ensures
        0 <= nearest(num, den) <= bound,
{
    let x = 2 * num + den;
    let q = x / (2 * den);
    let r = x % (2 * den);
    lemma_fundamental_div_mod(x, 2 * den);
    assert(0 <= q <= bound) by (nonlinear_arith)
        requires
            den > 0,
            0 <= num <= bound * den,
            2 * num + den == (2 * den) * q + r,
            0 <= r < 2 * den,
    ;
}

/// A steep line takes at least one step and no more steps than it has rows,
/// and its last step is the one that brings it into the last column.
pub proof fn lemma_steep_steps(run: int, rise: int)
    requires
        0 < run < rise,
    ensures
        0 < steep_steps(run, rise) <= rise,
        nearest(steep_steps(run, rise) * run, rise) == run,
        forall|k: int| 0 <= k < steep_steps(run, rise) ==> nearest(#[trigger] (k * run), rise) < run,
{
    let a = rise * (2 * run - 1);
    let b = 2 * run;
    let steps = steep_steps(run, rise);
    lemma_ceil_div(a, b, 0);
    lemma_ceil_div(a, b, rise);
    lemma_ceil_div(a, b, steps);
    lemma_ceil_div(a, b, steps - 1);
    assert(0 * b < a) by (nonlinear_arith)
        requires
            a == rise * (2 * run - 1),
            b == 2 * run,
            0 < run < rise,
    ;
    assert(!(rise * b < a)) by (nonlinear_arith)
        requires
            a == rise * (2 * run - 1),
            b == 2 * run,
            0 < run < rise,
    ;
    assert(0 <= 2 * (steps * run) + rise - 2 * (rise * run) < 2 * rise) by (nonlinear_arith)
        requires
            a == rise * (2 * run - 1),
            b == 2 * run,
            0 < run < rise,
            steps * b >= a,
            (steps - 1) * b < a,
    ;
    lemma_nearest(steps * run, rise, run);
    assert forall|k: int| 0 <= k < steps implies nearest(#[trigger] (k * run), rise) < run by {
        lemma_ceil_div(a, b, k);
        let q = nearest(k * run, rise);
        let r = (2 * (k * run) + rise) % (2 * rise);
        lemma_fundamental_div_mod(2 * (k * run) + rise, 2 * rise);
        assert(q < run) by (nonlinear_arith)
            requires
                a == rise * (2 * run - 1),
                b == 2 * run,
                0 < run < rise,
                k * b < a,
                2 * (k * run) + rise == (2 * rise) * q + r,
                0 <= r < 2 * rise,
        ;
    }
}

/// Number of positions of a line: a vertical or horizontal line has as many
/// as it is long, a line of slope at most one has one in each of its
/// columns, and a steeper line has one for each step and one more.
pub proof fn lemma_line_len(from: (int, int), to: (int, int))
    ensures
        from.0 == to.0 ==> line_points(from, to).len() == greater(from.1, to.1) - lesser(
            from.1,
            to.1,
        ),
        from.1 == to.1 ==> line_points(from, to).len() == greater(from.0, to.0) - lesser(
            from.0,
            to.0,
        ),
        from.0 != to.0 && from.1 != to.1 ==> line_points(from, to).len() >= 2,
{
    let run = greater(from.0, to.0) - lesser(from.0, to.0);
    let rise = greater(from.1, to.1) - lesser(from.1, to.1);
    if run > 0 && rise > run {
        lemma_steep_steps(run, rise);
    }
}

/// A line does not depend on which of its ends is named first.
pub proof fn lemma_line_symmetric(from: (int, int), to: (int, int))
    ensures
        line_points(from, to) == line_points(to, from),
{
    assert(line_points(from, to) =~= line_points(to, from));
}

/// Every position of a line lies in the box that its two ends span.
pub proof fn lemma_line_within_box(from: (int, int), to: (int, int), i: int)
    requires
        0 <= i < line_points(from, to).len(),
    ensures
        within_box(line_points(from, to)[i], from, to),
{
    let run = greater(from.0, to.0) - lesser(from.0, to.0);
    let rise = greater(from.1, to.1) - lesser(from.1, to.1);
    if run == 0 || rise == 0 {
    } else if rise <= run {
        assert(0 <= i * rise <= rise * run) by (nonlinear_arith)
            requires
                0 <= i <= run,
                0 < rise,
        ;
        lemma_nearest_bounds(i * rise, run, rise);
    } else {
        lemma_steep_steps(run, rise);
        assert(0 <= i * run <= run * rise) by (nonlinear_arith)
            requires
                0 <= i <= rise,
                0 < run,
        ;
        lemma_nearest_bounds(i * run, rise, run);
    }
}

/// Twice the area, with its sign, of the triangle that `p` spans with the
/// segment from `from` to `to`: zero when the three lie on one straight line.
pub open spec fn cross(from: (int, int), to: (int, int), p: (int, int)) -> int {
    (p.0 - from.0) * (to.1 - from.1) - (p.1 - from.1) * (to.0 - from.0)
}

/// Every position of a line lies within half a step of the ideal line
/// through its ends, measured along the rows for a line of slope at most
/// one and along the columns for a steeper one.
pub proof fn lemma_line_near_ideal(from: (int, int), to: (int, int), i: int)
    requires
        0 <= i < line_points(from, to).len(),
    ensures
        ({
            let run = greater(from.0, to.0) - lesser(from.0, to.0);
            let rise = greater(from.1, to.1) - lesser(from.1, to.1);
            -greater(run, rise) <= 2 * cross(from, to, line_points(from, to)[i]) <= greater(
                run,
                rise,
            )
        }),
{
    let run = greater(from.0, to.0) - lesser(from.0, to.0);
    let rise = greater(from.1, to.1) - lesser(from.1, to.1);
    let left = if to.0 >= from.0 { from } else { to };
    let right = if to.0 >= from.0 { to } else { from };
    let p = line_points(from, to)[i];
    let a = p.0 - left.0;
    let b = p.1 - left.1;
    let w = right.0 - left.0;
    let h = right.1 - left.1;
    assert(cross(from, to, p) == a * h - b * w || cross(from, to, p) == -(a * h - b * w))
        by (nonlinear_arith)
        requires
            cross(from, to, p) == (p.0 - from.0) * (to.1 - from.1) - (p.1 - from.1) * (to.0
                - from.0),
            a == p.0 - left.0,
            b == p.1 - left.1,
            w == right.0 - left.0,
            h == right.1 - left.1,
            (left == from && right == to) || (left == to && right == from),
    ;
    if run == 0 {
        assert(a * h - b * w == 0) by (nonlinear_arith)
            requires
                a == 0,
                w == 0,
        ;
    } else if rise == 0 {
        assert(a * h - b * w == 0) by (nonlinear_arith)
            requires
                b == 0,
                h == 0,
        ;
    } else if rise <= run {
        let n = nearest(i * rise, run);
        lemma_nearest_error(i * rise, run);
        assert(-run <= 2 * (a * h - b * w) <= run) by (nonlinear_arith)
            requires
                a == i,
                w == run,
                (h == rise && b == n) || (h == -rise && b == -n),
                -run < 2 * (run * n) - 2 * (i * rise) <= run,
        ;
    } else {
        lemma_steep_steps(run, rise);
        let m = nearest(i * run, rise);
        lemma_nearest_error(i * run, rise);
        assert(-rise <= 2 * (a * h - b * w) <= rise) by (nonlinear_arith)
            requires
                a == m,
                w == run,
                (h == rise && b == i) || (h == -rise && b == -i),
                -rise < 2 * (rise * m) - 2 * (i * run) <= rise,
        ;
    }
}

/// A sloped line starts at its left end. With a slope of at most one it ends
/// at its right end; steeper, it ends in the column of its right end.
pub proof fn lemma_line_ends(from: (int, int), to: (int, int))
    requires
        from.0 != to.0,
        from.1 != to.1,
    ensures
        line_points(from, to).len() >= 2,
        line_points(from, to).first() == if from.0 < to.0 {
            from
        } else {
            to
        },
        line_points(from, to).last().0 == greater(from.0, to.0),
        greater(from.1, to.1) - lesser(from.1, to.1) <= greater(from.0, to.0) - lesser(
            from.0,
            to.0,
        ) ==> line_points(from, to).last() == if from.0 < to.0 {
            to
        } else {
            from
        },
{
    let run = greater(from.0, to.0) - lesser(from.0, to.0);
    let rise = greater(from.1, to.1) - lesser(from.1, to.1);
    if rise <= run {
        assert(0 * rise == 0) by (nonlinear_arith);
        lemma_nearest(0, run, 0);
        assert(0 <= 2 * (run * rise) + run - 2 * (run * rise) < 2 * run);
        lemma_nearest(run * rise, run, rise);
    } else {
        lemma_steep_steps(run, rise);
        assert(0 * run == 0) by (nonlinear_arith);
        lemma_nearest(0, rise, 0);
    }
}

/// The octant walk comes nearer to the centre by at most one row per column,
/// and never moves away from it.
pub proof fn lemma_arc_row_bounds(radius: int, k: nat)
    ensures
        arc_row(radius, k + 1) == arc_row(radius, k) || arc_row(radius, k + 1) == arc_row(
            radius,
            k,
        ) - 1,
        radius - k <= arc_row(radius, k) <= radius,
    decreases k,
{
    if k > 0 {
        lemma_arc_row_bounds(radius, (k - 1) as nat);
    }
}

/// The octant walk visits no column beyond the radius.
proof fn lemma_arc_columns_from(radius: int, k: nat)
    ensures
        k <= radius + 1 ==> arc_columns_from(radius, k) <= radius + 1 - k,
        k > radius ==> arc_columns_from(radius, k) == 0,
    decreases radius + 1 - k,
{
    if k <= radius {
        lemma_arc_columns_from(radius, k + 1);
    }
}

/// A circle of negative radius has no columns; any other has at least its
/// first, and at most one for each unit of the radius and one more.
pub proof fn lemma_arc_columns(radius: int)
    ensures
        radius < 0 ==> arc_columns(radius) == 0,
        radius >= 0 ==> 1 <= arc_columns(radius) <= radius + 1,
{
    lemma_arc_columns_from(radius, 0);
}

/// The columns that the walk visits from column `j` on are those that
/// follow one another without a break.
proof fn lemma_arc_visited_from(radius: int, j: nat, k: nat)
    requires
        j <= k < j + arc_columns_from(radius, j),
    ensures
        k <= arc_row(radius, k) <= radius,
    decreases k - j,
{
    lemma_arc_row_bounds(radius, k);
    if j < k {
        lemma_arc_visited_from(radius, j + 1, k);
    }
}

/// In every column that the octant walk visits, the row lies between the
/// column and the radius: the walk stays in its octant.
pub proof fn lemma_arc_visited(radius: int, k: nat)
    requires
        k < arc_columns(radius),
    ensures
        0 <= k <= arc_row(radius, k) <= radius,
{
    lemma_arc_visited_from(radius, 0, k);
}

/// The outline of a circle has eight positions for each column of the walk.
pub proof fn lemma_circle_len(center: (int, int), radius: int, columns: nat)
    ensures
        circle_points_upto(center, radius, columns).len() == 8 * columns,
    decreases columns,
{
    if columns > 0 {
        lemma_circle_len(center, radius, (columns - 1) as nat);
    }
}

/// Every position that the first `columns` visited columns give to the
/// outline lies in the square about the centre.
proof fn lemma_circle_within_upto(center: (int, int), radius: int, columns: nat, i: int)
    requires
        columns <= arc_columns(radius),
        0 <= i < circle_points_upto(center, radius, columns).len(),
    ensures
        within_square(circle_points_upto(center, radius, columns)[i], center, radius),
    decreases columns,
{
    let k = (columns - 1) as nat;
    let before = circle_points_upto(center, radius, k);
    if i < before.len() {
        lemma_circle_within_upto(center, radius, k, i);
    } else {
        lemma_arc_visited(radius, k);
        let block = octant_points(center, k as int, arc_row(radius, k));
        assert(circle_points_upto(center, radius, columns)[i] == block[i - before.len()]);
    }
}

/// Every position of the outline of a circle lies in the square of half
/// side `radius` about its centre.
pub proof fn lemma_circle_within_square(center: (int, int), radius: int, i: int)
    requires
        0 <= i < circle_points(center, radius).len(),
    ensures
        within_square(circle_points(center, radius)[i], center, radius),
{
    lemma_circle_within_upto(center, radius, arc_columns(radius), i);
}

/// Every position that the first `columns` visited columns give to the disk
/// lies in the square about the centre.
proof fn lemma_disk_within_upto(center: (int, int), radius: int, columns: nat, i: int)
    requires
        columns <= arc_columns(radius),
        0 <= i < disk_points_upto(center, radius, columns).len(),
    ensures
        within_square(disk_points_upto(center, radius, columns)[i], center, radius),
    decreases columns,
{
    let k = (columns - 1) as nat;
    let before = disk_points_upto(center, radius, k);
    if i < before.len() {
        lemma_disk_within_upto(center, radius, k, i);
    } else {
        lemma_arc_visited(radius, k);
        let block = span_points(center, k as int, arc_row(radius, k));
        assert(disk_points_upto(center, radius, columns)[i] == block[i - before.len()]);
    }
}

/// Every position of a filled circle lies in the square of half side
/// `radius` about its centre.
pub proof fn lemma_disk_within_square(center: (int, int), radius: int, i: int)
    requires
        0 <= i < disk_points(center, radius).len(),
    ensures
        within_square(disk_points(center, radius)[i], center, radius),
{
    lemma_disk_within_upto(center, radius, arc_columns(radius), i);
}

/// The square of the distance between two positions.
pub open spec fn squared_distance(p: (int, int), q: (int, int)) -> int {
    (p.0 - q.0) * (p.0 - q.0) + (p.1 - q.1) * (p.1 - q.1)
}

/// How far inside the ideal circle the octant walk can fall, in every
/// column, visited or not: the sum of the squares of column and row falls
/// short of the square of the radius by no more than twice the radius and
/// twice the column, less the row.
proof fn lemma_arc_floor(radius: int, k: nat)
    requires
        radius >= 0,
    ensures
        arc_row(radius, k) - 2 * k - 2 * radius <= k * k + arc_row(radius, k) * arc_row(radius, k)
            - radius * radius,
    decreases k,
{
    let y1 = arc_row(radius, k);
    if k == 0 {
        assert(0 * 0 == 0) by (nonlinear_arith);
    } else {
        let x = (k - 1) as nat;
        let y = arc_row(radius, x);
        lemma_arc_floor(radius, x);
        let e = x * x + y * y - radius * radius;
        assert(arc_decision(radius, x as int, y) == 2 * e + 8 * x - 6 * y + 4 * radius + 3);
        assert(k * k == x * x + 2 * x + 1) by (nonlinear_arith)
            requires
                k == x + 1,
        ;
        if arc_decision(radius, x as int, y) > 0 {
            assert(y1 * y1 == y * y - 2 * y + 1) by (nonlinear_arith)
                requires
                    y1 == y - 1,
            ;
        }
    }
}

/// How far outside the ideal circle the octant walk can stray in a column
/// that it visits: the sum of the squares of column and row exceeds the
/// square of the radius by no more than the row.
proof fn lemma_arc_ceiling(radius: int, k: nat)
    requires
        k < arc_columns(radius),
    ensures
        k * k + arc_row(radius, k) * arc_row(radius, k) - radius * radius <= arc_row(radius, k),
    decreases k,
{
    lemma_arc_visited(radius, k);
    let y1 = arc_row(radius, k);
    if k == 0 {
        assert(0 * 0 == 0) by (nonlinear_arith);
    } else {
        let x = (k - 1) as nat;
        let y = arc_row(radius, x);
        lemma_arc_columns(radius);
        lemma_arc_ceiling(radius, x);
        lemma_arc_visited(radius, x);
        let e = x * x + y * y - radius * radius;
        assert(arc_decision(radius, x as int, y) == 2 * e + 8 * x - 6 * y + 4 * radius + 3);
        assert(k * k == x * x + 2 * x + 1) by (nonlinear_arith)
            requires
                k == x + 1,
        ;
        if arc_decision(radius, x as int, y) > 0 {
            assert(y1 * y1 == y * y - 2 * y + 1) by (nonlinear_arith)
                requires
                    y1 == y - 1,
            ;
        }
    }
}

/// In every column that the octant walk visits, the position lies within
/// the ring about the ideal circle that the squares `radius * radius - 3 *
/// radius` and `radius * radius + radius` bound: less than one step outside
/// the circle, and, from a radius of four on, at most two steps inside.
pub proof fn lemma_arc_near_circle(radius: int, k: nat)
    requires
        k < arc_columns(radius),
    ensures
        radius * radius - 3 * radius <= k * k + arc_row(radius, k) * arc_row(radius, k) <= radius
            * radius + radius,
{
    lemma_arc_columns(radius);
    lemma_arc_floor(radius, k);
    lemma_arc_ceiling(radius, k);
    lemma_arc_visited(radius, k);
}

/// The eight reflections of an offset are as far from the centre as the
/// offset is long.
proof fn lemma_octant_distance(center: (int, int), x: int, y: int, j: int)
    requires
        0 <= j < 8,
    ensures
        squared_distance(octant_points(center, x, y)[j], center) == x * x + y * y,
{
    assert((-x) * (-x) == x * x) by (nonlinear_arith);
    assert((-y) * (-y) == y * y) by (nonlinear_arith);
    let p = octant_points(center, x, y)[j];
    assert(p.0 - center.0 == x || p.0 - center.0 == -x || p.0 - center.0 == y || p.0 - center.0
        == -y);
}

/// Every position that the first `columns` visited columns give to the
/// outline lies in the ring about the ideal circle.
proof fn lemma_circle_near_upto(center: (int, int), radius: int, columns: nat, i: int)
    requires
        columns <= arc_columns(radius),
        0 <= i < circle_points_upto(center, radius, columns).len(),
    ensures
        radius * radius - 3 * radius <= squared_distance(
            circle_points_upto(center, radius, columns)[i],
            center,
        ) <= radius * radius + radius,
    decreases columns,
{
    let k = (columns - 1) as nat;
    let before = circle_points_upto(center, radius, k);
    if i < before.len() {
        lemma_circle_near_upto(center, radius, k, i);
    } else {
        lemma_arc_near_circle(radius, k);
        let block = octant_points(center, k as int, arc_row(radius, k));
        assert(circle_points_upto(center, radius, columns)[i] == block[i - before.len()]);
        lemma_octant_distance(center, k as int, arc_row(radius, k), i - before.len());
    }
}

/// Every position of the outline of a circle lies in a narrow ring about the
/// ideal circle: the square of its distance from the centre is at least
/// `radius * radius - 3 * radius` and at most `radius * radius + radius`.
pub proof fn lemma_circle_near_circle(center: (int, int), radius: int, i: int)
    requires
        0 <= i < circle_points(center, radius).len(),
    ensures
        radius * radius - 3 * radius <= squared_distance(circle_points(center, radius)[i], center)
            <= radius * radius + radius,
{
    lemma_circle_near_upto(center, radius, arc_columns(radius), i);
}

/// A position of the four spans at the offset `(x, y)` is no further from
/// the centre than the offset is long.
proof fn lemma_span_distance(center: (int, int), x: int, y: int, j: int)
    requires
        0 <= x <= y,
        0 <= j < span_points(center, x, y).len(),
    ensures
        squared_distance(span_points(center, x, y)[j], center) <= x * x + y * y,
{
    let p = span_points(center, x, y)[j];
    let a = p.0 - center.0;
    let b = p.1 - center.1;
    assert((-x) * (-x) == x * x) by (nonlinear_arith);
    if j < 4 * y {
        assert((a == x || a == -x) && -y <= b <= y);
        assert(b * b <= y * y) by (nonlinear_arith)
            requires
                -y <= b <= y,
        ;
    } else {
        assert((b == x || b == -x) && -y <= a <= y);
        assert(a * a <= y * y) by (nonlinear_arith)
            requires
                -y <= a <= y,
        ;
    }
}

/// Every position that the first `columns` visited columns give to the disk
/// lies within the outer edge of the ring about the ideal circle.
proof fn lemma_disk_near_upto(center: (int, int), radius: int, columns: nat, i: int)
    requires
        columns <= arc_columns(radius),
        0 <= i < disk_points_upto(center, radius, columns).len(),
    ensures
        squared_distance(disk_points_upto(center, radius, columns)[i], center) <= radius * radius
            + radius,
    decreases columns,
{
    let k = (columns - 1) as nat;
    let before = disk_points_upto(center, radius, k);
    if i < before.len() {
        lemma_disk_near_upto(center, radius, k, i);
    } else {
        lemma_arc_near_circle(radius, k);
        lemma_arc_visited(radius, k);
        let block = span_points(center, k as int, arc_row(radius, k));
        assert(disk_points_upto(center, radius, columns)[i] == block[i - before.len()]);
        lemma_span_distance(center, k as int, arc_row(radius, k), i - before.len());
    }
}

/// Every position of a filled circle lies inside the outline's ring: the
/// square of its distance from the centre is at most `radius * radius +
/// radius`.
pub proof fn lemma_disk_inside_circle(center: (int, int), radius: int, i: int)
    requires
        0 <= i < disk_points(center, radius).len(),
    ensures
        squared_distance(disk_points(center, radius)[i], center) <= radius * radius + radius,
{
    lemma_disk_near_upto(center, radius, arc_columns(radius), i);
}

/// The column after the last one that the walk visits from column `j` on is
/// one that it does not visit.
proof fn lemma_arc_end_from(radius: int, j: nat)
    ensures
        ({
            let end = j + arc_columns_from(radius, j);
            end > radius || arc_row(radius, end) < end
        }),
    decreases radius + 1 - j,
{
    if j <= radius && arc_row(radius, j) >= j {
        lemma_arc_end_from(radius, j + 1);
    }
}

/// The octant walk visits every column whose doubled square is less than
/// `radius * radius - 3 * radius`: it does not stop before the diagonal of
/// the circle's inside.
proof fn lemma_arc_reaches(radius: int, k: nat)
    requires
        2 * (k * k) < radius * radius - 3 * radius,
        radius >= 0,
    ensures
        k < arc_columns(radius),
{
    let n = arc_columns(radius);
    if n <= k {
        lemma_arc_columns(radius);
        lemma_arc_end_from(radius, 0);
        lemma_arc_visited(radius, (n - 1) as nat);
        lemma_arc_row_bounds(radius, (n - 1) as nat);
        lemma_arc_floor(radius, n);
        let y = arc_row(radius, n);
        assert(n * n <= k * k) by (nonlinear_arith)
            requires
                0 <= n <= k,
        ;
        assert(n <= radius) by (nonlinear_arith)
            requires
                2 * (n * n) < radius * radius - 3 * radius,
                radius >= 0,
                n >= 0,
        ;
        assert(n - 2 <= y < n);
        assert(y * y <= n * n) by (nonlinear_arith)
            requires
                n - 2 <= y < n,
                n >= 1,
        ;
        assert(n >= radius - 1);
        assert(false) by (nonlinear_arith)
            requires
                2 * (n * n) < radius * radius - 3 * radius,
                n >= radius - 1,
                radius >= 0,
                n >= 1,
        ;
    }
}

/// The four spans at the offset `(x, y)` hold every position that lies in
/// one of the two columns `x` beside the centre, or in one of the two rows
/// `x` above and below it, less than `y` away from the centre along it.
proof fn lemma_span_has(center: (int, int), x: int, y: int, p: (int, int))
    requires
        ({
            let a = p.0 - center.0;
            let b = p.1 - center.1;
            ||| (a == x || a == -x) && -y <= b < y
            ||| (b == x || b == -x) && -y <= a < y
        }),
    ensures
        exists|j: int| 0 <= j < span_points(center, x, y).len() && span_points(center, x, y)[j] == p,
{
    let a = p.0 - center.0;
    let b = p.1 - center.1;
    let spans = span_points(center, x, y);
    assert(y > 0);
    assert(spans.len() == 8 * y);
    if a == x && -y <= b < y {
        assert(spans[b + y] == column_points(center.0 + x, center.1 - y, 2 * y)[b + y]);
        assert(spans[b + y] == p);
    } else if a == -x && -y <= b < y {
        assert(spans[3 * y + b] == column_points(center.0 - x, center.1 - y, 2 * y)[b + y]);
        assert(spans[3 * y + b] == p);
    } else if b == -x {
        assert(spans[5 * y + a] == row_points(center.0 - y, center.1 - x, 2 * y)[a + y]);
        assert(spans[5 * y + a] == p);
    } else {
        assert(spans[7 * y + a] == row_points(center.0 - y, center.1 + x, 2 * y)[a + y]);
        assert(spans[7 * y + a] == p);
    }
}

/// What the spans of a visited column hold, the disk holds.
proof fn lemma_disk_has(center: (int, int), radius: int, columns: nat, k: nat, j: int)
    requires
        k < columns,
        0 <= j < span_points(center, k as int, arc_row(radius, k)).len(),
    ensures
        exists|i: int|
            0 <= i < disk_points_upto(center, radius, columns).len() && disk_points_upto(
                center,
                radius,
                columns,
            )[i] == span_points(center, k as int, arc_row(radius, k))[j],
    decreases columns,
{
    let last = (columns - 1) as nat;
    let before = disk_points_upto(center, radius, last);
    let all = disk_points_upto(center, radius, columns);
    let wanted = span_points(center, k as int, arc_row(radius, k))[j];
    if k == last {
        assert(all[before.len() + j] == wanted);
    } else {
        lemma_disk_has(center, radius, last, k, j);
        let i = choose|i: int| 0 <= i < before.len() && before[i] == wanted;
        assert(all[i] == wanted);
    }
}

/// A filled circle covers the inside of the ideal circle: it holds every
/// position whose distance from the centre has a square of less than
/// `radius * radius - 3 * radius`.
pub proof fn lemma_disk_covers(center: (int, int), radius: int, p: (int, int))
    requires
        radius >= 0,
        squared_distance(p, center) < radius * radius - 3 * radius,
    ensures
        exists|i: int|
            0 <= i < disk_points(center, radius).len() && disk_points(center, radius)[i] == p,
{
    let a = p.0 - center.0;
    let b = p.1 - center.1;
    let wide = if a >= 0 { a } else { -a };
    let tall = if b >= 0 { b } else { -b };
    let k: nat = (if wide <= tall { wide } else { tall }) as nat;
    let m = if wide <= tall { tall } else { wide };
    assert(wide * wide == a * a && tall * tall == b * b) by (nonlinear_arith)
        requires
            wide == a || wide == -a,
            tall == b || tall == -b,
    ;
    assert(k * k <= m * m) by (nonlinear_arith)
        requires
            0 <= k <= m,
    ;
    assert(k * k + m * m == a * a + b * b);
    lemma_arc_reaches(radius, k);
    lemma_arc_near_circle(radius, k);
    lemma_arc_visited(radius, k);
    let y = arc_row(radius, k);
    assert(m < y) by (nonlinear_arith)
        requires
            k * k + m * m < radius * radius - 3 * radius,
            radius * radius - 3 * radius <= k * k + y * y,
            0 <= m,
            0 <= y,
    ;
    lemma_span_has(center, k as int, y, p);
    let j = choose|j: int|
        0 <= j < span_points(center, k as int, y).len() && span_points(center, k as int, y)[j]
            == p;
    lemma_disk_has(center, radius, arc_columns(radius), k, j);
    let all = disk_points_upto(center, radius, arc_columns(radius));
    let i = choose|i: int| 0 <= i < all.len() && all[i] == span_points(center, k as int, y)[j];
    assert(disk_points(center, radius)[i] == p);
}

/// What a frame shows once a filled circle has been painted into it: at
/// every position that it holds inside the ideal circle the circle's
/// colour, and at every position that it holds outside the ring about the
/// ideal circle the colour that was there before.
pub proof fn lemma_disk_shows(
    f: Frame,
    center: (int, int),
    radius: int,
    color: Color,
    p: (int, int),
)
    requires
        f.holds(p),
        radius >= 0,
    ensures
        squared_distance(p, center) < radius * radius - 3 * radius ==> f.paint(
            disk_points(center, radius),
            color,
        ).pixels[f.offset(p)] == color,
        squared_distance(p, center) > radius * radius + radius ==> f.paint(
            disk_points(center, radius),
            color,
        ).pixels[f.offset(p)] == f.pixels[f.offset(p)],
{
    let points = disk_points(center, radius);
    lemma_paint_shows(f, points, color, p);
    if squared_distance(p, center) < radius * radius - 3 * radius {
        lemma_disk_covers(center, radius, p);
    }
    if squared_distance(p, center) > radius * radius + radius && points.contains(p) {
        let i = choose|i: int| 0 <= i < points.len() && points[i] == p;
        lemma_disk_inside_circle(center, radius, i);
    }
}

/// What a frame shows once the outline of a circle has been painted into
/// it: at every position that it holds outside the ring about the ideal
/// circle, the colour that was there before.
pub proof fn lemma_circle_shows(
    f: Frame,
    center: (int, int),
    radius: int,
    color: Color,
    p: (int, int),
)
    requires
        f.holds(p),
        squared_distance(p, center) < radius * radius - 3 * radius || squared_distance(p, center)
            > radius * radius + radius,
    ensures
        f.paint(circle_points(center, radius), color).pixels[f.offset(p)] == f.pixels[f.offset(p)],
{
    let points = circle_points(center, radius);
    lemma_paint_shows(f, points, color, p);
    if points.contains(p) {
        let i = choose|i: int| 0 <= i < points.len() && points[i] == p;
        lemma_circle_near_circle(center, radius, i);
    }
}

/// What a frame shows once a line has been painted into it: outside the
/// box that the line's ends span, the colours that were there before.
pub proof fn lemma_line_shows(
    f: Frame,
    from: (int, int),
    to: (int, int),
    color: Color,
    p: (int, int),
)
    requires
        f.holds(p),
        !within_box(p, from, to),
    ensures
        f.paint(line_points(from, to), color).pixels[f.offset(p)] == f.pixels[f.offset(p)],
{
    let points = line_points(from, to);
    lemma_paint_shows(f, points, color, p);
    if points.contains(p) {
        let i = choose|i: int| 0 <= i < points.len() && points[i] == p;
        lemma_line_within_box(from, to, i);
    }
}

} // verus!
