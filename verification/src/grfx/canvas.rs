use crate::grfx::color::Color;
use crate::grfx::frame::Frame;
use crate::grfx::frame::lemma_paint_concat;
use crate::grfx::frame::lemma_paint_step;
use crate::grfx::frame::lemma_wf_kept;
use crate::grfx::shapes::arc_columns;
use crate::grfx::shapes::arc_columns_from;
use crate::grfx::shapes::arc_decision;
use crate::grfx::shapes::arc_row;
use crate::grfx::shapes::band_points;
use crate::grfx::shapes::circle_points;
use crate::grfx::shapes::circle_points_upto;
use crate::grfx::shapes::column_points;
use crate::grfx::shapes::disk_points;
use crate::grfx::shapes::disk_points_upto;
use crate::grfx::shapes::filled_rectangle_points;
use crate::grfx::shapes::lemma_ceil_div;
use crate::grfx::shapes::lemma_nearest;
use crate::grfx::shapes::line_points;
use crate::grfx::shapes::nearest;
use crate::grfx::shapes::octant_points;
use crate::grfx::shapes::path_points;
use crate::grfx::shapes::polygon_points;
use crate::grfx::shapes::positions;
use crate::grfx::shapes::rectangle_points;
use crate::grfx::shapes::row_points;
use crate::grfx::shapes::shallow_points;
use crate::grfx::shapes::shift;
use crate::grfx::shapes::span_points;
use crate::grfx::shapes::steep_points;
use crate::grfx::shapes::steep_steps;
use crate::grfx::shapes::triangle_points;
use crate::math::vector::Point2D;
use vstd::prelude::*;

verus! {

/// Bound on the coordinates that the shapes hand to their line segments:
/// every sum of two `i32` values lies within it.
const REACH: i64 = 0x2_0000_0000;

/// A rectangular buffer of pixels, stored row after row, that shapes are
/// drawn into.
pub struct Canvas {
    width: u32,
    height: u32,
    pixels: Vec<Color>,
}

impl Canvas {
    /// The canvas as a mathematical frame.
    pub closed spec fn view(&self) -> Frame {
        Frame { width: self.width as nat, height: self.height as nat, pixels: self.pixels@ }
    }

    /// A canvas of `width` by `height` pixels, all black.
    pub fn new(width: u32, height: u32) -> (canvas: Canvas)
        requires
            width * height <= usize::MAX,
        ensures
            canvas@.width == width,
            canvas@.height == height,
            canvas@.pixels == Seq::new((width * height) as nat, |i: int| Color::black()),
            canvas@.wf(),
    {
        let count: usize = (width as usize) * (height as usize);
        let mut pixels: Vec<Color> = Vec::with_capacity(count);
        let mut filled: usize = 0;
        while filled < count
            invariant
                filled <= count,
                pixels@ == Seq::new(filled as nat, |i: int| Color::black()),
            decreases count - filled,
        {
            pixels.push(Color::black());
            filled += 1;
        }
        Canvas { width, height, pixels }
    }

    /// Number of pixel columns.
    pub fn width(&self) -> (w: u32)
        ensures
            w == self@.width,
    {
        self.width
    }

    /// Number of pixel rows.
    pub fn height(&self) -> (h: u32)
        ensures
            h == self@.height,
    {
        self.height
    }

    /// The stored colours, row after row.
    pub fn pixels(&self) -> (stored: &Vec<Color>)
        ensures
            stored@ == self@.pixels,
    {
        &self.pixels
    }

    /// Sets every pixel to `color`.
    pub fn clear(&mut self, color: Color)
        ensures
            final(self)@ == old(self)@.fill(color),
            old(self)@.wf() ==> final(self)@.wf(),
    {
        let count = self.pixels.len();
        let mut done: usize = 0;
        while done < count
            invariant
                done <= count,
                count == self.pixels.len(),
                self.width == old(self).width,
                self.height == old(self).height,
                forall|i: int| 0 <= i < done ==> self.pixels@[i] == color,
            decreases count - done,
        {
            self.pixels.set(done, color);
            done += 1;
        }
        assert(self.pixels@ =~= Seq::new(old(self).pixels@.len(), |i: int| color));
    }

    /// Plots `color` at column `x`, row `y`; positions outside the canvas are
    /// ignored.
    pub fn plot(&mut self, x: i32, y: i32, color: Color)
        ensures
            final(self)@ == old(self)@.plot((x as int, y as int), color),
            old(self)@.wf() ==> final(self)@.wf(),
    {
        self.put(x as i64, y as i64, color);
    }

    /// `plot` for positions beyond the range of `i32`, which the shapes reach
    /// when they are drawn near the edge of that range.
    fn put(&mut self, x: i64, y: i64, color: Color)
        ensures
            final(self)@ == old(self)@.plot((x as int, y as int), color),
    {
        if x >= 0 && x < self.width as i64 && y >= 0 && y < self.height as i64 {
            assert(y * self.width + x <= u64::MAX) by (nonlinear_arith)
                requires
                    0 <= y < 0x1_0000_0000,
                    0 <= x < 0x1_0000_0000,
                    0 <= self.width < 0x1_0000_0000,
            ;
            let at: u64 = y as u64 * self.width as u64 + x as u64;
            if at < self.pixels.len() as u64 {
                self.pixels.set(at as usize, color);
            }
        }
    }

    /// Plots the column `x` from row `low` up to, not including, row `high`.
    fn column(&mut self, x: i64, low: i64, high: i64, color: Color)
        requires
            low <= high,
        ensures
            final(self)@ == old(self)@.paint(column_points(x as int, low as int, high - low), color),
    {
        let ghost points = column_points(x as int, low as int, high - low);
        let mut y = low;
        assert(points.take(0) =~= Seq::empty());
        while y < high
            invariant
                low <= y <= high,
                points == column_points(x as int, low as int, high - low),
                self@ == old(self)@.paint(points.take(y - low), color),
            decreases high - y,
        {
            proof {
                lemma_paint_step(old(self)@, points, y - low, color);
            }
            self.put(x, y, color);
            y += 1;
        }
        assert(points.take(high - low) =~= points);
    }

    /// Plots the row `y` from column `left` up to, not including, column
    /// `right`.
    fn row(&mut self, left: i64, right: i64, y: i64, color: Color)
        requires
            left <= right,
        ensures
            final(self)@ == old(self)@.paint(row_points(left as int, y as int, right - left), color),
    {
        let ghost points = row_points(left as int, y as int, right - left);
        let mut x = left;
        assert(points.take(0) =~= Seq::empty());
        while x < right
            invariant
                left <= x <= right,
                points == row_points(left as int, y as int, right - left),
                self@ == old(self)@.paint(points.take(x - left), color),
            decreases right - x,
        {
            proof {
                lemma_paint_step(old(self)@, points, x - left, color);
            }
            self.put(x, y, color);
            x += 1;
        }
        assert(points.take(right - left) =~= points);
    }

    /// Plots a line of slope at most one: a step along the columns each time,
    /// and a step along the rows whenever the decision variable says that the
    /// ideal line has come nearer to the next row.
    fn shallow(&mut self, left: i64, base: i64, run: i64, rise: i64, up: bool, color: Color)
        requires
            -REACH <= left <= REACH,
            -REACH <= base <= REACH,
            0 < rise <= run <= 2 * REACH,
        ensures
            final(self)@ == old(self)@.paint(
                shallow_points((left as int, base as int), run as int, rise as int, up),
                color,
            ),
    {
        let ghost points = shallow_points((left as int, base as int), run as int, rise as int, up);
        let right = left + run;
        let mut x = left;
        let mut y = base;
        let mut decision = 2 * rise - run;
        let ghost mut k: int = 0;
        let ghost mut rows: int = 0;
        let ghost mut k_rise: int = 0;
        let ghost mut run_rows: int = 0;
        proof {
            assert(0 * (rise as int) == 0) by (nonlinear_arith);
            lemma_nearest(0, run as int, 0);
            assert(points[0] == (x as int, y as int));
            assert(points.take(0) =~= Seq::empty());
            lemma_paint_step(old(self)@, points, 0, color);
        }
        self.put(x, y, color);
        while x < right
            invariant
                -REACH <= left <= REACH,
                -REACH <= base <= REACH,
                0 < rise <= run <= 2 * REACH,
                right == left + run,
                points == shallow_points((left as int, base as int), run as int, rise as int, up),
                0 <= rows <= k <= run,
                x == left + k,
                y == shift(base as int, rows, up),
                k_rise == k * rise,
                run_rows == run * rows,
                0 <= 2 * k_rise + run - 2 * run_rows < 2 * run,
                decision == 2 * k_rise + 2 * rise - run - 2 * run_rows,
                self@ == old(self)@.paint(points.take(k + 1), color),
            decreases right - x,
        {
            x += 1;
            if decision < 0 {
                decision = decision + 2 * rise;
            } else {
                y = if up {
                    y + 1
                } else {
                    y - 1
                };
                decision = decision + 2 * (rise - run);
                proof {
                    assert(run * (rows + 1) == run * rows + run) by (nonlinear_arith);
                    rows = rows + 1;
                    run_rows = run_rows + run;
                }
            }
            proof {
                assert((k + 1) * rise == k * rise + rise) by (nonlinear_arith);
                k = k + 1;
                k_rise = k_rise + rise;
                lemma_nearest(k * rise, run as int, rows);
                assert(points[k] == (x as int, y as int));
                lemma_paint_step(old(self)@, points, k, color);
            }
            self.put(x, y, color);
        }
        assert(points.take(run + 1) =~= points);
    }

    /// Plots a line of slope above one: a step along the rows each time, and a
    /// step along the columns whenever the decision variable says that the
    /// ideal line has come nearer to the next column. The line ends as soon
    /// as it has reached the last column.
    fn steep(&mut self, left: i64, base: i64, run: i64, rise: i64, up: bool, color: Color)
        requires
            -REACH <= left <= REACH,
            -REACH <= base <= REACH,
            0 < run < rise <= 2 * REACH,
        ensures
            final(self)@ == old(self)@.paint(
                steep_points((left as int, base as int), run as int, rise as int, up),
                color,
            ),
    {
        let ghost points = steep_points((left as int, base as int), run as int, rise as int, up);
        let ghost steps = steep_steps(run as int, rise as int);
        let ghost area: int = rise * run;
        let right = left + run;
        let mut x = left;
        let mut y = base;
        let mut decision = 2 * run - rise;
        let ghost mut k: int = 0;
        let ghost mut columns: int = 0;
        let ghost mut k_run: int = 0;
        let ghost mut rise_columns: int = 0;
        proof {
            assert(0 * (run as int) == 0) by (nonlinear_arith);
            lemma_nearest(0, rise as int, 0);
            assert(rise * (2 * run - 1) == 2 * area - rise) by (nonlinear_arith)
                requires
                    area == rise * run,
            ;
            assert(0 * (2 * run) < 2 * area - rise) by (nonlinear_arith)
                requires
                    area == rise * run,
                    0 < run < rise,
            ;
            lemma_ceil_div(2 * area - rise, 2 * run, 0);
            assert(points[0] == (x as int, y as int));
            assert(points.take(0) =~= Seq::empty());
            lemma_paint_step(old(self)@, points, 0, color);
        }
        self.put(x, y, color);
        while x < right
            invariant
                -REACH <= left <= REACH,
                -REACH <= base <= REACH,
                0 < run < rise <= 2 * REACH,
                right == left + run,
                points == steep_points((left as int, base as int), run as int, rise as int, up),
                steps == steep_steps(run as int, rise as int),
                area == rise * run,
                rise * (2 * run - 1) == 2 * area - rise,
                0 <= columns <= run,
                0 <= k <= steps,
                k <= rise,
                x == left + columns,
                y == shift(base as int, k, up),
                k_run == k * run,
                rise_columns == rise * columns,
                0 <= 2 * k_run + rise - 2 * rise_columns < 2 * rise,
                decision == 2 * k_run + 2 * run - rise - 2 * rise_columns,
                k > 0 ==> 2 * (k_run - run) < 2 * area - rise,
                self@ == old(self)@.paint(points.take(k + 1), color),
            decreases rise - k,
        {
            proof {
                // The column has not reached the far end, so neither has the
                // count of steps.
                assert(2 * k_run < 2 * area - rise) by (nonlinear_arith)
                    requires
                        area == rise * run,
                        rise_columns == rise * columns,
                        0 <= columns < run,
                        0 < rise,
                        2 * k_run + rise - 2 * rise_columns < 2 * rise,
                ;
                assert(k * (2 * run) == 2 * k_run) by (nonlinear_arith)
                    requires
                        k_run == k * run,
                ;
                lemma_ceil_div(2 * area - rise, 2 * run, k);
                assert(k < rise) by (nonlinear_arith)
                    requires
                        k_run == k * run,
                        area == rise * run,
                        2 * k_run < 2 * area - rise,
                        0 < run,
                        0 < rise,
                ;
            }
            y = if up {
                y + 1
            } else {
                y - 1
            };
            if decision < 0 {
                decision = decision + 2 * run;
            } else {
                x += 1;
                decision = decision + 2 * (run - rise);
                proof {
                    assert(rise * (columns + 1) == rise * columns + rise) by (nonlinear_arith);
                    columns = columns + 1;
                    rise_columns = rise_columns + rise;
                }
            }
            proof {
                assert((k + 1) * run == k * run + run) by (nonlinear_arith);
                k = k + 1;
                k_run = k_run + run;
                lemma_nearest(k * run, rise as int, columns);
                assert(columns <= run) by (nonlinear_arith)
                    requires
                        rise_columns == rise * columns,
                        area == rise * run,
                        2 * (k_run - run) < 2 * area - rise,
                        0 <= 2 * k_run + rise - 2 * rise_columns,
                        0 < run < rise,
                ;
                assert(points[k] == (x as int, y as int));
                lemma_paint_step(old(self)@, points, k, color);
            }
            self.put(x, y, color);
        }
        proof {
            // The walk stopped at the first step that reached the last
            // column, which is where the sequence ends too.
            assert(k > 0);
            assert(2 * k_run >= 2 * area - rise) by (nonlinear_arith)
                requires
                    area == rise * run,
                    rise_columns == rise * columns,
                    columns == run,
                    0 <= 2 * k_run + rise - 2 * rise_columns,
            ;
            assert(k * (2 * run) == 2 * k_run) by (nonlinear_arith)
                requires
                    k_run == k * run,
            ;
            assert((k - 1) * (2 * run) == 2 * (k_run - run)) by (nonlinear_arith)
                requires
                    k_run == k * run,
            ;
            lemma_ceil_div(2 * area - rise, 2 * run, k);
            lemma_ceil_div(2 * area - rise, 2 * run, k - 1);
            assert(k == steps);
            assert(points.take(k + 1) =~= points);
        }
    }

    /// Plots the line between two positions that may lie beyond the range of
    /// `i32`.
    fn segment(&mut self, x0: i64, y0: i64, x1: i64, y1: i64, color: Color)
        requires
            -REACH <= x0 <= REACH,
            -REACH <= y0 <= REACH,
            -REACH <= x1 <= REACH,
            -REACH <= y1 <= REACH,
        ensures
            final(self)@ == old(self)@.paint(
                line_points((x0 as int, y0 as int), (x1 as int, y1 as int)),
                color,
            ),
    {
        let forward = x1 >= x0;
        let left = if forward { x0 } else { x1 };
        let base = if forward { y0 } else { y1 };
        let right = if forward { x1 } else { x0 };
        let end = if forward { y1 } else { y0 };
        let run = right - left;
        let up = end >= base;
        let rise = if up { end - base } else { base - end };
        if run == 0 {
            self.column(left, if up { base } else { end }, if up { end } else { base }, color);
        } else if rise == 0 {
            self.row(left, right, base, color);
        } else if rise <= run {
            self.shallow(left, base, run, rise, up, color);
        } else {
            self.steep(left, base, run, rise, up, color);
        }
    }

    /// Draws the line between `(x0, y0)` and `(x1, y1)`.
    pub fn line(&mut self, x0: i32, y0: i32, x1: i32, y1: i32, color: Color)
        ensures
            final(self)@ == old(self)@.paint(
                line_points((x0 as int, y0 as int), (x1 as int, y1 as int)),
                color,
            ),
            old(self)@.wf() ==> final(self)@.wf(),
    {
        proof {
            lemma_wf_kept(
                old(self)@,
                line_points((x0 as int, y0 as int), (x1 as int, y1 as int)),
                color,
            );
        }
        self.segment(x0 as i64, y0 as i64, x1 as i64, y1 as i64, color);
    }

    /// Draws the line between `origin` and `dest`, stepping with an integer
    /// decision variable.
    pub fn line_between(&mut self, origin: Point2D, dest: Point2D, color: Color)
        ensures
            final(self)@ == old(self)@.paint(line_points(origin@, dest@), color),
            old(self)@.wf() ==> final(self)@.wf(),
    {
        proof {
            lemma_wf_kept(old(self)@, line_points(origin@, dest@), color);
        }
        self.segment(origin.x as i64, origin.y as i64, dest.x as i64, dest.y as i64, color);
    }

    /// Plots the eight reflections of the offset `(x, y)` about the centre.
    fn octants(&mut self, cx: i64, cy: i64, x: i64, y: i64, color: Color)
        requires
            -REACH <= cx <= REACH,
            -REACH <= cy <= REACH,
            -REACH <= x <= REACH,
            -REACH <= y <= REACH,
        ensures
            final(self)@ == old(self)@.paint(
                octant_points((cx as int, cy as int), x as int, y as int),
                color,
            ),
    {
        let ghost start = self@;
        let ghost points = octant_points((cx as int, cy as int), x as int, y as int);
        proof {
            assert(points.take(0) =~= Seq::empty());
            lemma_paint_step(start, points, 0, color);
            lemma_paint_step(start, points, 1, color);
            lemma_paint_step(start, points, 2, color);
            lemma_paint_step(start, points, 3, color);
            lemma_paint_step(start, points, 4, color);
            lemma_paint_step(start, points, 5, color);
            lemma_paint_step(start, points, 6, color);
            lemma_paint_step(start, points, 7, color);
            assert(points.take(8) =~= points);
        }
        self.put(cx + x, cy + y, color);
        self.put(cx - x, cy + y, color);
        self.put(cx + x, cy - y, color);
        self.put(cx - x, cy - y, color);
        self.put(cx + y, cy + x, color);
        self.put(cx - y, cy + x, color);
        self.put(cx + y, cy - x, color);
        self.put(cx - y, cy - x, color);
    }

    /// Draws the outline of the circle about `origin`: the walk along one
    /// octant, reflected into the other seven.
    pub fn circle(&mut self, origin: Point2D, radius: i32, color: Color)
        ensures
            final(self)@ == old(self)@.paint(circle_points(origin@, radius as int), color),
            old(self)@.wf() ==> final(self)@.wf(),
    {
        let cx = origin.x as i64;
        let cy = origin.y as i64;
        let mut x: i64 = 0;
        let mut y: i64 = radius as i64;
        let mut decision: i128 = 3 - 2 * (radius as i128);
        let ghost center = origin@;
        assert(arc_decision(radius as int, 0, radius as int) == 3 - 2 * radius) by (nonlinear_arith);
        proof {
            lemma_wf_kept(old(self)@, circle_points(origin@, radius as int), color);
        }
        while y >= x
            invariant
                cx == origin.x,
                cy == origin.y,
                center == origin@,
                0 <= x,
                x == 0 || x <= y + 2,
                y <= radius,
                y == arc_row(radius as int, x as nat),
                decision == arc_decision(radius as int, x as int, y as int),
                arc_columns(radius as int) == x + arc_columns_from(radius as int, x as nat),
                self@ == old(self)@.paint(
                    circle_points_upto(center, radius as int, x as nat),
                    color,
                ),
            decreases y - x + 2,
        {
            proof {
                lemma_paint_concat(
                    old(self)@,
                    circle_points_upto(center, radius as int, x as nat),
                    octant_points(center, x as int, y as int),
                    color,
                );
                lemma_arc_step(radius as int, x as int, y as int);
            }
            self.octants(cx, cy, x, y, color);
            x += 1;
            if decision > 0 {
                y -= 1;
                decision = decision + 4 * ((x - y) as i128) + 10;
            } else {
                decision = decision + 4 * (x as i128) + 6;
            }
        }
    }

    /// Draws the filled circle about `origin`: for each offset of the octant
    /// walk, two vertical and two horizontal spans through the disk.
    pub fn filled_circle(&mut self, origin: Point2D, radius: i32, color: Color)
        ensures
            final(self)@ == old(self)@.paint(disk_points(origin@, radius as int), color),
            old(self)@.wf() ==> final(self)@.wf(),
    {
        let cx = origin.x as i64;
        let cy = origin.y as i64;
        let mut x: i64 = 0;
        let mut y: i64 = radius as i64;
        let mut decision: i128 = 3 - 2 * (radius as i128);
        let ghost center = origin@;
        assert(arc_decision(radius as int, 0, radius as int) == 3 - 2 * radius) by (nonlinear_arith);
        proof {
            lemma_wf_kept(old(self)@, disk_points(origin@, radius as int), color);
        }
        while y >= x
            invariant
                cx == origin.x,
                cy == origin.y,
                center == origin@,
                0 <= x,
                x == 0 || x <= y + 2,
                y <= radius,
                y == arc_row(radius as int, x as nat),
                decision == arc_decision(radius as int, x as int, y as int),
                arc_columns(radius as int) == x + arc_columns_from(radius as int, x as nat),
                self@ == old(self)@.paint(disk_points_upto(center, radius as int, x as nat), color),
            decreases y - x + 2,
        {
            let ghost before = self@;
            let ghost right = column_points(cx + x, cy - y, 2 * y);
            let ghost left = column_points(cx - x, cy - y, 2 * y);
            let ghost above = row_points(cx - y, cy - x, 2 * y);
            let ghost below = row_points(cx - y, cy + x, 2 * y);
            proof {
                lemma_paint_concat(
                    old(self)@,
                    disk_points_upto(center, radius as int, x as nat),
                    span_points(center, x as int, y as int),
                    color,
                );
                lemma_paint_concat(before, right + left + above, below, color);
                lemma_paint_concat(before, right + left, above, color);
                lemma_paint_concat(before, right, left, color);
                lemma_arc_step(radius as int, x as int, y as int);
                assert(line_points((cx + x, cy - y), (cx + x, cy + y)) =~= right);
                assert(line_points((cx - x, cy - y), (cx - x, cy + y)) =~= left);
                assert(line_points((cx - y, cy - x), (cx + y, cy - x)) =~= above);
                assert(line_points((cx - y, cy + x), (cx + y, cy + x)) =~= below);
            }
            self.segment(cx + x, cy - y, cx + x, cy + y, color);
            self.segment(cx - x, cy - y, cx - x, cy + y, color);
            self.segment(cx - y, cy - x, cx + y, cy - x, color);
            self.segment(cx - y, cy + x, cx + y, cy + x, color);
            x += 1;
            if decision > 0 {
                y -= 1;
                decision = decision + 4 * ((x - y) as i128) + 10;
            } else {
                decision = decision + 4 * (x as i128) + 6;
            }
        }
    }

    /// Draws the outline of the rectangle whose top left corner is `origin`.
    pub fn rectangle(&mut self, origin: Point2D, width: i32, height: i32, color: Color)
        ensures
            final(self)@ == old(self)@.paint(
                rectangle_points(origin@, width as int, height as int),
                color,
            ),
            old(self)@.wf() ==> final(self)@.wf(),
    {
        let left = origin.x as i64;
        let top = origin.y as i64;
        let right = left + width as i64;
        let bottom = top + height as i64;
        let ghost start = self@;
        let ghost a = line_points((left as int, top as int), (right as int, top as int));
        let ghost b = line_points((left as int, top as int), (left as int, bottom as int));
        let ghost c = line_points((left as int, bottom as int), (right as int, bottom as int));
        let ghost d = line_points((right as int, top as int), (right as int, bottom as int));
        proof {
            lemma_wf_kept(start, rectangle_points(origin@, width as int, height as int), color);
            lemma_paint_concat(start, a + b + c, d, color);
            lemma_paint_concat(start, a + b, c, color);
            lemma_paint_concat(start, a, b, color);
        }
        self.segment(left, top, right, top, color);
        self.segment(left, top, left, bottom, color);
        self.segment(left, bottom, right, bottom, color);
        self.segment(right, top, right, bottom, color);
    }

    /// Draws the filled rectangle whose top left corner is `origin`, row by
    /// row.
    pub fn filled_rectangle(&mut self, origin: Point2D, width: i32, height: i32, color: Color)
        ensures
            final(self)@ == old(self)@.paint(
                filled_rectangle_points(origin@, width as int, height as int),
                color,
            ),
            old(self)@.wf() ==> final(self)@.wf(),
    {
        let left = origin.x as i64;
        let top = origin.y as i64;
        let right = left + width as i64;
        let rows: i64 = if height >= 0 {
            height as i64 + 1
        } else {
            0
        };
        let mut i: i64 = 0;
        proof {
            lemma_wf_kept(
                old(self)@,
                filled_rectangle_points(origin@, width as int, height as int),
                color,
            );
        }
        while i < rows
            invariant
                0 <= i <= rows <= 0x8000_0000,
                left == origin.x,
                top == origin.y,
                right == left + width,
                self@ == old(self)@.paint(band_points(origin@, width as int, i as nat), color),
            decreases rows - i,
        {
            proof {
                lemma_paint_concat(
                    old(self)@,
                    band_points(origin@, width as int, i as nat),
                    line_points((left as int, top + i), (right as int, top + i)),
                    color,
                );
            }
            self.segment(left, top + i, right, top + i, color);
            i += 1;
        }
    }

    /// Draws the three sides of the triangle `v1`, `v2`, `v3`.
    pub fn triangle(&mut self, v1: Point2D, v2: Point2D, v3: Point2D, color: Color)
        ensures
            final(self)@ == old(self)@.paint(triangle_points(v1@, v2@, v3@), color),
            old(self)@.wf() ==> final(self)@.wf(),
    {
        let ghost start = self@;
        proof {
            lemma_paint_concat(
                start,
                line_points(v1@, v2@) + line_points(v2@, v3@),
                line_points(v3@, v1@),
                color,
            );
            lemma_paint_concat(start, line_points(v1@, v2@), line_points(v2@, v3@), color);
        }
        self.line_between(v1, v2, color);
        self.line_between(v2, v3, color);
        self.line_between(v3, v1, color);
    }

    /// Draws the lines that join each of `vertices` to the next, leaving the
    /// figure open.
    pub fn path(&mut self, vertices: &Vec<Point2D>, color: Color)
        ensures
            final(self)@ == old(self)@.paint(path_points(positions(vertices@)), color),
            old(self)@.wf() ==> final(self)@.wf(),
    {
        let count = vertices.len();
        let ghost all = positions(vertices@);
        proof {
            lemma_wf_kept(old(self)@, path_points(all), color);
        }
        if count < 2 {
            return ;
        }
        let mut i: usize = 1;
        assert(all.take(1).len() < 2);
        while i < count
            invariant
                1 <= i <= count,
                count == vertices.len(),
                all == positions(vertices@),
                self@ == old(self)@.paint(path_points(all.take(i as int)), color),
            decreases count - i,
        {
            proof {
                let next = all.take(i + 1);
                assert(next.drop_last() =~= all.take(i as int));
                lemma_paint_concat(
                    old(self)@,
                    path_points(all.take(i as int)),
                    line_points(all[i - 1], all[i as int]),
                    color,
                );
            }
            self.line_between(vertices[i - 1], vertices[i], color);
            i += 1;
        }
        assert(all.take(count as int) =~= all);
    }

    /// Draws the closed polygon through `vertices`; fewer than three
    /// vertices draw nothing.
    pub fn polygon(&mut self, vertices: &Vec<Point2D>, color: Color)
        ensures
            final(self)@ == old(self)@.paint(polygon_points(positions(vertices@)), color),
            old(self)@.wf() ==> final(self)@.wf(),
    {
        let count = vertices.len();
        if count >= 3 {
            proof {
                lemma_paint_concat(
                    old(self)@,
                    path_points(positions(vertices@)),
                    line_points(positions(vertices@).last(), positions(vertices@).first()),
                    color,
                );
            }
            self.path(vertices, color);
            self.line_between(vertices[count - 1], vertices[0], color);
        }
    }
}

/// One column of the octant walk: how the decision value moves to the next
/// column, with and without a step towards the centre, and how far it is
/// from overflowing.
proof fn lemma_arc_step(radius: int, x: int, y: int)
    requires
        -0x1_0000_0000 <= radius <= 0x1_0000_0000,
        0 <= x <= y + 2,
        y <= radius,
    ensures
        arc_decision(radius, x + 1, y) == arc_decision(radius, x, y) + 4 * (x + 1) + 6,
        arc_decision(radius, x + 1, y - 1) == arc_decision(radius, x, y) + 4 * ((x + 1) - (y - 1))
            + 10,
        -0x100_0000_0000_0000_0000 < arc_decision(radius, x, y) < 0x100_0000_0000_0000_0000,
{
    assert((x + 1) * (x + 1) == x * x + 2 * x + 1) by (nonlinear_arith);
    assert((y - 1) * (y - 1) == y * y - 2 * y + 1) by (nonlinear_arith);
    assert(0 <= x * x <= 0x1_0000_0002 * 0x1_0000_0002) by (nonlinear_arith)
        requires
            0 <= x <= 0x1_0000_0002,
    ;
    assert(0 <= y * y <= 0x1_0000_0002 * 0x1_0000_0002) by (nonlinear_arith)
        requires
            -2 <= y <= 0x1_0000_0002,
    ;
    assert(0 <= radius * radius <= 0x1_0000_0002 * 0x1_0000_0002) by (nonlinear_arith)
        requires
            -0x1_0000_0002 <= radius <= 0x1_0000_0002,
    ;
}

} // verus!
