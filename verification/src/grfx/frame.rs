use crate::grfx::color::Color;
use vstd::prelude::*;

verus! {

/// The mathematical content of a canvas: its nominal size and the colours it
/// stores, row after row.
///
/// Nothing forces the number of stored colours to match the nominal size;
/// [`Frame::wf`] says that it does.
pub struct Frame {
    pub width: nat,
    pub height: nat,
    pub pixels: Seq<Color>,
}

impl Frame {
    /// One stored colour for every position of the `width` by `height` grid.
    pub open spec fn wf(self) -> bool {
        self.pixels.len() == self.width * self.height
    }

    /// Row-major offset of the position `p`.
    pub open spec fn offset(self, p: (int, int)) -> int {
        p.1 * self.width + p.0
    }

    /// Whether `p` is a position that plotting can change: inside the grid,
    /// and backed by a stored colour.
    pub open spec fn holds(self, p: (int, int)) -> bool {
        &&& 0 <= p.0 < self.width
        &&& 0 <= p.1 < self.height
        &&& self.offset(p) < self.pixels.len()
    }

    /// The frame after plotting `color` at `p`: that one colour replaced when
    /// the frame holds `p`, nothing changed otherwise.
    pub open spec fn plot(self, p: (int, int), color: Color) -> Frame {
        if self.holds(p) {
            Frame { pixels: self.pixels.update(self.offset(p), color), ..self }
        } else {
            self
        }
    }

    /// The frame after plotting `color` at each position of `points`, first to
    /// last.
    pub open spec fn paint(self, points: Seq<(int, int)>, color: Color) -> Frame
        decreases points.len(),
    {
        if points.len() == 0 {
            self
        } else {
            self.paint(points.drop_last(), color).plot(points.last(), color)
        }
    }

    /// The frame with every stored colour replaced by `color`.
    pub open spec fn fill(self, color: Color) -> Frame {
        Frame { pixels: Seq::new(self.pixels.len(), |i: int| color), ..self }
    }
}

/// Painting keeps the frame's size and the number of stored colours.
pub proof fn lemma_paint_shape(f: Frame, points: Seq<(int, int)>, color: Color)
    ensures
        f.paint(points, color).width == f.width,
        f.paint(points, color).height == f.height,
        f.paint(points, color).pixels.len() == f.pixels.len(),
    decreases points.len(),
{
    if points.len() > 0 {
        lemma_paint_shape(f, points.drop_last(), color);
    }
}

/// Painting and filling keep a well-formed frame well formed.
pub proof fn lemma_wf_kept(f: Frame, points: Seq<(int, int)>, color: Color)
    ensures
        f.paint(points, color).wf() == f.wf(),
        f.fill(color).wf() == f.wf(),
{
    lemma_paint_shape(f, points, color);
}

/// Painting the first `k + 1` positions is painting the first `k`, then
/// plotting the next.
pub proof fn lemma_paint_step(f: Frame, points: Seq<(int, int)>, k: int, color: Color)
    requires
        0 <= k < points.len(),
    ensures
        f.paint(points.take(k + 1), color) == f.paint(points.take(k), color).plot(
            points[k],
            color,
        ),
{
    assert(points.take(k + 1).drop_last() =~= points.take(k));
    assert(points.take(k + 1).last() == points[k]);
}

/// Painting a concatenation is painting its parts one after the other.
pub proof fn lemma_paint_concat(
    f: Frame,
    first: Seq<(int, int)>,
    second: Seq<(int, int)>,
    color: Color,
)
    ensures
        f.paint(first + second, color) == f.paint(first, color).paint(second, color),
    decreases second.len(),
{
    if second.len() == 0 {
        assert(first + second =~= first);
    } else {
        lemma_paint_concat(f, first, second.drop_last(), color);
        assert((first + second).drop_last() =~= first + second.drop_last());
        assert((first + second).last() == second.last());
    }
}

/// What painting leaves at each stored offset: `color` where some painted
/// position that the frame holds lands on it, and the earlier colour
/// elsewhere.
pub proof fn lemma_paint_pixels(f: Frame, points: Seq<(int, int)>, color: Color, i: int)
    requires
        0 <= i < f.pixels.len(),
    ensures
        f.paint(points, color).pixels[i] == if exists|k: int|
            0 <= k < points.len() && f.holds(#[trigger] points[k]) && f.offset(points[k]) == i {
            color
        } else {
            f.pixels[i]
        },
    decreases points.len(),
{
    if points.len() > 0 {
        let front = points.drop_last();
        let before = f.paint(front, color);
        lemma_paint_pixels(f, front, color, i);
        lemma_paint_shape(f, front, color);
        let last = points.len() - 1;
        let hit_front = exists|k: int|
            0 <= k < front.len() && f.holds(#[trigger] front[k]) && f.offset(front[k]) == i;
        let hit = exists|k: int|
            0 <= k < points.len() && f.holds(#[trigger] points[k]) && f.offset(points[k]) == i;
        assert(before.holds(points[last]) == f.holds(points[last]));
        assert(before.offset(points[last]) == f.offset(points[last]));
        if hit_front {
            let k = choose|k: int|
                0 <= k < front.len() && f.holds(#[trigger] front[k]) && f.offset(front[k]) == i;
            assert(points[k] == front[k]);
            assert(hit);
        } else if f.holds(points[last]) && f.offset(points[last]) == i {
            assert(hit);
        } else {
            if hit {
                let k = choose|k: int|
                    0 <= k < points.len() && f.holds(#[trigger] points[k]) && f.offset(points[k])
                        == i;
                assert(k < last);
                assert(front[k] == points[k]);
                assert(false);
            }
        }
    }
}

/// Two positions that a frame holds share an offset only if they are the
/// same position.
pub proof fn lemma_offset_distinct(f: Frame, p: (int, int), q: (int, int))
    requires
        f.holds(p),
        f.holds(q),
        f.offset(p) == f.offset(q),
    ensures
        p == q,
{
    let w = f.width as int;
    assert(p.1 == q.1) by (nonlinear_arith)
        requires
            p.1 * w + p.0 == q.1 * w + q.0,
            0 <= p.0 < w,
            0 <= q.0 < w,
    ;
    assert(p.1 * w == q.1 * w);
}

/// What painting shows at a position that the frame holds: `color` where
/// the position is among those painted, and the earlier colour where it is
/// not.
pub proof fn lemma_paint_shows(f: Frame, points: Seq<(int, int)>, color: Color, p: (int, int))
    requires
        f.holds(p),
    ensures
        f.paint(points, color).pixels[f.offset(p)] == if points.contains(p) {
            color
        } else {
            f.pixels[f.offset(p)]
        },
{
    let i = f.offset(p);
    assert(0 <= i) by (nonlinear_arith)
        requires
            i == p.1 * f.width + p.0,
            0 <= p.0,
            0 <= p.1,
            0 <= f.width,
    ;
    lemma_paint_pixels(f, points, color, i);
    let hit = exists|k: int|
        0 <= k < points.len() && f.holds(#[trigger] points[k]) && f.offset(points[k]) == i;
    if points.contains(p) {
        let k = choose|k: int| 0 <= k < points.len() && points[k] == p;
        assert(f.holds(points[k]) && f.offset(points[k]) == i);
    } else if hit {
        let k = choose|k: int|
            0 <= k < points.len() && f.holds(#[trigger] points[k]) && f.offset(points[k]) == i;
        lemma_offset_distinct(f, points[k], p);
        assert(points.contains(p));
    }
}

/// With one colour the plotting order does not matter: two sequences that
/// hold the same positions paint the same frame.
pub proof fn lemma_paint_same_positions(
    f: Frame,
    first: Seq<(int, int)>,
    second: Seq<(int, int)>,
    color: Color,
)
    requires
        forall|p: (int, int)| first.contains(p) <==> second.contains(p),
    ensures
        f.paint(first, color) == f.paint(second, color),
{
    let a = f.paint(first, color);
    let b = f.paint(second, color);
    lemma_paint_shape(f, first, color);
    lemma_paint_shape(f, second, color);
    assert forall|i: int| 0 <= i < a.pixels.len() implies a.pixels[i] == b.pixels[i] by {
        lemma_paint_pixels(f, first, color, i);
        lemma_paint_pixels(f, second, color, i);
        let hit_first = exists|k: int|
            0 <= k < first.len() && f.holds(#[trigger] first[k]) && f.offset(first[k]) == i;
        let hit_second = exists|k: int|
            0 <= k < second.len() && f.holds(#[trigger] second[k]) && f.offset(second[k]) == i;
        if hit_first {
            let k = choose|k: int|
                0 <= k < first.len() && f.holds(#[trigger] first[k]) && f.offset(first[k]) == i;
            assert(first.contains(first[k]));
            let j = choose|j: int| 0 <= j < second.len() && second[j] == first[k];
            assert(f.holds(second[j]) && f.offset(second[j]) == i);
        }
        if hit_second {
            let k = choose|k: int|
                0 <= k < second.len() && f.holds(#[trigger] second[k]) && f.offset(second[k]) == i;
            assert(second.contains(second[k]));
            let j = choose|j: int| 0 <= j < first.len() && first[j] == second[k];
            assert(f.holds(first[j]) && f.offset(first[j]) == i);
        }
    }
    assert(a.pixels =~= b.pixels);
}

} // verus!
