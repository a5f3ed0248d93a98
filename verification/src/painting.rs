//! The decorative painting: a canvas revealed stroke by stroke.
//!
//! The stroke list itself comes from an outside generator; the library owns
//! the canvas, applies strokes in order, tracks progress, and reports the
//! last visible point of each stroke. `apply_one`, `apply_batch` and
//! `batch_results` give the mathematical meaning of every mutation.

use vstd::prelude::*;
use vstd::arithmetic::mul::{
    lemma_mul_inequality, lemma_mul_is_commutative, lemma_mul_is_distributive_add_other_way,
    lemma_mul_left_inequality, lemma_mul_nonnegative,
};
use crate::color::Rgb;

verus! {

/// One brush stroke: points painted in order, all in one color.
#[derive(Clone, Debug)]
pub struct BrushStroke {
    pub points: Vec<(usize, usize)>,
    pub color: Rgb,
}

/// The mathematical value of a `BrushStroke`.
#[verifier::ext_equal]
pub ghost struct StrokeModel {
    pub points: Seq<(usize, usize)>,
    pub color: Rgb,
}

impl View for BrushStroke {
    type V = StrokeModel;

    open spec fn view(&self) -> StrokeModel {
        StrokeModel { points: self.points@, color: self.color }
    }
}

/// The painting state: the canvas, the stroke list, and how far the reveal
/// has come.
#[derive(Clone, Debug)]
pub struct MonaLisaPainting {
    pub canvas: Vec<Vec<Rgb>>,
    pub reveal_progress: usize,
    pub brush_strokes: Vec<BrushStroke>,
    pub current_stroke: usize,
    pub painting_complete: bool,
    pub width: usize,
    pub height: usize,
}

/// The mathematical value of a `MonaLisaPainting`.
#[verifier::ext_equal]
pub ghost struct PaintingModel {
    pub canvas: Seq<Seq<Rgb>>,
    pub reveal_progress: int,
    pub strokes: Seq<StrokeModel>,
    pub current_stroke: int,
    pub complete: bool,
}

impl View for MonaLisaPainting {
    type V = PaintingModel;

    open spec fn view(&self) -> PaintingModel {
        PaintingModel {
            canvas: self.canvas@.map_values(|row: Vec<Rgb>| row@),
            reveal_progress: self.reveal_progress as int,
            strokes: self.brush_strokes@.map_values(|s: BrushStroke| s@),
            current_stroke: self.current_stroke as int,
            complete: self.painting_complete,
        }
    }
}

/// The background color a fresh canvas is filled with.
pub open spec fn spec_canvas_background() -> Rgb {
    Rgb { r: 240, g: 235, b: 220 }
}

/// Builds the background color.
pub fn canvas_background() -> (c: Rgb)
    ensures
        c == spec_canvas_background(),
{
    Rgb { r: 240, g: 235, b: 220 }
}

/// A `width` x `height` canvas entirely in the background color.
pub open spec fn blank_canvas(width: int, height: int) -> Seq<Seq<Rgb>> {
    Seq::new(height as nat, |j: int| Seq::new(width as nat, |i: int| spec_canvas_background()))
}

/// Painting one point: an in-range point recolors its pixel, any other
/// point changes nothing.
pub open spec fn paint_point(canvas: Seq<Seq<Rgb>>, p: (usize, usize), color: Rgb) -> Seq<Seq<Rgb>> {
    if (p.1 as int) < canvas.len() && (p.0 as int) < canvas[p.1 as int].len() {
        canvas.update(p.1 as int, canvas[p.1 as int].update(p.0 as int, color))
    } else {
        canvas
    }
}

/// Painting a list of points in order.
pub open spec fn paint_points(canvas: Seq<Seq<Rgb>>, points: Seq<(usize, usize)>, color: Rgb) -> Seq<Seq<Rgb>>
    decreases points.len(),
{
    if points.len() == 0 {
        canvas
    } else {
        paint_point(paint_points(canvas, points.drop_last(), color), points.last(), color)
    }
}

/// The last point of the stroke that actually landed on a `width` x `height`
/// canvas, with the stroke's color; `None` when no point landed.
pub open spec fn last_painted(points: Seq<(usize, usize)>, width: int, height: int, color: Rgb) -> Option<(usize, usize, Rgb)>
    decreases points.len(),
{
    if points.len() == 0 {
        None
    } else if (points.last().1 as int) < height && (points.last().0 as int) < width {
        Some((points.last().0, points.last().1, color))
    } else {
        last_painted(points.drop_last(), width, height, color)
    }
}

impl PaintingModel {
    /// Canvas width, read off the first row.
    pub open spec fn width(self) -> int {
        self.canvas[0].len() as int
    }

    /// Canvas height.
    pub open spec fn height(self) -> int {
        self.canvas.len() as int
    }
}

/// What one call of `apply_next_stroke` returns on state `m`.
pub open spec fn stroke_result(m: PaintingModel) -> Option<(usize, usize, Rgb)> {
    if m.current_stroke >= m.strokes.len() {
        None
    } else {
        last_painted(m.strokes[m.current_stroke].points, m.width(), m.height(),
            m.strokes[m.current_stroke].color)
    }
}

/// What one call of `apply_next_stroke` does to state `m`: past the end it
/// only marks the painting complete; otherwise it paints the next stroke,
/// advances the cursor and recomputes the reveal percentage.
pub open spec fn apply_one(m: PaintingModel) -> PaintingModel {
    if m.current_stroke >= m.strokes.len() {
        PaintingModel { complete: true, ..m }
    } else {
        PaintingModel {
            canvas: paint_points(m.canvas, m.strokes[m.current_stroke].points,
                m.strokes[m.current_stroke].color),
            reveal_progress: (m.current_stroke + 1) * 100 / (m.strokes.len() as int),
            current_stroke: m.current_stroke + 1,
            ..m
        }
    }
}

/// What a batch of up to `k` stroke applications does: it stops early after
/// the first application that reports no painted point.
pub open spec fn apply_batch(m: PaintingModel, k: nat) -> PaintingModel
    decreases k,
{
    if k == 0 {
        m
    } else if stroke_result(m) is None {
        apply_one(m)
    } else {
        apply_batch(apply_one(m), (k - 1) as nat)
    }
}

/// The painted points a batch of up to `k` applications reports, in order.
pub open spec fn batch_results(m: PaintingModel, k: nat) -> Seq<(usize, usize, Rgb)>
    decreases k,
{
    if k == 0 {
        Seq::empty()
    } else {
        match stroke_result(m) {
            None => Seq::empty(),
            Some(r) => seq![r] + batch_results(apply_one(m), (k - 1) as nat),
        }
    }
}

/// A reported painted point always lies on the canvas and carries the
/// stroke's color.
pub proof fn lemma_last_painted_in_range(points: Seq<(usize, usize)>, width: int, height: int, color: Rgb)
    ensures
        (last_painted(points, width, height, color) matches Some(r) ==> (r.0 as int) < width
            && (r.1 as int) < height && r.2 == color),
    decreases points.len(),
{
    if points.len() > 0 && !((points.last().1 as int) < height && (points.last().0 as int)
        < width) {
        lemma_last_painted_in_range(points.drop_last(), width, height, color);
    }
}

/// The point a stroke application reports always lies on the canvas.
pub proof fn lemma_stroke_result_in_range(m: PaintingModel)
    ensures
        (stroke_result(m) matches Some(r) ==> (r.0 as int) < m.width() && (r.1 as int)
            < m.height()),
{
    if m.current_stroke < m.strokes.len() {
        lemma_last_painted_in_range(m.strokes[m.current_stroke].points, m.width(), m.height(),
            m.strokes[m.current_stroke].color);
    }
}

/// Painting points never changes the canvas dimensions.
proof fn lemma_paint_points_shape(canvas: Seq<Seq<Rgb>>, points: Seq<(usize, usize)>, color: Rgb)
    ensures
        paint_points(canvas, points, color).len() == canvas.len(),
        forall|j: int|
            0 <= j < canvas.len() ==> #[trigger] paint_points(canvas, points, color)[j].len()
                == canvas[j].len(),
    decreases points.len(),
{
    if points.len() > 0 {
        lemma_paint_points_shape(canvas, points.drop_last(), color);
    }
}

impl MonaLisaPainting {
    /// Structural invariant: the canvas is a non-empty `width` x `height`
    /// rectangle, the stroke cursor never passes the end, and the stroke
    /// count leaves the percentage arithmetic inside `usize`.
    pub open spec fn wf(self) -> bool {
        &&& self.width > 0
        &&& self.height > 0
        &&& self.canvas@.len() == self.height
        &&& forall|j: int| 0 <= j < self.height ==> (#[trigger] self.canvas@[j])@.len() == self.width
        &&& self.current_stroke <= self.brush_strokes@.len()
        &&& self.brush_strokes@.len() * 100 <= usize::MAX
    }

    /// A fresh painting: blank canvas, the given strokes, nothing applied.
    pub fn new(width: usize, height: usize, brush_strokes: Vec<BrushStroke>) -> (p: MonaLisaPainting)
        requires
            width > 0,
            height > 0,
            brush_strokes@.len() * 100 <= usize::MAX,
        ensures
            p.wf(),
            p.width == width,
            p.height == height,
            p@.canvas == blank_canvas(width as int, height as int),
            p@.strokes == brush_strokes@.map_values(|s: BrushStroke| s@),
            p@.current_stroke == 0,
            p@.reveal_progress == 0,
            !p@.complete,
    {
        let canvas = blank_rows(width, height);
        let p = MonaLisaPainting {
            canvas,
            reveal_progress: 0,
            brush_strokes,
            current_stroke: 0,
            painting_complete: false,
            width,
            height,
        };
        proof {
            assert(p@.canvas =~~= blank_canvas(width as int, height as int));
        }
        p
    }

    /// Reads one stroke point.
    fn point_at(&self, s: usize, k: usize) -> (p: (usize, usize))
        requires
            s < self.brush_strokes@.len(),
            k < self.brush_strokes@[s as int].points@.len(),
        ensures
            p == self.brush_strokes@[s as int].points@[k as int],
    {
        self.brush_strokes[s].points[k]
    }

    /// Applies the next stroke, if any: paints each of its in-range points
    /// in the stroke's color and reports the last point painted. Past the
    /// end of the stroke list it marks the painting complete instead.
    pub fn apply_next_stroke(&mut self) -> (r: Option<(usize, usize, Rgb)>)
        requires
            old(self).wf(),
        ensures
            final(self).wf(),
            final(self).width == old(self).width,
            final(self).height == old(self).height,
            final(self)@ == apply_one(old(self)@),
            r == stroke_result(old(self)@),
    {
        proof {
            assert(old(self)@.height() == self.height);
            assert(old(self)@.width() == self.width);
        }
        if self.current_stroke >= self.brush_strokes.len() {
            self.painting_complete = true;
            proof {
                assert(self@ =~~= apply_one(old(self)@));
            }
            return None;
        }
        let s = self.current_stroke;
        let color = self.brush_strokes[s].color;
        let num_points = self.brush_strokes[s].points.len();
        let ghost points = self.brush_strokes@[s as int].points@;
        let mut last: Option<(usize, usize, Rgb)> = None;
        let mut k: usize = 0;
        while k < num_points
            invariant
                self.wf(),
                self.width == old(self).width,
                self.height == old(self).height,
                s == self.current_stroke,
                s < self.brush_strokes@.len(),
                self.brush_strokes@ == old(self).brush_strokes@,
                self.reveal_progress == old(self).reveal_progress,
                self.painting_complete == old(self).painting_complete,
                color == self.brush_strokes@[s as int].color,
                points == self.brush_strokes@[s as int].points@,
                num_points == points.len(),
                k <= num_points,
                self@.canvas == paint_points(old(self)@.canvas, points.take(k as int), color),
                last == last_painted(points.take(k as int), self.width as int, self.height as int,
                    color),
            decreases num_points - k,
        {
            proof {
                lemma_paint_points_shape(old(self)@.canvas, points.take(k as int), color);
                assert(points.take(k + 1).drop_last() =~= points.take(k as int));
                assert(points.take(k + 1).last() == points[k as int]);
            }
            let p = self.point_at(s, k);
            if p.1 < self.canvas.len() && p.0 < self.canvas[0].len() {
                let ghost pre = self@.canvas;
                self.canvas[p.1][p.0] = color;
                last = Some((p.0, p.1, color));
                proof {
                    assert(self@.canvas =~~= pre.update(p.1 as int, pre[p.1 as int].update(
                        p.0 as int, color)));
                    assert(self@.canvas == paint_point(pre, p, color));
                }
            } else {
                proof {
                    assert(self@.canvas == paint_point(self@.canvas, p, color));
                }
            }
            k = k + 1;
        }
        proof {
            assert(points.take(num_points as int) =~= points);
        }
        self.current_stroke = s + 1;
        proof {
            assert(100 * (s + 1) <= 100 * self.brush_strokes@.len()) by {
                lemma_mul_left_inequality(100, s + 1 as int, self.brush_strokes@.len() as int);
            }
        }
        self.reveal_progress = (s + 1) * 100 / self.brush_strokes.len();
        proof {
            assert(self@ =~~= apply_one(old(self)@));
        }
        last
    }

    /// Applies up to `count` strokes, stopping after the first application
    /// that paints no point, and reports the painted points in order.
    pub fn apply_multiple_strokes(&mut self, count: usize) -> (applied: Vec<(usize, usize, Rgb)>)
        requires
            old(self).wf(),
        ensures
            final(self).wf(),
            final(self).width == old(self).width,
            final(self).height == old(self).height,
            final(self)@ == apply_batch(old(self)@, count as nat),
            applied@ == batch_results(old(self)@, count as nat),
    {
        let mut applied: Vec<(usize, usize, Rgb)> = Vec::new();
        let mut i: usize = 0;
        while i < count
            invariant_except_break
                self.wf(),
                self.width == old(self).width,
                self.height == old(self).height,
                i <= count,
                apply_batch(old(self)@, count as nat) == apply_batch(self@, (count - i) as nat),
                batch_results(old(self)@, count as nat) == applied@ + batch_results(self@, (count
                    - i) as nat),
            ensures
                self.wf(),
                self.width == old(self).width,
                self.height == old(self).height,
                self@ == apply_batch(old(self)@, count as nat),
                applied@ == batch_results(old(self)@, count as nat),
            decreases count - i,
        {
            let ghost pre = self@;
            let r = self.apply_next_stroke();
            match r {
                Some(info) => {
                    applied.push(info);
                    proof {
                        assert(batch_results(pre, (count - i) as nat) == seq![info]
                            + batch_results(self@, (count - i - 1) as nat));
                        assert(applied@ + batch_results(self@, (count - i - 1) as nat)
                            =~= applied@.drop_last() + batch_results(pre, (count - i) as nat));
                    }
                },
                None => {
                    proof {
                        assert(apply_batch(pre, (count - i) as nat) == self@);
                        assert(batch_results(pre, (count - i) as nat) =~= Seq::empty());
                        assert(applied@ + batch_results(pre, (count - i) as nat) =~= applied@);
                    }
                    break ;
                },
            }
            i = i + 1;
        }
        proof {
            if i >= count {
                assert(apply_batch(self@, 0) == self@);
                assert(applied@ + batch_results(self@, 0) =~= applied@);
            }
        }
        applied
    }

    /// Restores the blank canvas and rewinds the reveal; the strokes stay.
    pub fn reset(&mut self)
        requires
            old(self).wf(),
        ensures
            final(self).wf(),
            final(self).width == old(self).width,
            final(self).height == old(self).height,
            final(self)@.canvas == blank_canvas(old(self).width as int, old(self).height as int),
            final(self)@.strokes == old(self)@.strokes,
            final(self)@.current_stroke == 0,
            final(self)@.reveal_progress == 0,
            !final(self)@.complete,
    {
        let canvas = blank_rows(self.width, self.height);
        self.canvas = canvas;
        self.current_stroke = 0;
        self.reveal_progress = 0;
        self.painting_complete = false;
        proof {
            assert(self@.canvas =~~= blank_canvas(self.width as int, self.height as int));
        }
    }

    /// Whether the whole stroke list has been applied.
    pub fn is_complete(&self) -> (r: bool)
        ensures
            r == self@.complete,
    {
        self.painting_complete
    }

    /// How far the reveal has come, in percent.
    pub fn progress_percentage(&self) -> (r: usize)
        ensures
            r as int == self@.reveal_progress,
    {
        self.reveal_progress
    }

    /// How many strokes are still unapplied.
    pub fn remaining_strokes(&self) -> (r: usize)
        requires
            self.wf(),
        ensures
            r == self.brush_strokes@.len() - self.current_stroke,
    {
        self.brush_strokes.len() - self.current_stroke
    }

    /// Renders the canvas row-major, 3 bytes per pixel.
    pub fn to_rgb_data(&self) -> (r: Vec<u8>)
        requires
            self.wf(),
            self.width * self.height * 3 <= usize::MAX,
        ensures
            r@.len() == self.width * self.height * 3,
            forall|x: int, y: int|
                0 <= x < self.width && 0 <= y < self.height ==> #[trigger] painting_pixel(
                    r@, self.width as int, x, y, self@.canvas[y][x]),
    {
        let width = self.width;
        let height = self.height;
        let mut frame: Vec<u8> = Vec::new();
        let mut y: usize = 0;
        while y < height
            invariant
                self.wf(),
                width == self.width,
                height == self.height,
                self.width * self.height * 3 <= usize::MAX,
                y <= height,
                frame@.len() == 3 * ((y as int) * (width as int)),
                forall|i: int, j: int|
                    0 <= i < width && 0 <= j < y as int ==> #[trigger] painting_pixel(
                        frame@, width as int, i, j, self@.canvas[j][i]),
            decreases height - y,
        {
            let mut x: usize = 0;
            while x < width
                invariant
                    self.wf(),
                    width == self.width,
                    height == self.height,
                    self.width * self.height * 3 <= usize::MAX,
                    y < height,
                    x <= width,
                    frame@.len() == 3 * ((y as int) * (width as int)) + 3 * (x as int),
                    forall|i: int, j: int|
                        0 <= i < width && 0 <= j < y as int ==> #[trigger] painting_pixel(
                            frame@, width as int, i, j, self@.canvas[j][i]),
                    forall|i: int|
                        0 <= i < x as int ==> #[trigger] painting_pixel(frame@, width as int, i,
                            y as int, self@.canvas[y as int][i]),
                decreases width - x,
            {
                let ghost before = frame@;
                let c = self.pixel_at(x, y);
                frame.push(c.r);
                frame.push(c.g);
                frame.push(c.b);
                proof {
                    assert forall|i: int, j: int|
                        0 <= i < width && (0 <= j < y as int || (j == y as int && 0 <= i
                            <= x as int)) implies #[trigger] painting_pixel(frame@, width as int,
                        i, j, self@.canvas[j][i]) by {
                        lemma_mul_nonnegative(j, width as int);
                        if !(j == y as int && i == x as int) {
                            if j < y as int {
                                lemma_mul_inequality(j + 1, y as int, width as int);
                                lemma_mul_is_distributive_add_other_way(width as int, j, 1);
                            }
                            assert(3 * (j * (width as int) + i) + 2 < before.len());
                            assert(painting_pixel(before, width as int, i, j, self@.canvas[j][i]));
                        }
                    }
                }
                x = x + 1;
            }
            proof {
                lemma_mul_is_distributive_add_other_way(width as int, y as int, 1);
            }
            y = y + 1;
        }
        proof {
            lemma_mul_is_commutative(height as int, width as int);
        }
        frame
    }

    /// Recolors one canvas pixel.
    pub fn set_pixel(&mut self, x: usize, y: usize, c: Rgb)
        requires
            old(self).wf(),
            x < old(self).width,
            y < old(self).height,
        ensures
            final(self).wf(),
            final(self).width == old(self).width,
            final(self).height == old(self).height,
            final(self)@ == (PaintingModel {
                canvas: paint_point(old(self)@.canvas, (x, y), c),
                ..old(self)@
            }),
    {
        self.canvas[y][x] = c;
        proof {
            assert(self@.canvas =~~= paint_point(old(self)@.canvas, (x, y), c));
            assert(self@ =~~= PaintingModel { canvas: paint_point(old(self)@.canvas, (x, y), c),
                ..old(self)@ });
        }
    }

    /// Reads one canvas pixel.
    pub fn pixel_at(&self, x: usize, y: usize) -> (c: Rgb)
        requires
            self.wf(),
            x < self.width,
            y < self.height,
        ensures
            c == self@.canvas[y as int][x as int],
    {
        self.canvas[y][x]
    }
}

/// The 3 bytes of pixel `(x, y)` in a row-major rendering `width` pixels
/// wide hold exactly the color `c`.
pub open spec fn painting_pixel(bytes: Seq<u8>, width: int, x: int, y: int, c: Rgb) -> bool {
    let base = 3 * (y * width + x);
    bytes[base] == c.r && bytes[base + 1] == c.g && bytes[base + 2] == c.b
}

/// A `width` x `height` canvas of background-colored rows.
fn blank_rows(width: usize, height: usize) -> (canvas: Vec<Vec<Rgb>>)
    ensures
        canvas@.len() == height,
        forall|j: int| 0 <= j < height ==> (#[trigger] canvas@[j])@.len() == width,
        forall|j: int, i: int|
            0 <= j < height && 0 <= i < width ==> (#[trigger] canvas@[j]@[i])
                == spec_canvas_background(),
{
    let mut canvas: Vec<Vec<Rgb>> = Vec::new();
    let mut j: usize = 0;
    while j < height
        invariant
            j <= height,
            canvas@.len() == j,
            forall|jj: int| 0 <= jj < j as int ==> (#[trigger] canvas@[jj])@.len() == width,
            forall|jj: int, i: int|
                0 <= jj < j as int && 0 <= i < width ==> (#[trigger] canvas@[jj]@[i])
                    == spec_canvas_background(),
        decreases height - j,
    {
        let mut row: Vec<Rgb> = Vec::new();
        let mut i: usize = 0;
        while i < width
            invariant
                i <= width,
                row@.len() == i,
                forall|ii: int| 0 <= ii < i as int ==> (#[trigger] row@[ii])
                    == spec_canvas_background(),
            decreases width - i,
        {
            row.push(canvas_background());
            i = i + 1;
        }
        canvas.push(row);
        j = j + 1;
    }
    canvas
}

} // verus!
