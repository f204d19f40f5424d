//! The renderer: pixel operations and the per-frame state machine.

use crate::line::{draw_line, LinePlan};
use crate::shapes::{parse_shapes, scan, ShapeError, Shape};
use crate::sim_interface::{background, foreground, Bitmap, Canvas, Input, Token};
use vstd::prelude::*;

verus! {

/// What lasts from frame to frame.
pub struct State {
    /// Whether the command line has been read.
    pub initialised: bool,
    /// How many frames have been drawn.
    pub frame_num: u64,
    /// The curves, in the order of their directives.
    pub shapes: Vec<Shape>,
}

/// What reading the command line turned up, for the user to be told.
#[derive(Debug, PartialEq, Eq)]
pub struct Startup {
    /// Positions of the words that are no directive, in order.
    pub unknown: Vec<usize>,
    /// Why there are no curves, if there are none.
    pub error: Option<ShapeError>,
}

/// The curves that a scan of `tokens` yields: none where it fails.
pub open spec fn shapes_found(tokens: Seq<Token>) -> Seq<Shape> {
    match scan(tokens).result {
        Ok(shapes) => shapes,
        Err(_) => Seq::empty(),
    }
}

/// The error that a scan of `tokens` ends in, if any.
pub open spec fn error_found(tokens: Seq<Token>) -> Option<ShapeError> {
    match scan(tokens).result {
        Ok(_) => None,
        Err(e) => Some(e),
    }
}

/// The canvas after the segments of `plans` are painted onto `canvas`, first
/// to last.
pub open spec fn traced(canvas: Canvas, plans: Seq<LinePlan>) -> Canvas
    decreases plans.len(),
{
    if plans.len() == 0 {
        canvas
    } else {
        traced(canvas, plans.drop_last()).plot_all(plans.last().points())
    }
}

/// Some segment of `plans` holds the pixel `(x, y)`.
pub open spec fn inked_by(plans: Seq<LinePlan>, x: int, y: int) -> bool {
    exists|k: int| 0 <= k < plans.len() && (#[trigger] plans[k]).points().contains((x, y))
}

/// Painting segments keeps the canvas well formed and of the same size.
pub proof fn lemma_traced_wf(canvas: Canvas, plans: Seq<LinePlan>)
    requires
        canvas.wf(),
    ensures
        traced(canvas, plans).wf(),
        traced(canvas, plans).width == canvas.width,
        traced(canvas, plans).height == canvas.height,
    decreases plans.len(),
{
    if plans.len() > 0 {
        lemma_traced_wf(canvas, plans.drop_last());
        traced(canvas, plans.drop_last()).lemma_plot_all_wf(plans.last().points());
    }
}

/// After segments are painted, a pixel reads as foreground where one of
/// them holds it and as before where none does.
pub proof fn lemma_traced_pixel(canvas: Canvas, plans: Seq<LinePlan>, x: int, y: int)
    requires
        canvas.wf(),
        canvas.in_bounds(x, y),
    ensures
        traced(canvas, plans).pixel(x, y) == if inked_by(plans, x, y) {
            foreground()
        } else {
            canvas.pixel(x, y)
        },
    decreases plans.len(),
{
    if plans.len() > 0 {
        let before = plans.drop_last();
        lemma_traced_pixel(canvas, before, x, y);
        lemma_traced_wf(canvas, before);
        traced(canvas, before).lemma_plot_all_pixel(plans.last().points(), x, y);
        if plans.last().points().contains((x, y)) {
            assert(plans[plans.len() - 1].points().contains((x, y)));
        } else if inked_by(plans, x, y) {
            let k = choose|k: int|
                0 <= k < plans.len() && (#[trigger] plans[k]).points().contains((x, y));
            assert(before[k] == plans[k]);
        } else if inked_by(before, x, y) {
            let k = choose|k: int|
                0 <= k < before.len() && (#[trigger] before[k]).points().contains((x, y));
            assert(plans[k] == before[k]);
        }
    }
}

/// A frame that paints more segments after the same ones loses no ink: a
/// pixel drawn by the shorter trace is drawn by the longer one.
pub proof fn lemma_trace_grows(
    canvas: Canvas,
    plans: Seq<LinePlan>,
    more: Seq<LinePlan>,
    x: int,
    y: int,
)
    requires
        canvas.wf(),
        canvas.in_bounds(x, y),
        traced(canvas.cleared(), plans).pixel(x, y) == foreground(),
    ensures
        traced(canvas.cleared(), plans + more).pixel(x, y) == foreground(),
{
    let blank = canvas.cleared();
    canvas.lemma_cleared_pixel(x, y);
    assert(background()[0] != foreground()[0]);
    lemma_traced_pixel(blank, plans, x, y);
    lemma_traced_pixel(blank, plans + more, x, y);
    let k = choose|k: int| 0 <= k < plans.len() && (#[trigger] plans[k]).points().contains((x, y));
    assert((plans + more)[k] == plans[k]);
}

impl State {
    /// The state before the first frame.
    pub fn new() -> (state: State)
        ensures
            !state.initialised,
            state.frame_num == 0,
            state.shapes@ == Seq::<Shape>::empty(),
    {
        State { initialised: false, frame_num: 0, shapes: Vec::new() }
    }

    /// Reads the curves from the command line, once. The first call scans
    /// `input.command_line`, appends what it found and reports; a failed
    /// scan adds no curve and is not tried again. Every later call does
    /// nothing and returns `None`.
    pub fn initialise(&mut self, input: &Input) -> (report: Option<Startup>)
        ensures
            final(self).initialised,
            final(self).frame_num == old(self).frame_num,
            old(self).initialised ==> report is None && final(self).shapes@ == old(self).shapes@,
            !old(self).initialised ==> {
                &&& report is Some
                &&& report->0.unknown@ == scan(input.command_line@).unknown
                &&& report->0.error == error_found(input.command_line@)
                &&& final(self).shapes@ == old(self).shapes@ + shapes_found(input.command_line@)
            },
    {
        if self.initialised {
            return None;
        }
        self.initialised = true;
        let found = parse_shapes(&input.command_line);
        match found.result {
            Ok(mut shapes) => {
                self.shapes.append(&mut shapes);
                Some(Startup { unknown: found.unknown, error: None })
            },
            Err(e) => {
                assert(self.shapes@ + Seq::<Shape>::empty() =~= self.shapes@);
                Some(Startup { unknown: found.unknown, error: Some(e) })
            },
        }
    }
}

/// Draws one frame: clears the canvas, paints the frame's segments in
/// order, and counts the frame.
pub fn update_and_render(bitmap: &mut Bitmap, state: &mut State, segments: &Vec<LinePlan>)
    requires
        old(bitmap)@.wf(),
        old(state).frame_num < u64::MAX,
    ensures
        final(bitmap)@ == traced(old(bitmap)@.cleared(), segments@),
        final(bitmap)@.wf(),
        forall|x: int, y: int|
            old(bitmap)@.in_bounds(x, y) ==> #[trigger] final(bitmap)@.pixel(x, y) == if inked_by(
                segments@,
                x,
                y,
            ) {
                foreground()
            } else {
                background()
            },
        final(state).frame_num == old(state).frame_num + 1,
        final(state).initialised == old(state).initialised,
        final(state).shapes == old(state).shapes,
{
    bitmap.clear();
    let n: usize = segments.len();
    let mut k: usize = 0;
    assert(segments@.take(0) =~= Seq::<LinePlan>::empty());
    while k < n
        invariant
            k <= n,
            n == segments@.len(),
            bitmap@.wf(),
            bitmap@ == traced(old(bitmap)@.cleared(), segments@.take(k as int)),
        decreases n - k,
    {
        draw_line(bitmap, &segments[k]);
        proof {
            let done = segments@.take(k + 1);
            assert(done.drop_last() =~= segments@.take(k as int));
            assert(done.last() == segments@[k as int]);
        }
        k += 1;
    }
    assert(segments@.take(n as int) =~= segments@);
    assert forall|x: int, y: int| old(bitmap)@.in_bounds(x, y) implies #[trigger] bitmap@.pixel(
        x,
        y,
    ) == if inked_by(segments@, x, y) {
        foreground()
    } else {
        background()
    } by {
        old(bitmap)@.lemma_cleared_pixel(x, y);
        lemma_traced_pixel(old(bitmap)@.cleared(), segments@, x, y);
    }
    state.frame_num = state.frame_num + 1;
}

impl Bitmap {
    /// Paints pixel `(x, y)` in the foreground colour. Coordinates off the
    /// canvas, negative ones included, are ignored.
    pub fn set_pixel(&mut self, x: isize, y: isize)
        requires
            old(self)@.wf(),
        ensures
            final(self)@ == old(self)@.plot(x as int, y as int),
            final(self)@.wf(),
            !old(self)@.in_bounds(x as int, y as int) ==> final(self)@ == old(self)@,
            old(self)@.in_bounds(x as int, y as int) ==> final(self)@.pixel(x as int, y as int)
                == foreground(),
    {
        proof {
            if self@.in_bounds(x as int, y as int) {
                self@.lemma_plot_pixel(x as int, y as int, x as int, y as int);
            }
        }
        if x < 0 || y < 0 {
            return ;
        }
        let x: usize = x as usize;
        let y: usize = y as usize;
        if x >= self.width || y >= self.height {
            return ;
        }
        let len: usize = self.memory.len();
        assert(0 <= y * self.pitch && y * self.pitch + self.pitch <= self.pitch * self.height)
            by (nonlinear_arith)
            requires
                0 <= y < self.height,
                0 <= self.pitch,
        ;
        let index: usize = x * 4 + y * self.pitch;
        assert(index + 3 < len);
        self.memory[index] = 242;
        self.memory[index + 1] = 210;
        self.memory[index + 2] = 52;
        self.memory[index + 3] = 0;
        assert(self@.bytes =~= old(self)@.plot(x as int, y as int).bytes);
    }

    /// Fills the whole canvas with the background colour.
    pub fn clear(&mut self)
        requires
            old(self)@.wf(),
        ensures
            final(self)@ == old(self)@.cleared(),
            final(self)@.wf(),
            forall|x: int, y: int|
                old(self)@.in_bounds(x, y) ==> #[trigger] final(self)@.pixel(x, y) == background(),
    {
        let n: usize = self.memory.len();
        assert(n == 4 * (self.width * self.height)) by (nonlinear_arith)
            requires
                n == (self.width * 4) * self.height,
        ;
        let mut i: usize = 0;
        while i < n
            invariant
                self.width == old(self).width,
                self.height == old(self).height,
                self.pitch == old(self).pitch,
                self.memory@.len() == n,
                n % 4 == 0,
                i % 4 == 0,
                i <= n,
                forall|j: int| 0 <= j < i ==> self.memory@[j] == background()[j % 4],
            decreases n - i,
        {
            self.memory[i] = 53;
            self.memory[i + 1] = 51;
            self.memory[i + 2] = 44;
            self.memory[i + 3] = 0;
            i += 4;
        }
        assert(self@.bytes =~= old(self)@.cleared().bytes);
        assert forall|x: int, y: int| old(self)@.in_bounds(x, y) implies #[trigger] self@.pixel(
            x,
            y,
        ) == background() by {
            old(self)@.lemma_cleared_pixel(x, y);
        }
    }
}

} // verus!
