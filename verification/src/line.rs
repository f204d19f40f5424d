//! The integer half of the line rasteriser.
//!
//! A segment between two real-valued points is drawn by stepping one pixel
//! at a time along its longer axis, the primary one, and now and then moving
//! one pixel along the other. Where to start and when to move is decided in
//! real arithmetic by the caller and recorded in a [`LinePlan`]; painting the
//! plan is done here.

use crate::sim_interface::{foreground, Bitmap};
use vstd::prelude::*;

verus! {

/// A planned run of pixels.
#[derive(Debug, PartialEq, Eq)]
pub struct LinePlan {
    /// The primary axis is vertical: the two coordinates trade places when a
    /// pixel is painted.
    pub steep: bool,
    /// Primary coordinate of the first pixel.
    pub start: isize,
    /// Secondary coordinate of the first pixel.
    pub secondary: isize,
    /// The secondary coordinate moves up by one at a shift, else down by one.
    pub ascending: bool,
    /// One entry per pixel, in painting order: whether the secondary
    /// coordinate shifts after that pixel.
    pub shifts: Vec<bool>,
}

/// How many of the first `i` entries of `shifts` are set.
pub open spec fn shifts_before(shifts: Seq<bool>, i: int) -> nat
    decreases i,
{
    if i <= 0 {
        0
    } else {
        shifts_before(shifts, i - 1) + if shifts[i - 1] {
            1nat
        } else {
            0nat
        }
    }
}

/// The count of shifts never falls as more entries are taken in, and never
/// exceeds the number of entries.
pub proof fn lemma_shifts_before_monotone(shifts: Seq<bool>, i: int, j: int)
    requires
        0 <= i <= j,
    ensures
        shifts_before(shifts, i) <= shifts_before(shifts, j) <= j,
    decreases j,
{
    if j > 0 {
        if i < j {
            lemma_shifts_before_monotone(shifts, i, j - 1);
        } else {
            lemma_shifts_before_monotone(shifts, i - 1, j - 1);
        }
    }
}

impl LinePlan {
    /// Secondary coordinate after `i` pixels.
    pub open spec fn level(&self, i: int) -> int {
        if self.ascending {
            self.secondary + shifts_before(self.shifts@, i)
        } else {
            self.secondary - shifts_before(self.shifts@, i)
        }
    }

    /// Canvas coordinates of pixel number `i` of the run.
    pub open spec fn point(&self, i: int) -> (int, int) {
        if self.steep {
            (self.level(i), self.start + i)
        } else {
            (self.start + i, self.level(i))
        }
    }

    /// The pixels of the run in painting order.
    pub open spec fn points(&self) -> Seq<(int, int)> {
        Seq::new(self.shifts@.len(), |i: int| self.point(i))
    }
}

/// Paints the pixels of `plan` onto `bitmap`, first to last. Pixels that
/// fall off the canvas are skipped, however far off they lie.
pub fn draw_line(bitmap: &mut Bitmap, plan: &LinePlan)
    requires
        old(bitmap)@.wf(),
    ensures
        final(bitmap)@ == old(bitmap)@.plot_all(plan.points()),
        final(bitmap)@.wf(),
        forall|x: int, y: int|
            old(bitmap)@.in_bounds(x, y) ==> #[trigger] final(bitmap)@.pixel(x, y) == if plan.points().contains(
                (x, y),
            ) {
                foreground()
            } else {
                old(bitmap)@.pixel(x, y)
            },
{
    let n: usize = plan.shifts.len();
    let bytes: usize = bitmap.memory.len();
    let mut i: usize = 0;
    let mut x: isize = plan.start;
    let mut y: isize = plan.secondary;
    // Once a coordinate leaves the signed word it never comes back, so the
    // rest of the run is off the canvas and the loop may stop.
    let mut live: bool = true;
    assert(plan.points().take(0) =~= Seq::<(int, int)>::empty());
    while i < n && live
        invariant
            i <= n,
            n == plan.shifts@.len(),
            bytes == bitmap@.bytes.len(),
            bytes == old(bitmap)@.bytes.len(),
            old(bitmap)@.wf(),
            live ==> x == plan.start + i && y == plan.level(i as int),
            !live ==> forall|k: int|
                i <= k < n ==> !old(bitmap)@.in_bounds(
                    (#[trigger] plan.points()[k]).0,
                    plan.points()[k].1,
                ),
            bitmap@.wf(),
            bitmap@.width == old(bitmap)@.width,
            bitmap@.height == old(bitmap)@.height,
            bitmap@ == old(bitmap)@.plot_all(plan.points().take(i as int)),
        decreases n - i,
    {
        if plan.steep {
            bitmap.set_pixel(y, x);
        } else {
            bitmap.set_pixel(x, y);
        }
        proof {
            let done = plan.points().take(i + 1);
            assert(done.drop_last() =~= plan.points().take(i as int));
            assert(done.last() == plan.point(i as int));
        }
        let next_x: Option<isize> = x.checked_add(1);
        let next_y: Option<isize> = if !plan.shifts[i] {
            Some(y)
        } else if plan.ascending {
            y.checked_add(1)
        } else {
            y.checked_sub(1)
        };
        match (next_x, next_y) {
            (Some(nx), Some(ny)) => {
                x = nx;
                y = ny;
            },
            _ => {
                live = false;
                proof {
                    assert forall|k: int| i + 1 <= k < n implies !old(bitmap)@.in_bounds(
                        (#[trigger] plan.points()[k]).0,
                        plan.points()[k].1,
                    ) by {
                        lemma_shifts_before_monotone(plan.shifts@, i + 1, k);
                        let p = plan.point(k);
                        assert(plan.points()[k] == p);
                        assert(p.0 < 0 || p.1 < 0 || p.0 > isize::MAX || p.1 > isize::MAX);
                        old(bitmap)@.lemma_far_is_off_canvas(p.0, p.1);
                    }
                }
            },
        }
        i += 1;
    }
    proof {
        old(bitmap)@.lemma_plot_all_off_canvas_tail(plan.points(), i as int);
        assert forall|x: int, y: int| old(bitmap)@.in_bounds(x, y) implies #[trigger] bitmap@.pixel(
            x,
            y,
        ) == if plan.points().contains((x, y)) {
            foreground()
        } else {
            old(bitmap)@.pixel(x, y)
        } by {
            old(bitmap)@.lemma_plot_all_pixel(plan.points(), x, y);
        }
    }
}

} // verus!
