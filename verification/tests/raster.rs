use spirograph::line::{draw_line, LinePlan};
use spirograph::sim_interface::Bitmap;

const INK: [u8; 4] = [242, 210, 52, 0];
const PAPER: [u8; 4] = [53, 51, 44, 0];

fn pixel(bitmap: &Bitmap, x: usize, y: usize) -> [u8; 4] {
    let i = x * 4 + y * bitmap.pitch;
    [bitmap.memory[i], bitmap.memory[i + 1], bitmap.memory[i + 2], bitmap.memory[i + 3]]
}

fn inked(bitmap: &Bitmap) -> Vec<(usize, usize)> {
    let mut found = Vec::new();
    for y in 0..bitmap.height {
        for x in 0..bitmap.width {
            let p = pixel(bitmap, x, y);
            assert!(p == INK || p == PAPER);
            if p == INK {
                found.push((x, y));
            }
        }
    }
    found
}

/// Plans the segment between two points: the longer axis leads, the run
/// goes up that axis from the truncated start to just short of the
/// truncated end, and the other axis moves whenever the running error,
/// which starts at half the run, falls below zero.
fn plan(x1: f32, y1: f32, x2: f32, y2: f32) -> LinePlan {
    let (mut x1, mut y1, mut x2, mut y2) = (x1, y1, x2, y2);
    let steep = (y2 - y1).abs() > (x2 - x1).abs();
    if steep {
        std::mem::swap(&mut x1, &mut y1);
        std::mem::swap(&mut x2, &mut y2);
    }
    if x1 > x2 {
        std::mem::swap(&mut x1, &mut x2);
        std::mem::swap(&mut y1, &mut y2);
    }
    let dx = x2 - x1;
    let dy = (y2 - y1).abs();
    let mut error = dx / 2.0;
    let start = x1.trunc() as isize;
    let end = x2.trunc() as isize;
    let mut shifts = Vec::new();
    for _ in start..end {
        error -= dy;
        let shift = error < 0.0;
        if shift {
            error += dx;
        }
        shifts.push(shift);
    }
    LinePlan { steep, start, secondary: y1.trunc() as isize, ascending: y1 < y2, shifts }
}

fn canvas(width: usize, height: usize) -> Bitmap {
    let mut bitmap = Bitmap::new(width, height);
    bitmap.clear();
    bitmap
}

#[test]
fn horizontal_segment_stops_short_of_its_end() {
    let mut bitmap = canvas(16, 8);
    let line = plan(0.0, 5.0, 10.0, 5.0);
    draw_line(&mut bitmap, &line);
    for x in 0..10 {
        assert_eq!(pixel(&bitmap, x, 5), INK);
    }
    assert_eq!(pixel(&bitmap, 10, 5), PAPER);
    assert_eq!(inked(&bitmap), (0..10).map(|x| (x, 5)).collect::<Vec<_>>());
}

#[test]
fn horizontal_plan_written_by_hand() {
    let mut bitmap = canvas(16, 8);
    let line = LinePlan {
        steep: false,
        start: 0,
        secondary: 5,
        ascending: false,
        shifts: vec![false; 10],
    };
    assert_eq!(plan(0.0, 5.0, 10.0, 5.0), line);
    draw_line(&mut bitmap, &line);
    assert_eq!(inked(&bitmap), (0..10).map(|x| (x, 5)).collect::<Vec<_>>());
}

#[test]
fn segment_drawn_backwards_paints_the_same_pixels() {
    let mut bitmap = canvas(16, 8);
    draw_line(&mut bitmap, &plan(10.0, 5.0, 0.0, 5.0));
    assert_eq!(inked(&bitmap), (0..10).map(|x| (x, 5)).collect::<Vec<_>>());
}

#[test]
fn shallow_segment_climbs_when_the_error_runs_out() {
    let mut bitmap = canvas(8, 8);
    let line = plan(0.0, 0.0, 4.0, 2.0);
    assert_eq!(line.shifts, vec![false, true, false, true]);
    assert!(line.ascending);
    draw_line(&mut bitmap, &line);
    assert_eq!(inked(&bitmap), vec![(0, 0), (1, 0), (2, 1), (3, 1)]);
}

#[test]
fn shallow_segment_descends() {
    let mut bitmap = canvas(8, 8);
    let line = LinePlan {
        steep: false,
        start: 1,
        secondary: 3,
        ascending: false,
        shifts: vec![true, false, true],
    };
    draw_line(&mut bitmap, &line);
    assert_eq!(inked(&bitmap), vec![(2, 2), (3, 2), (1, 3)]);
}

#[test]
fn steep_segment_steps_along_y() {
    let mut bitmap = canvas(8, 8);
    let line = plan(2.0, 1.0, 2.0, 6.0);
    assert!(line.steep);
    assert_eq!(line.start, 1);
    assert_eq!(line.secondary, 2);
    draw_line(&mut bitmap, &line);
    assert_eq!(inked(&bitmap), vec![(2, 1), (2, 2), (2, 3), (2, 4), (2, 5)]);
}

#[test]
fn steep_plan_trades_the_coordinates() {
    let mut bitmap = canvas(8, 8);
    let line = LinePlan {
        steep: true,
        start: 0,
        secondary: 1,
        ascending: true,
        shifts: vec![false, true, false],
    };
    draw_line(&mut bitmap, &line);
    assert_eq!(inked(&bitmap), vec![(1, 0), (1, 1), (2, 2)]);
}

#[test]
fn pixels_off_the_canvas_are_skipped() {
    let mut bitmap = canvas(4, 4);
    let line = plan(-3.0, 2.0, 9.0, 2.0);
    assert_eq!(line.start, -3);
    assert_eq!(line.shifts.len(), 12);
    draw_line(&mut bitmap, &line);
    assert_eq!(inked(&bitmap), vec![(0, 2), (1, 2), (2, 2), (3, 2)]);
    let before = bitmap.memory.clone();
    draw_line(&mut bitmap, &plan(0.0, -1.0, 4.0, -1.0));
    draw_line(&mut bitmap, &plan(0.0, 4.0, 4.0, 4.0));
    assert_eq!(bitmap.memory, before);
}

#[test]
fn empty_plan_paints_nothing() {
    let mut bitmap = canvas(4, 4);
    let before = bitmap.memory.clone();
    let line = plan(1.5, 1.5, 1.5, 1.5);
    assert!(line.shifts.is_empty());
    draw_line(&mut bitmap, &line);
    assert_eq!(bitmap.memory, before);
}

#[test]
fn coordinates_are_truncated_toward_zero() {
    let mut bitmap = canvas(8, 4);
    let line = plan(1.9, 2.7, 4.2, 2.7);
    assert_eq!((line.start, line.secondary, line.shifts.len()), (1, 2, 3));
    draw_line(&mut bitmap, &line);
    assert_eq!(inked(&bitmap), vec![(1, 2), (2, 2), (3, 2)]);
}

#[test]
fn drawing_keeps_earlier_ink() {
    let mut bitmap = canvas(6, 6);
    draw_line(&mut bitmap, &plan(0.0, 1.0, 3.0, 1.0));
    draw_line(&mut bitmap, &plan(1.0, 0.0, 1.0, 3.0));
    assert_eq!(inked(&bitmap), vec![(1, 0), (0, 1), (1, 1), (2, 1), (1, 2)]);
}

#[test]
fn a_run_past_the_largest_coordinate_paints_nothing_more() {
    let mut bitmap = canvas(4, 4);
    let before = bitmap.memory.clone();
    let line = LinePlan {
        steep: false,
        start: isize::MAX - 1,
        secondary: 2,
        ascending: true,
        shifts: vec![false, false, false, false],
    };
    draw_line(&mut bitmap, &line);
    assert_eq!(bitmap.memory, before);
    let line = LinePlan {
        steep: true,
        start: 0,
        secondary: isize::MAX,
        ascending: true,
        shifts: vec![true, true, false],
    };
    draw_line(&mut bitmap, &line);
    assert_eq!(bitmap.memory, before);
}

#[test]
fn a_run_that_sinks_below_the_smallest_coordinate_keeps_its_ink() {
    let mut bitmap = canvas(4, 4);
    let line = LinePlan {
        steep: true,
        start: 1,
        secondary: isize::MIN,
        ascending: false,
        shifts: vec![true, false, true],
    };
    draw_line(&mut bitmap, &line);
    assert!(inked(&bitmap).is_empty());
    let line = LinePlan {
        steep: false,
        start: isize::MAX,
        secondary: 0,
        ascending: false,
        shifts: vec![false, false],
    };
    draw_line(&mut bitmap, &line);
    assert!(inked(&bitmap).is_empty());
    let line = LinePlan {
        steep: false,
        start: -1,
        secondary: 0,
        ascending: false,
        shifts: vec![false, false, true, false],
    };
    draw_line(&mut bitmap, &line);
    assert_eq!(inked(&bitmap), vec![(0, 0), (1, 0)]);
}
