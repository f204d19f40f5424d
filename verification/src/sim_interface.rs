//! The data that crosses the boundary between the frame loop and the renderer.

use vstd::prelude::*;

verus! {

/// The mathematical content of a [`Bitmap`]: its dimensions and its bytes.
pub struct Canvas {
    pub width: nat,
    pub height: nat,
    pub pitch: nat,
    pub bytes: Seq<u8>,
}

/// The four bytes of a background pixel, in storage order.
pub open spec fn background() -> Seq<u8> {
    seq![53u8, 51u8, 44u8, 0u8]
}

/// The four bytes of a drawn pixel, in storage order.
pub open spec fn foreground() -> Seq<u8> {
    seq![242u8, 210u8, 52u8, 0u8]
}

impl Canvas {
    /// Rows are packed: four bytes per pixel and no padding between rows.
    pub open spec fn wf(self) -> bool {
        &&& self.pitch == self.width * 4
        &&& self.bytes.len() == self.pitch * self.height
    }

    pub open spec fn in_bounds(self, x: int, y: int) -> bool {
        0 <= x < self.width && 0 <= y < self.height
    }

    /// Index of the first byte of pixel `(x, y)`.
    pub open spec fn offset(self, x: int, y: int) -> int {
        x * 4 + y * self.pitch
    }

    /// The four bytes stored for pixel `(x, y)`.
    pub open spec fn pixel(self, x: int, y: int) -> Seq<u8> {
        self.bytes.subrange(self.offset(x, y), self.offset(x, y) + 4)
    }

    /// A canvas of the given size with every byte zero.
    pub open spec fn blank(width: nat, height: nat) -> Canvas {
        Canvas {
            width,
            height,
            pitch: width * 4,
            bytes: Seq::new(width * height * 4, |i: int| 0u8),
        }
    }

    /// The same canvas with every pixel set to the background colour.
    pub open spec fn cleared(self) -> Canvas {
        Canvas { bytes: Seq::new(self.bytes.len(), |i: int| background()[i % 4]), ..self }
    }

    /// The same canvas with pixel `(x, y)` set to the foreground colour;
    /// unchanged when `(x, y)` lies off the canvas.
    pub open spec fn plot(self, x: int, y: int) -> Canvas {
        if self.in_bounds(x, y) {
            let o = self.offset(x, y);
            Canvas {
                bytes: self.bytes.update(o, 242u8).update(o + 1, 210u8).update(o + 2, 52u8).update(
                    o + 3,
                    0u8,
                ),
                ..self
            }
        } else {
            self
        }
    }

    /// Plots the points of `points` one after another, first to last.
    pub open spec fn plot_all(self, points: Seq<(int, int)>) -> Canvas
        decreases points.len(),
    {
        if points.len() == 0 {
            self
        } else {
            self.plot_all(points.drop_last()).plot(points.last().0, points.last().1)
        }
    }
}

impl Canvas {
    /// The four bytes of a pixel on the canvas lie inside its storage, at a
    /// multiple of four.
    pub proof fn lemma_offset_in_range(self, x: int, y: int)
        requires
            self.wf(),
            self.in_bounds(x, y),
        ensures
            0 <= self.offset(x, y),
            self.offset(x, y) + 4 <= self.bytes.len(),
            self.offset(x, y) % 4 == 0,
    {
        let w = self.width as int;
        let h = self.height as int;
        assert(0 <= y * (w * 4) && y * (w * 4) + w * 4 <= (w * 4) * h && y * (w * 4) == 4 * (y
            * w)) by (nonlinear_arith)
            requires
                0 <= y < h,
                0 <= w,
        ;
    }

    /// Two different pixels of the canvas share no byte.
    pub proof fn lemma_offsets_apart(self, x1: int, y1: int, x2: int, y2: int)
        requires
            self.wf(),
            self.in_bounds(x1, y1),
            self.in_bounds(x2, y2),
            (x1, y1) != (x2, y2),
        ensures
            self.offset(x1, y1) + 4 <= self.offset(x2, y2) || self.offset(x2, y2) + 4
                <= self.offset(x1, y1),
    {
        let p = self.pitch as int;
        if y1 < y2 {
            assert(y2 * p >= y1 * p + p) by (nonlinear_arith)
                requires
                    y1 < y2,
                    0 <= p,
            ;
        } else if y2 < y1 {
            assert(y1 * p >= y2 * p + p) by (nonlinear_arith)
                requires
                    y2 < y1,
                    0 <= p,
            ;
        }
    }

    /// After a clear every pixel reads as background.
    pub proof fn lemma_cleared_pixel(self, x: int, y: int)
        requires
            self.wf(),
            self.in_bounds(x, y),
        ensures
            self.cleared().pixel(x, y) == background(),
    {
        self.lemma_offset_in_range(x, y);
        assert(self.cleared().pixel(x, y) =~= background());
    }

    /// Clearing a cleared canvas changes nothing.
    pub proof fn lemma_clear_idempotent(self)
        ensures
            self.cleared().cleared() == self.cleared(),
    {
        assert(self.cleared().cleared().bytes =~= self.cleared().bytes);
    }

    /// Plotting keeps the canvas well formed.
    pub proof fn lemma_plot_wf(self, px: int, py: int)
        requires
            self.wf(),
        ensures
            self.plot(px, py).wf(),
            self.plot(px, py).width == self.width,
            self.plot(px, py).height == self.height,
    {
        if self.in_bounds(px, py) {
            self.lemma_offset_in_range(px, py);
        }
    }

    /// A plot turns its own pixel to foreground and leaves every other pixel
    /// as it was.
    pub proof fn lemma_plot_pixel(self, px: int, py: int, x: int, y: int)
        requires
            self.wf(),
            self.in_bounds(x, y),
        ensures
            self.plot(px, py).pixel(x, y) == if px == x && py == y {
                foreground()
            } else {
                self.pixel(x, y)
            },
    {
        self.lemma_offset_in_range(x, y);
        if self.in_bounds(px, py) {
            self.lemma_offset_in_range(px, py);
            if px == x && py == y {
                assert(self.plot(px, py).pixel(x, y) =~= foreground());
            } else {
                self.lemma_offsets_apart(px, py, x, y);
                assert(self.plot(px, py).pixel(x, y) =~= self.pixel(x, y));
            }
        }
    }

    /// On a canvas that fits in memory, a point with a coordinate beyond the
    /// machine's signed word lies off the canvas.
    pub proof fn lemma_far_is_off_canvas(self, x: int, y: int)
        requires
            self.wf(),
            self.pitch <= usize::MAX,
            self.bytes.len() <= usize::MAX,
            x < 0 || y < 0 || x > isize::MAX || y > isize::MAX,
        ensures
            !self.in_bounds(x, y),
    {
        if self.in_bounds(x, y) {
            let w = self.width as int;
            let h = self.height as int;
            assert((w * 4) * h >= 4 * h) by (nonlinear_arith)
                requires
                    w >= 1,
                    h >= 0,
            ;
        }
    }

    /// Points off the canvas at the end of a run can be left out.
    pub proof fn lemma_plot_all_off_canvas_tail(self, points: Seq<(int, int)>, n: int)
        requires
            self.wf(),
            0 <= n <= points.len(),
            forall|k: int| n <= k < points.len() ==> !self.in_bounds(points[k].0, points[k].1),
        ensures
            self.plot_all(points) == self.plot_all(points.take(n)),
        decreases points.len(),
    {
        if points.len() > n {
            let before = points.drop_last();
            self.lemma_plot_all_off_canvas_tail(before, n);
            self.lemma_plot_all_wf(before);
            assert(before.take(n) =~= points.take(n));
            assert(!self.in_bounds(points[points.len() - 1].0, points[points.len() - 1].1));
        } else {
            assert(points.take(n) =~= points);
        }
    }

    /// Plotting a run keeps the canvas well formed.
    pub proof fn lemma_plot_all_wf(self, points: Seq<(int, int)>)
        requires
            self.wf(),
        ensures
            self.plot_all(points).wf(),
            self.plot_all(points).width == self.width,
            self.plot_all(points).height == self.height,
        decreases points.len(),
    {
        if points.len() > 0 {
            self.lemma_plot_all_wf(points.drop_last());
            self.plot_all(points.drop_last()).lemma_plot_wf(points.last().0, points.last().1);
        }
    }

    /// After a run is plotted, a pixel reads as foreground where the run
    /// holds it and as before where it does not.
    pub proof fn lemma_plot_all_pixel(self, points: Seq<(int, int)>, x: int, y: int)
        requires
            self.wf(),
            self.in_bounds(x, y),
        ensures
            self.plot_all(points).pixel(x, y) == if points.contains((x, y)) {
                foreground()
            } else {
                self.pixel(x, y)
            },
        decreases points.len(),
    {
        if points.len() > 0 {
            let before = points.drop_last();
            let last = points.last();
            self.lemma_plot_all_pixel(before, x, y);
            self.lemma_plot_all_wf(before);
            self.plot_all(before).lemma_plot_pixel(last.0, last.1, x, y);
            if last == (x, y) {
                assert(points[points.len() - 1] == (x, y));
            } else if points.contains((x, y)) {
                let i = choose|i: int| 0 <= i < points.len() && points[i] == (x, y);
                assert(before[i] == (x, y));
            } else if before.contains((x, y)) {
                let i = choose|i: int| 0 <= i < before.len() && before[i] == (x, y);
                assert(points[i] == (x, y));
            }
        }
    }
}

/// A framebuffer of `width` by `height` pixels, four bytes each, rows
/// `pitch` bytes apart.
pub struct Bitmap {
    pub memory: Vec<u8>,
    pub width: usize,
    pub height: usize,
    pub pitch: usize,
}

impl View for Bitmap {
    type V = Canvas;

    open spec fn view(&self) -> Canvas {
        Canvas {
            width: self.width as nat,
            height: self.height as nat,
            pitch: self.pitch as nat,
            bytes: self.memory@,
        }
    }
}

impl Bitmap {
    /// Allocates a zeroed framebuffer.
    pub fn new(width: usize, height: usize) -> (bitmap: Bitmap)
        requires
            width * 4 <= usize::MAX,
            width * height * 4 <= usize::MAX,
        ensures
            bitmap@ == Canvas::blank(width as nat, height as nat),
            bitmap@.wf(),
    {
        assert(0 <= width * height <= width * height * 4 && (width * 4) * height == width * height
            * 4) by (nonlinear_arith)
            requires
                0 <= width,
                0 <= height,
        ;
        let memory: Vec<u8> = vec![0u8; width * height * 4];
        assert(memory@ =~= Seq::new((width * height * 4) as nat, |i: int| 0u8));
        Bitmap { memory, width, height, pitch: width * 4 }
    }

    /// Tests whether the rows are packed and the storage is as long as the
    /// dimensions say.
    pub fn is_wf(&self) -> (ok: bool)
        ensures
            ok == self@.wf(),
    {
        let len: usize = self.memory.len();
        match self.width.checked_mul(4) {
            Some(row) => row == self.pitch && match self.pitch.checked_mul(self.height) {
                Some(bytes) => bytes == len,
                None => false,
            },
            None => false,
        }
    }
}

/// One word of the command line, with the number it denotes.
#[derive(Debug, PartialEq, Eq)]
pub struct Token {
    /// The word as it was typed.
    pub text: String,
    /// The bit pattern of the single-precision number that `text` denotes,
    /// or `None` where it denotes none. The library carries such patterns
    /// around and never computes with them.
    pub number: Option<u32>,
}

/// One digital button: how often it changed during the frame and where it
/// ended.
pub struct Button {
    pub half_transition_count: usize,
    pub ended_down: bool,
}

impl Default for Button {
    /// A button at rest.
    fn default() -> (button: Button)
        ensures
            button.half_transition_count == 0,
            !button.ended_down,
    {
        Button { half_transition_count: 0, ended_down: false }
    }
}

/// The buttons of one controller.
pub struct Controller {
    pub active: usize,
    pub up: Button,
    pub down: Button,
    pub left: Button,
    pub right: Button,
    pub left_shoulder: Button,
    pub right_shoulder: Button,
    pub a: Button,
    pub b: Button,
    pub x: Button,
    pub y: Button,
}

impl Controller {
    /// Every button is at rest.
    pub open spec fn at_rest(&self) -> bool {
        let rest = Button { half_transition_count: 0, ended_down: false };
        &&& self.up == rest
        &&& self.down == rest
        &&& self.left == rest
        &&& self.right == rest
        &&& self.left_shoulder == rest
        &&& self.right_shoulder == rest
        &&& self.a == rest
        &&& self.b == rest
        &&& self.x == rest
        &&& self.y == rest
    }
}

impl Default for Controller {
    /// An inactive controller with every button at rest.
    fn default() -> (controller: Controller)
        ensures
            controller.active == 0,
            controller.at_rest(),
    {
        Controller {
            active: 0,
            up: Button::default(),
            down: Button::default(),
            left: Button::default(),
            right: Button::default(),
            left_shoulder: Button::default(),
            right_shoulder: Button::default(),
            a: Button::default(),
            b: Button::default(),
            x: Button::default(),
            y: Button::default(),
        }
    }
}

/// The bit pattern of one sixtieth as a single-precision number.
pub const FRAME_SECONDS: u32 = 0x3C88_8889;

/// What the frame loop hands the renderer each frame.
pub struct Input {
    /// The bit pattern of the frame's length in seconds, a single-precision
    /// number.
    pub dt: u32,
    pub keyboard: Controller,
    pub command_line: Vec<Token>,
}

impl Input {
    /// An input for a frame of one sixtieth of a second, with the given
    /// command line and an active keyboard at rest.
    pub fn new(command_line: Vec<Token>) -> (input: Input)
        ensures
            input.dt == FRAME_SECONDS,
            input.command_line == command_line,
            input.keyboard.active == 1,
            input.keyboard.at_rest(),
    {
        let mut keyboard: Controller = Controller::default();
        keyboard.active = 1;
        Input { dt: FRAME_SECONDS, keyboard, command_line }
    }
}

} // verus!
