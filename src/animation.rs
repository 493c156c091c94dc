use vstd::prelude::*;
use std::time::{Duration, SystemTime, SystemTimeError};
use crate::types::Rect;

verus! {

/// std's wall-clock instant, carried through opaquely.
#[verifier::external_type_specification]
#[verifier::external_body]
pub struct ExSystemTime(std::time::SystemTime);

/// std's error for a clock that went backwards, carried through opaquely.
#[verifier::external_type_specification]
#[verifier::external_body]
pub struct ExSystemTimeError(std::time::SystemTimeError);

/// Relies on SystemTime::now: the current wall-clock time.
#[verifier::external_body]
fn system_now() -> (r: SystemTime) {
    SystemTime::now()
}

/// Relies on SystemTime::duration_since: the time from `earlier` to `now`, or an
/// error when `earlier` is later.
#[verifier::external_body]
fn time_since(now: &SystemTime, earlier: &SystemTime) -> (r: Result<Duration, SystemTimeError>) {
    now.duration_since(*earlier)
}

/// Relies on Duration::as_millis: the whole milliseconds in `d`.
#[verifier::external_body]
fn whole_millis(d: &Duration) -> (r: u128) {
    d.as_millis()
}

/// Relies on Duration::from_millis.
#[verifier::external_body]
fn millis(ms: u64) -> (r: Duration) {
    Duration::from_millis(ms)
}

/// The frame after `current` among `count` frames: looping wraps to the first,
/// otherwise the last frame holds.
pub open spec fn next_frame(current: u16, count: u16, looping: bool) -> u16 {
    if looping {
        ((current + 1) % (count as int)) as u16
    } else if current + 1 < count {
        (current + 1) as u16
    } else {
        current
    }
}

/// A strip of equally sized frames laid side by side in a texture, and which
/// one is showing.
pub struct Animation {
    pub frame_width: u16,
    pub frame_height: u16,
    start_x: i32,
    pub start_y: i32,
    frame_count: u16,
    pub current_frame: u16,
    frame_duration: Duration,
    last_frame_time: SystemTime,
    active: bool,
    pub do_loop: bool,
}

/// What an animation is, apart from when its current frame started.
pub struct AnimationView {
    pub frame_width: u16,
    pub frame_height: u16,
    pub start_x: i32,
    pub start_y: i32,
    pub frame_count: u16,
    pub current_frame: u16,
    pub frame_duration: Duration,
    pub do_loop: bool,
}

impl AnimationView {
    /// Has at least one frame, and shows one of them.
    pub open spec fn wf(&self) -> bool {
        0 < self.frame_count && self.current_frame < self.frame_count
    }

    /// Same animation, whatever its current frame.
    pub open spec fn same_strip(&self, other: AnimationView) -> bool {
        &&& self.frame_width == other.frame_width
        &&& self.frame_height == other.frame_height
        &&& self.start_x == other.start_x
        &&& self.start_y == other.start_y
        &&& self.frame_count == other.frame_count
        &&& self.frame_duration == other.frame_duration
        &&& self.do_loop == other.do_loop
    }
}

impl View for Animation {
    type V = AnimationView;

    closed spec fn view(&self) -> AnimationView {
        AnimationView {
            frame_width: self.frame_width,
            frame_height: self.frame_height,
            start_x: self.start_x,
            start_y: self.start_y,
            frame_count: self.frame_count,
            current_frame: self.current_frame,
            frame_duration: self.frame_duration,
            do_loop: self.do_loop,
        }
    }
}

impl Animation {
    /// A looping animation at its first frame, each frame shown for half a second.
    pub fn new(frame_width: u16, frame_height: u16, start_x: i32, start_y: i32, frame_count: u16) -> (r: Self)
        ensures
            r@.frame_width == frame_width,
            r@.frame_height == frame_height,
            r@.start_x == start_x,
            r@.start_y == start_y,
            r@.frame_count == frame_count,
            r@.current_frame == 0,
            r@.do_loop,
    {
        Self {
            frame_width: frame_width,
            frame_height: frame_height,
            start_x: start_x,
            start_y: start_y,
            frame_count: frame_count,
            current_frame: 0,
            frame_duration: millis(500),
            last_frame_time: system_now(),
            active: false,
            do_loop: true,
        }
    }

    pub fn set_duration(&mut self, duration: Duration)
        ensures
            final(self)@ == (AnimationView { frame_duration: duration, ..old(self)@ }),
    {
        self.frame_duration = duration;
    }

    /// The texture rectangle of the current frame.
    pub fn calc_frame(&self) -> (r: Rect)
        requires
            i32::MIN <= self@.start_x + self@.current_frame * self@.frame_width <= i32::MAX,
        ensures
            r == (Rect {
                x: (self@.start_x + self@.current_frame * self@.frame_width) as i32,
                y: self@.start_y,
                w: self@.frame_width,
                h: self@.frame_height,
            }),
    {
        let x_pos = self.start_x as i64 + (self.current_frame as i64) * (self.frame_width as i64);
        Rect { x: x_pos as i32, y: self.start_y, w: self.frame_width, h: self.frame_height }
    }

    /// The rectangle of the current frame in a strip that starts at the texture's
    /// left edge.
    pub(crate) fn strip_frame(&self) -> (r: Rect)
        requires
            self@.current_frame * self@.frame_width <= u16::MAX,
        ensures
            r == (Rect {
                x: (self@.current_frame * self@.frame_width) as i32,
                y: self@.start_y,
                w: self@.frame_width,
                h: self@.frame_height,
            }),
    {
        let x_pos = self.current_frame * self.frame_width;
        Rect { x: x_pos as i32, y: self.start_y, w: self.frame_width, h: self.frame_height }
    }

    /// Moves to the next frame (see `next_frame`).
    pub fn advance(&mut self)
        requires
            old(self)@.wf(),
        ensures
            final(self)@.wf(),
            final(self)@.current_frame == next_frame(old(self)@.current_frame, old(self)@.frame_count, old(self)@.do_loop),
            final(self)@.same_strip(old(self)@),
    {
        if self.do_loop {
            self.current_frame = (self.current_frame + 1) % self.frame_count;
        } else if self.current_frame < self.frame_count - 1 {
            self.current_frame += 1;
        }
    }

    /// Shows frame `frame`.
    pub fn set_current_frame(&mut self, frame: u16)
        ensures
            final(self)@ == (AnimationView { current_frame: frame, ..old(self)@ }),
    {
        self.current_frame = frame;
    }

    /// Chooses whether the animation wraps to its first frame after the last.
    pub fn set_do_loop(&mut self, do_loop: bool)
        ensures
            final(self)@ == (AnimationView { do_loop, ..old(self)@ }),
    {
        self.do_loop = do_loop;
    }

    /// Moves to the next frame exactly when `elapsed_ms`, the time the current
    /// frame has shown, exceeds `duration_ms`, the time each frame shows; says
    /// whether it did.
    pub fn advance_if_elapsed(&mut self, elapsed_ms: u128, duration_ms: u128) -> (r: bool)
        requires
            old(self)@.wf(),
        ensures
            r == (elapsed_ms > duration_ms),
            final(self)@.wf(),
            final(self)@.same_strip(old(self)@),
            final(self)@.current_frame == if r {
                next_frame(old(self)@.current_frame, old(self)@.frame_count, old(self)@.do_loop)
            } else {
                old(self)@.current_frame
            },
    {
        if elapsed_ms > duration_ms {
            self.advance();
            true
        } else {
            false
        }
    }

    /// Reads the wall clock and moves to the next frame once the current one has
    /// shown for longer than the frame duration, in whole milliseconds (see
    /// `advance_if_elapsed`). A clock that went backwards changes nothing.
    pub fn tick(&mut self)
        requires
            old(self)@.wf(),
        ensures
            final(self)@.wf(),
            final(self)@.current_frame == old(self)@.current_frame || final(self)@.current_frame == next_frame(
                old(self)@.current_frame,
                old(self)@.frame_count,
                old(self)@.do_loop,
            ),
            final(self)@.same_strip(old(self)@),
    {
        let now = system_now();
        match time_since(&now, &self.last_frame_time) {
            Ok(duration) => {
                let elapsed = whole_millis(&duration);
                let limit = whole_millis(&self.frame_duration);
                if self.advance_if_elapsed(elapsed, limit) {
                    self.last_frame_time = now;
                }
            },
            Err(_) => {},
        }
    }
}

} // verus!
