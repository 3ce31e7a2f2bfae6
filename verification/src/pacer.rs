use vstd::prelude::*;

verus! {

/// Milliseconds in a second.
pub const MILLIS_PER_SECOND: i32 = 1000;

/// Whether the frame loop goes on.
#[derive(Clone, Copy, Debug, PartialEq, Eq, Structural)]
pub enum LoopState {
    Running,
    Stopped,
}

/// The time that one frame should take at `refresh_rate` frames per second,
/// in whole milliseconds. A rate below zero asks for no pacing.
pub open spec fn target_interval(refresh_rate: int) -> int {
    if refresh_rate > 0 {
        (MILLIS_PER_SECOND as int) / refresh_rate
    } else {
        0
    }
}

/// How long to wait after a frame whose work took `elapsed_ms`, where frames
/// should take `target_ms`: what is left of the interval, or nothing where
/// the work took as long as the interval or longer.
pub open spec fn pause_after(elapsed_ms: int, target_ms: int) -> int {
    if elapsed_ms < target_ms {
        target_ms - elapsed_ms
    } else {
        0
    }
}

/// The pacing state of the frame loop.
///
/// The loop asks it once per frame whether to go on, how long the frame
/// before took, and how long to sleep once the frame's work is done; and it
/// tells it how long the frame took in all, sleep included.
#[derive(Clone, Copy, Debug, PartialEq, Eq, Structural)]
pub struct FramePacer {
    /// Whether the loop goes on.
    pub state: LoopState,
    /// Milliseconds that a frame should take.
    pub target_ms: u64,
    /// Milliseconds that the frame before took, sleep included.
    pub last_frame_ms: u64,
}

impl FramePacer {
    /// A running pacer for a display of `refresh_rate` frames per second.
    /// No frame has run yet, so the last frame counts as taking no time.
    pub fn new(refresh_rate: i32) -> (pacer: FramePacer)
        requires
            refresh_rate != 0,
        ensures
            pacer.state == LoopState::Running,
            pacer.target_ms == target_interval(refresh_rate as int),
            pacer.last_frame_ms == 0,
    {
        let target_ms: u64 = if refresh_rate > 0 {
            (MILLIS_PER_SECOND / refresh_rate) as u64
        } else {
            0
        };
        FramePacer { state: LoopState::Running, target_ms, last_frame_ms: 0 }
    }

    /// Whether the loop goes on.
    pub fn is_running(&self) -> (running: bool)
        ensures
            running == (self.state == LoopState::Running),
    {
        match self.state {
            LoopState::Running => true,
            LoopState::Stopped => false,
        }
    }

    /// Takes note that the window was asked to close: the loop stops when
    /// it next asks.
    pub fn stop(&mut self)
        ensures
            final(self).state == LoopState::Stopped,
            final(self).target_ms == old(self).target_ms,
            final(self).last_frame_ms == old(self).last_frame_ms,
    {
        self.state = LoopState::Stopped;
    }

    /// Milliseconds by which the scene moves on in this frame: the time
    /// that the frame before took.
    pub fn frame_dt(&self) -> (dt_ms: u64)
        ensures
            dt_ms == self.last_frame_ms,
    {
        self.last_frame_ms
    }

    /// Milliseconds to sleep after the work of a frame took `elapsed_ms`.
    pub fn sleep_millis(&self, elapsed_ms: u64) -> (pause_ms: u64)
        ensures
            pause_ms == pause_after(elapsed_ms as int, self.target_ms as int),
            elapsed_ms < self.target_ms ==> elapsed_ms + pause_ms == self.target_ms,
            elapsed_ms >= self.target_ms ==> pause_ms == 0,
    {
        if elapsed_ms < self.target_ms {
            self.target_ms - elapsed_ms
        } else {
            0
        }
    }

    /// Records that the frame took `total_ms` in all, sleep included.
    pub fn end_frame(&mut self, total_ms: u64)
        ensures
            final(self).last_frame_ms == total_ms,
            final(self).state == old(self).state,
            final(self).target_ms == old(self).target_ms,
    {
        self.last_frame_ms = total_ms;
    }
}

} // verus!
