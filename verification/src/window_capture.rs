//! The capture worker: owns the capture session of one window, thins the
//! stream of raw frames to a fixed cadence and hands on packed frames.

use crate::frame::{covers, normalize, packed_rows, CapturedFrame};
use crate::window::WindowHandle;
use vstd::prelude::*;

verus! {

/// Frames per second that a worker lets through.
pub const CAPTURE_FPS: u64 = 30;

/// Slots of the queue between a worker and the supervisor. A frame that
/// finds the queue full is dropped.
pub const FRAME_QUEUE_CAPACITY: usize = 5;

/// What the supervisor may ask of a worker. No request is defined so far,
/// and workers take none: the one variant keeps the type inhabited.
#[derive(Clone, Copy, Debug, PartialEq, Eq, Structural)]
pub enum WindowCaptureCommand {
    Reserved,
}

/// What a worker tells the supervisor besides frames.
#[derive(Clone, Copy, Debug, PartialEq, Eq, Structural)]
pub enum WindowCaptureMessage {
    Closed { hwnd: WindowHandle },
}

/// A worker before its session starts.
pub struct WindowCapture {
    hwnd: WindowHandle,
}

/// What a session is started with.
#[derive(Clone, Copy, Debug, PartialEq, Eq)]
pub struct WindowCaptureArgs {
    hwnd: WindowHandle,
    fps: u64,
}

/// The session's state between two raw frames. Time is counted in
/// milliseconds from a fixed instant.
pub struct Handler {
    args: WindowCaptureArgs,
    next_update: u64,
}

/// The time before which the frame after an emission at `now` is discarded.
///
/// The deadline moves on by one period. If `now` has not reached the new
/// deadline, the period is counted from `now` instead. A deadline beyond
/// what `u64` holds is `u64::MAX`.
pub open spec fn next_deadline(deadline: u64, now: u64, period: u64) -> u64 {
    let moved = deadline + period;
    let next = if now < moved {
        now + period
    } else {
        moved
    };
    if next > u64::MAX {
        u64::MAX
    } else {
        next as u64
    }
}

/// With every frame that is let through the deadline moves on by one period
/// at least, and to one period after the frame's arrival at most: over any
/// stretch of time a worker lets through no more frames than the stretch
/// has periods, and one more.
pub proof fn lemma_deadline_moves_on(deadline: u64, now: u64, period: u64)
    requires
        now >= deadline,
    ensures
        next_deadline(deadline, now, period) >= deadline + period || next_deadline(
            deadline,
            now,
            period,
        ) == u64::MAX,
        next_deadline(deadline, now, period) <= now + period,
{
}

impl WindowCapture {
    /// The window that this worker captures.
    pub closed spec fn target(&self) -> WindowHandle {
        self.hwnd
    }

    /// A worker for `hwnd`.
    pub fn new(hwnd: WindowHandle) -> (capture: Self)
        ensures
            capture.target() == hwnd,
    {
        WindowCapture { hwnd }
    }

    /// The window that this worker captures.
    pub fn hwnd(&self) -> (hwnd: WindowHandle)
        ensures
            hwnd == self.target(),
    {
        self.hwnd
    }

    /// What the session of this worker is started with.
    pub fn args(&self) -> (args: WindowCaptureArgs)
        ensures
            args.target() == self.target(),
            args.rate() == CAPTURE_FPS,
            args.wf(),
    {
        WindowCaptureArgs { hwnd: self.hwnd, fps: CAPTURE_FPS }
    }

    /// What the worker reports once its session is over. A session that
    /// could not be started is reported like a window that closed; one that
    /// ran has reported its end itself.
    pub fn finish(&self, started: bool) -> (message: Option<WindowCaptureMessage>)
        ensures
            message == if started {
                None
            } else {
                Some(WindowCaptureMessage::Closed { hwnd: self.target() })
            },
    {
        if started {
            None
        } else {
            Some(WindowCaptureMessage::Closed { hwnd: self.hwnd })
        }
    }
}

impl WindowCaptureArgs {
    /// The window to capture.
    pub closed spec fn target(&self) -> WindowHandle {
        self.hwnd
    }

    /// Frames per second to let through.
    pub closed spec fn rate(&self) -> u64 {
        self.fps
    }

    /// The rate is not zero.
    pub open spec fn wf(&self) -> bool {
        self.rate() > 0
    }

    /// Arguments for a session on `hwnd` at `fps` frames per second, unless
    /// `fps` is zero.
    pub fn new(hwnd: WindowHandle, fps: u64) -> (args: Option<Self>)
        ensures
            args is Some <==> fps > 0,
            args matches Some(a) ==> a.target() == hwnd && a.rate() == fps && a.wf(),
    {
        if fps == 0 {
            None
        } else {
            Some(WindowCaptureArgs { hwnd, fps })
        }
    }
}

impl Handler {
    /// What the session was started with.
    pub closed spec fn session(&self) -> WindowCaptureArgs {
        self.args
    }

    /// The time before which raw frames are discarded.
    pub closed spec fn deadline(&self) -> u64 {
        self.next_update
    }

    /// The rate is not zero.
    pub open spec fn wf(&self) -> bool {
        self.session().wf()
    }

    /// Milliseconds between two frames that are let through.
    pub open spec fn period(&self) -> u64 {
        (1000int / self.session().rate() as int) as u64
    }

    /// The state of a session that starts at `now`: the first frame is due at once.
    pub fn new(args: WindowCaptureArgs, now: u64) -> (handler: Self)
        requires
            args.wf(),
        ensures
            handler.session() == args,
            handler.deadline() == now,
            handler.wf(),
    {
        Handler { args, next_update: now }
    }

    /// Whether a raw frame that arrives at `now` is let through.
    pub fn is_due(&self, now: u64) -> (due: bool)
        ensures
            due == (now >= self.deadline()),
    {
        now >= self.next_update
    }

    /// Moves the deadline on after an emission at `now`.
    pub fn compute_next_update(&mut self, now: u64)
        requires
            old(self).wf(),
        ensures
            final(self).session() == old(self).session(),
            final(self).deadline() == next_deadline(
                old(self).deadline(),
                now,
                old(self).period(),
            ),
    {
        let period: u64 = 1000 / self.args.fps;
        let mut next_update: u64 = self.next_update.saturating_add(period);
        if now < next_update {
            next_update = now.saturating_add(period);
        }
        self.next_update = next_update;
    }

    /// Takes in the raw frame that arrives at `now`.
    ///
    /// A frame that comes before the deadline is discarded and changes
    /// nothing. Any other frame is packed and handed back for sending, and
    /// the deadline moves on. The rows of the raw frame lie `stride` pixels
    /// apart; where the capture mechanism does not report the stride it is
    /// [`crate::frame::aligned_stride`] of the width.
    pub fn on_frame_arrived(
        &mut self,
        now: u64,
        width: u32,
        height: u32,
        stride: u64,
        pixels: &[u8],
    ) -> (frame: Option<CapturedFrame>)
        requires
            old(self).wf(),
            covers(pixels@.len(), width as nat, height as nat, stride as nat),
        ensures
            final(self).session() == old(self).session(),
            frame is Some <==> now >= old(self).deadline(),
            frame is None ==> final(self).deadline() == old(self).deadline(),
            frame matches Some(f) ==> {
                &&& f.hwnd == old(self).session().target()
                &&& f.width == width
                &&& f.height == height
                &&& f.bytes@ == packed_rows(pixels@, width as nat, stride as nat, height as nat)
                &&& f@.wf()
                &&& final(self).deadline() == next_deadline(
                    old(self).deadline(),
                    now,
                    old(self).period(),
                )
            },
    {
        if now < self.next_update {
            return None;
        }
        let bytes = normalize(pixels, width, height, stride);
        let frame = CapturedFrame { hwnd: self.args.hwnd, width, height, bytes };
        self.compute_next_update(now);
        Some(frame)
    }

    /// The session is over: the worker reports that its window is gone.
    pub fn on_closed(&self) -> (message: WindowCaptureMessage)
        ensures
            message == (WindowCaptureMessage::Closed { hwnd: self.session().target() }),
    {
        WindowCaptureMessage::Closed { hwnd: self.args.hwnd }
    }
}

} // verus!
