use vstd::prelude::*;

use crate::layout::CellSize;
use crate::terminal::{
    spec_minimum_size, validate_terminal_environment, TerminalSize, TerminalValidationError,
};

verus! {

/// A span of time in whole nanoseconds.
#[derive(Clone, Copy, Debug, PartialEq, Eq, Structural)]
pub struct TimeSpan {
    pub nanos: u64,
}

/// A point in time, in nanoseconds after an origin that the caller chooses and keeps.
#[derive(Clone, Copy, Debug, PartialEq, Eq, Structural)]
pub struct TimePoint {
    pub nanos: u64,
}

impl TimeSpan {
    pub fn from_nanos(nanos: u64) -> (span: TimeSpan)
        ensures
            span.nanos == nanos,
    {
        TimeSpan { nanos }
    }

    pub fn from_millis(millis: u64) -> (span: TimeSpan)
        requires
            millis * 1_000_000 <= u64::MAX,
        ensures
            span.nanos == millis * 1_000_000,
    {
        TimeSpan { nanos: millis * 1_000_000 }
    }

    pub fn zero() -> (span: TimeSpan)
        ensures
            span.nanos == 0,
    {
        TimeSpan { nanos: 0 }
    }

    pub fn as_nanos(self) -> (nanos: u64)
        ensures
            nanos == self.nanos,
    {
        self.nanos
    }

    /// The whole milliseconds in the span, rounded down.
    pub fn as_millis(self) -> (millis: u64)
        ensures
            millis == self.nanos / 1_000_000,
    {
        self.nanos / 1_000_000
    }

    pub fn is_zero(self) -> (zero: bool)
        ensures
            zero == (self.nanos == 0),
    {
        self.nanos == 0
    }
}

impl TimePoint {
    pub fn from_nanos(nanos: u64) -> (point: TimePoint)
        ensures
            point.nanos == nanos,
    {
        TimePoint { nanos }
    }

    pub fn as_nanos(self) -> (nanos: u64)
        ensures
            nanos == self.nanos,
    {
        self.nanos
    }

    /// The point `span` later than this one.
    pub fn after(self, span: TimeSpan) -> (point: TimePoint)
        requires
            self.nanos + span.nanos <= u64::MAX,
        ensures
            point.nanos == self.nanos + span.nanos,
    {
        TimePoint { nanos: self.nanos + span.nanos }
    }
}

/// The time since the last sample was taken at `last`, zero when there was none yet or
/// when `now` reads earlier than `last`.
pub fn time_since_sample(last: Option<TimePoint>, now: TimePoint) -> (span: TimeSpan)
    ensures
        span.nanos == match last {
            Some(sampled_at) => if now.nanos >= sampled_at.nanos {
                now.nanos - sampled_at.nanos
            } else {
                0
            },
            None => 0,
        },
{
    match last {
        Some(sampled_at) => if now.nanos >= sampled_at.nanos {
            TimeSpan { nanos: now.nanos - sampled_at.nanos }
        } else {
            TimeSpan { nanos: 0 }
        },
        None => TimeSpan { nanos: 0 },
    }
}

/// The settings of the render loop.
#[derive(Clone, Copy, Debug, PartialEq, Eq, Structural)]
pub struct RuntimeConfig {
    pub target_fps: u16,
    pub metrics_sample_interval: TimeSpan,
    pub resize_debounce: TimeSpan,
    pub image_columns: u16,
    pub image_rows: u16,
    pub cell_size: CellSize,
}

/// One second divided by the frame rate, where a rate of zero counts as one frame per second.
pub open spec fn spec_target_frame_nanos(target_fps: u16) -> u64 {
    let fps: u64 = if target_fps == 0 {
        1
    } else {
        target_fps as u64
    };
    (1_000_000_000u64 / fps) as u64
}

/// The time budget of one frame at the given rate.
pub fn target_frame_duration(target_fps: u16) -> (span: TimeSpan)
    ensures
        span.nanos == spec_target_frame_nanos(target_fps),
        span.nanos > 0,
{
    let fps: u64 = if target_fps == 0 {
        1
    } else {
        target_fps as u64
    };
    assert(1_000_000_000u64 / fps >= 1) by (nonlinear_arith)
        requires
            1 <= fps <= 65535,
    ;
    TimeSpan { nanos: 1_000_000_000 / fps }
}

impl RuntimeConfig {
    pub fn frame_duration(self) -> (span: TimeSpan)
        ensures
            span.nanos == spec_target_frame_nanos(self.target_fps),
    {
        target_frame_duration(self.target_fps)
    }
}

impl Default for RuntimeConfig {
    /// Thirty frames per second, metrics every half second, a 50 ms resize debounce and a
    /// 42x14-cell viewport of 8x16-pixel cells.
    fn default() -> (config: RuntimeConfig)
        ensures
            config.target_fps == 30,
            config.metrics_sample_interval.nanos == 500_000_000,
            config.resize_debounce.nanos == 50_000_000,
            config.image_columns == 42,
            config.image_rows == 14,
            config.cell_size == (CellSize { width_pixels: 8, height_pixels: 16 }),
    {
        RuntimeConfig {
            target_fps: 30,
            metrics_sample_interval: TimeSpan::from_millis(500),
            resize_debounce: TimeSpan::from_millis(50),
            image_columns: 42,
            image_rows: 14,
            cell_size: CellSize::new(8, 16),
        }
    }
}

/// The next frame deadline and how many deadlines were passed over to reach it.
#[derive(Clone, Copy, Debug, PartialEq, Eq, Structural)]
pub struct FrameDeadlineAdvance {
    pub next_deadline: TimePoint,
    pub skipped_deadlines: u64,
}

/// How many whole frames of `frame` lie between `previous` and `now`: the deadlines after
/// `previous` that `now` has already reached, less the one that is due now.
pub open spec fn spec_skipped_deadlines(previous: u64, frame: u64, now: u64) -> nat {
    if frame == 0 || now <= previous {
        0
    } else {
        ((now - previous) as nat / frame as nat) as nat
    }
}

/// Where the next deadline falls: `now` for a zero frame duration, else the first deadline
/// on the grid `previous + k * frame` (k >= 1) that lies after `now`.
pub open spec fn spec_next_deadline(previous: u64, frame: u64, now: u64) -> int {
    if frame == 0 {
        now as int
    } else {
        previous + (spec_skipped_deadlines(previous, frame, now) + 1) * frame
    }
}

/// Moves the frame deadline forward on its own grid rather than from the time the frame
/// finished, skipping over every deadline that has already passed.
pub fn advance_frame_deadline(
    previous_deadline: TimePoint,
    frame_duration: TimeSpan,
    now: TimePoint,
) -> (advance: FrameDeadlineAdvance)
    requires
        spec_next_deadline(previous_deadline.nanos, frame_duration.nanos, now.nanos)
            <= u64::MAX,
    ensures
        advance.next_deadline.nanos == spec_next_deadline(
            previous_deadline.nanos,
            frame_duration.nanos,
            now.nanos,
        ),
        advance.skipped_deadlines == spec_skipped_deadlines(
            previous_deadline.nanos,
            frame_duration.nanos,
            now.nanos,
        ),
        frame_duration.nanos > 0 ==> advance.next_deadline.nanos > now.nanos,
        frame_duration.nanos > 0 ==> advance.next_deadline.nanos == previous_deadline.nanos + (
        advance.skipped_deadlines + 1) * frame_duration.nanos,
        frame_duration.nanos > 0 && advance.skipped_deadlines > 0 ==> previous_deadline.nanos
            + advance.skipped_deadlines * frame_duration.nanos <= now.nanos,
{
    let previous = previous_deadline.nanos;
    let frame = frame_duration.nanos;
    if frame == 0 {
        return FrameDeadlineAdvance { next_deadline: now, skipped_deadlines: 0 };
    }
    let skipped: u64 = if now.nanos <= previous {
        0
    } else {
        (now.nanos - previous) / frame
    };
    proof {
        lemma_deadline_grid(previous as int, frame as int, now.nanos as int, skipped as int);
    }
    let steps: u64 = skipped + 1;
    let next: u64 = previous + steps * frame;
    FrameDeadlineAdvance { next_deadline: TimePoint { nanos: next }, skipped_deadlines: skipped }
}

proof fn lemma_deadline_grid(previous: int, frame: int, now: int, skipped: int)
    requires
        frame > 0,
        previous >= 0,
        now >= 0,
        skipped == (if now <= previous {
            0
        } else {
            (now - previous) / frame
        }),
    ensures
        skipped >= 0,
        previous + (skipped + 1) * frame > now,
        skipped > 0 ==> previous + skipped * frame <= now,
        skipped * frame <= (skipped + 1) * frame,
        (skipped + 1) * frame == skipped * frame + frame,
{
    if now > previous {
        let d = now - previous;
        vstd::arithmetic::div_mod::lemma_fundamental_div_mod(d, frame);
        assert(d == frame * (d / frame) + d % frame);
        assert(0 <= d % frame < frame);
        vstd::arithmetic::div_mod::lemma_div_pos_is_pos(d, frame);
        assert((skipped + 1) * frame == skipped * frame + frame) by (nonlinear_arith);
        assert(frame * skipped == skipped * frame) by (nonlinear_arith);
    } else {
        assert((skipped + 1) * frame == skipped * frame + frame) by (nonlinear_arith);
    }
    assert(skipped * frame >= 0) by (nonlinear_arith)
        requires
            skipped >= 0,
            frame > 0,
    ;
}

/// What to do after the terminal settles at a new size.
#[derive(Clone, Copy, Debug, PartialEq, Eq, Structural)]
pub enum ResizeDecision {
    Redraw { size: TerminalSize },
    Suspend { actual: TerminalSize, minimum: TerminalSize },
}

/// Redraw at a size the runtime supports; suspend with the minimum size otherwise.
pub open spec fn spec_resize_decision(size: TerminalSize) -> ResizeDecision {
    if size.width >= 80 && size.height >= 24 {
        ResizeDecision::Redraw { size }
    } else {
        ResizeDecision::Suspend { actual: size, minimum: spec_minimum_size() }
    }
}

pub fn resize_decision(size: TerminalSize) -> (decision: ResizeDecision)
    ensures
        decision == spec_resize_decision(size),
{
    match validate_terminal_environment(true, size) {
        Ok(()) => ResizeDecision::Redraw { size },
        Err(TerminalValidationError::TooSmall { actual, minimum }) => ResizeDecision::Suspend {
            actual,
            minimum,
        },
        Err(TerminalValidationError::StdoutNotTerminal) => ResizeDecision::Redraw { size },
    }
}

/// Holds back resize events until the terminal has kept one size for the debounce delay.
#[derive(Debug)]
pub struct ResizeDebouncer {
    delay: TimeSpan,
    pending_size: Option<TerminalSize>,
    ready_at: Option<TimePoint>,
}

impl ResizeDebouncer {
    /// A size is pending exactly when a time to act on it is set.
    #[verifier::type_invariant]
    spec fn pending_matches_deadline(self) -> bool {
        self.pending_size is Some <==> self.ready_at is Some
    }

    pub closed spec fn spec_delay(self) -> TimeSpan {
        self.delay
    }

    /// The size waiting to be acted on and the time from which it may be.
    pub closed spec fn spec_pending(self) -> Option<(TerminalSize, TimePoint)> {
        match (self.pending_size, self.ready_at) {
            (Some(size), Some(at)) => Some((size, at)),
            _ => None,
        }
    }

    pub fn new(delay: TimeSpan) -> (debouncer: ResizeDebouncer)
        ensures
            debouncer.spec_delay() == delay,
            debouncer.spec_pending() is None,
    {
        ResizeDebouncer { delay, pending_size: None, ready_at: None }
    }

    /// Records the latest size; it replaces any size still pending and restarts the delay.
    pub fn observe(&mut self, size: TerminalSize, now: TimePoint)
        requires
            now.nanos + old(self).spec_delay().nanos <= u64::MAX,
        ensures
            final(self).spec_delay() == old(self).spec_delay(),
            final(self).spec_pending() == Some(
                (size, TimePoint { nanos: (now.nanos + old(self).spec_delay().nanos) as u64 }),
            ),
    {
        let ready = now.after(self.delay);
        *self = ResizeDebouncer { delay: self.delay, pending_size: Some(size), ready_at: Some(ready) };
    }

    /// When the pending size becomes due, if one is pending.
    pub fn ready_at(&self) -> (at: Option<TimePoint>)
        ensures
            at == (match self.spec_pending() {
                Some(pending) => Some(pending.1),
                None => None::<TimePoint>,
            }),
    {
        proof {
            use_type_invariant(self);
        }
        self.ready_at
    }

    /// Hands out the decision for the pending size once its time has come, and forgets it;
    /// before then, or with nothing pending, returns `None` and changes nothing.
    pub fn take_due(&mut self, now: TimePoint) -> (decision: Option<ResizeDecision>)
        ensures
            final(self).spec_delay() == old(self).spec_delay(),
            match old(self).spec_pending() {
                Some((size, at)) => if now.nanos < at.nanos {
                    &&& decision is None
                    &&& final(self).spec_pending() == old(self).spec_pending()
                } else {
                    &&& decision == Some(spec_resize_decision(size))
                    &&& final(self).spec_pending() is None
                },
                None => decision is None && final(self).spec_pending() is None,
            },
    {
        proof {
            use_type_invariant(&*self);
        }
        let ready_at = match self.ready_at {
            Some(at) => at,
            None => {
                return None;
            },
        };
        if now.nanos < ready_at.nanos {
            return None;
        }
        let size = match self.pending_size {
            Some(size) => size,
            None => {
                return None;
            },
        };
        *self = ResizeDebouncer { delay: self.delay, pending_size: None, ready_at: None };
        Some(resize_decision(size))
    }
}


/// How long the frame loop waits for input: until the next frame is due, at most
/// `interval`, and no later than a pending resize becomes due. A time already passed counts
/// as no wait.
pub open spec fn spec_input_poll_timeout(
    now: u64,
    next_frame_at: u64,
    resize_ready_at: Option<u64>,
    interval: u64,
) -> u64 {
    let until_frame: u64 = if next_frame_at > now { (next_frame_at - now) as u64 } else { 0 };
    let capped: u64 = if until_frame < interval { until_frame } else { interval };
    match resize_ready_at {
        Some(ready) => {
            let until_resize: u64 = if ready > now { (ready - now) as u64 } else { 0 };
            if until_resize < capped { until_resize } else { capped }
        },
        None => capped,
    }
}

pub fn input_poll_timeout(
    now: TimePoint,
    next_frame_at: TimePoint,
    resize_ready_at: Option<TimePoint>,
    interval: TimeSpan,
) -> (timeout: TimeSpan)
    ensures
        timeout.nanos == spec_input_poll_timeout(
            now.nanos,
            next_frame_at.nanos,
            match resize_ready_at {
                Some(ready) => Some(ready.nanos),
                None => None,
            },
            interval.nanos,
        ),
{
    let until_frame: u64 = if next_frame_at.nanos > now.nanos { next_frame_at.nanos - now.nanos } else { 0 };
    let capped: u64 = if until_frame < interval.nanos { until_frame } else { interval.nanos };
    let wait: u64 = match resize_ready_at {
        Some(ready) => {
            let until_resize: u64 = if ready.nanos > now.nanos { ready.nanos - now.nanos } else { 0 };
            if until_resize < capped { until_resize } else { capped }
        },
        None => capped,
    };
    TimeSpan { nanos: wait }
}

/// The frame loop's measurement window: frames presented and deadlines skipped since the
/// last frame trace, and whether a resize interrupted the window.
#[derive(Clone, Copy, Debug, PartialEq, Eq, Structural)]
pub struct FrameWindow {
    pub frames: u64,
    pub skipped_deadlines: u64,
    pub interrupted: bool,
}

impl FrameWindow {
    /// A fresh window: nothing counted and not interrupted.
    pub fn new() -> (window: FrameWindow)
        ensures
            window == (FrameWindow { frames: 0, skipped_deadlines: 0, interrupted: false }),
    {
        FrameWindow { frames: 0, skipped_deadlines: 0, interrupted: false }
    }

    /// Counts a presented frame.
    pub fn record_frame(&mut self)
        requires
            old(self).frames < u64::MAX,
        ensures
            *final(self) == (FrameWindow { frames: (old(self).frames + 1) as u64, ..*old(self) }),
    {
        self.frames = self.frames + 1;
    }

    /// Counts deadlines that passed without a frame.
    pub fn record_skipped(&mut self, skipped: u64)
        requires
            old(self).skipped_deadlines + skipped <= u64::MAX,
        ensures
            *final(self) == (FrameWindow {
                skipped_deadlines: (old(self).skipped_deadlines + skipped) as u64,
                ..*old(self)
            }),
    {
        self.skipped_deadlines = self.skipped_deadlines + skipped;
    }

    /// A frame trace is due on every tick that is a multiple of the target frame rate
    /// (with a rate of zero, only on tick zero).
    pub fn trace_due(tick: u64, target_fps: u16) -> (due: bool)
        ensures
            due == if target_fps == 0 { tick == 0 } else { tick % (target_fps as u64) == 0 },
    {
        if target_fps == 0 {
            tick == 0
        } else {
            tick % (target_fps as u64) == 0
        }
    }

    /// Starts a new window after a resize: the counts restart and the window is marked
    /// interrupted.
    pub fn interrupt(&mut self)
        ensures
            *final(self) == (FrameWindow { frames: 0, skipped_deadlines: 0, interrupted: true }),
    {
        *self = FrameWindow { frames: 0, skipped_deadlines: 0, interrupted: true };
    }

    /// Starts a new window after a frame trace was emitted.
    pub fn restart(&mut self)
        ensures
            *final(self) == (FrameWindow { frames: 0, skipped_deadlines: 0, interrupted: false }),
    {
        *self = FrameWindow::new();
    }
}

} // verus!
