use vstd::prelude::*;

use std::time::{Duration, Instant};

use crate::kitty::KittyImageId;
use crate::layout::ImagePlacement;
use crate::runtime::TimeSpan;
use crate::text::{append_decimal, append_str, chars_of, decimal};

verus! {

broadcast use vstd::string::group_string_axioms;

#[verifier::external_type_specification]
#[verifier::external_body]
pub struct ExInstant(Instant);

/// Calls `std::time::Instant::now`. A clock reading: nothing is promised of its value.
#[verifier::external_body]
fn instant_now() -> (now: Instant) {
    Instant::now()
}

/// Calls `std::time::Instant::elapsed`. It reads the clock, so nothing is promised of the
/// span it returns.
#[verifier::external_body]
fn instant_elapsed(start: &Instant) -> (elapsed: Duration) {
    start.elapsed()
}

/// Calls `std::time::Duration::as_nanos`. `Duration` is opaque here, so nothing is
/// promised of the count.
#[verifier::external_body]
fn duration_as_nanos(duration: Duration) -> (nanos: u128) {
    duration.as_nanos()
}

/// One diagnostic message, stamped with the time since its collector started.
#[derive(Clone, Debug)]
pub struct TraceEvent {
    pub target: String,
    pub message: String,
    pub elapsed: TimeSpan,
}

/// What an event says: its target, its message and its time stamp in nanoseconds.
pub open spec fn event_view(event: TraceEvent) -> (Seq<char>, Seq<char>, u64) {
    (event.target@, event.message@, event.elapsed.nanos)
}

impl TraceEvent {
    /// An event not yet stamped (its elapsed time is zero).
    pub fn new(target: &str, message: &str) -> (event: TraceEvent)
        ensures
            event_view(event) == (target@, message@, 0u64),
    {
        TraceEvent { target: target.to_owned(), message: message.to_owned(), elapsed: TimeSpan::zero() }
    }

    /// An unstamped event that takes ownership of its text.
    pub fn from_text(target: String, message: String) -> (event: TraceEvent)
        ensures
            event_view(event) == (target@, message@, 0u64),
    {
        TraceEvent { target, message, elapsed: TimeSpan::zero() }
    }

    /// A copy of the event with the same target, message and time stamp.
    pub fn duplicate(&self) -> (copy: TraceEvent)
        ensures
            event_view(copy) == event_view(*self),
    {
        TraceEvent { target: self.target.clone(), message: self.message.clone(), elapsed: self.elapsed }
    }
}

/// `after` is `before` with one event from `target` saying `message` recorded, when
/// `before` is enabled, and `before` unchanged otherwise.
pub open spec fn traced(before: TraceCollector, after: TraceCollector, target: Seq<char>, message: Seq<char>) -> bool {
    &&& !before.spec_enabled() ==> after.spec_events() == before.spec_events()
    &&& before.spec_enabled() ==> {
        &&& after.spec_events().drop_last() == before.spec_events()
        &&& after.spec_events().last().0 == target
        &&& after.spec_events().last().1 == message
    }
}

/// What a `record` or `record_at` call keeps: the enabled flag, and for a disabled
/// collector the events too.
pub open spec fn record_step(before: TraceCollector, after: TraceCollector) -> bool {
    &&& after.spec_enabled() == before.spec_enabled()
    &&& !before.spec_enabled() ==> after.spec_events() == before.spec_events()
}

/// Recording on a disabled collector has no effect: through any run of `record` and
/// `record_at` calls it stays disabled and keeps the events it started with, so a
/// collector made by `disabled()` never holds an event.
pub proof fn lemma_disabled_run_keeps_events(run: Seq<TraceCollector>)
    requires
        run.len() >= 1,
        !run[0].spec_enabled(),
        forall|i: int| 0 <= i < run.len() - 1 ==> record_step(#[trigger] run[i], run[i + 1]),
    ensures
        forall|i: int|
            0 <= i < run.len() ==> !(#[trigger] run[i]).spec_enabled() && run[i].spec_events()
                == run[0].spec_events(),
    decreases run.len(),
{
    if run.len() > 1 {
        let prefix = run.drop_last();
        assert forall|i: int| 0 <= i < prefix.len() - 1 implies record_step(
            #[trigger] prefix[i],
            prefix[i + 1],
        ) by {
            assert(record_step(run[i], run[i + 1]));
        }
        lemma_disabled_run_keeps_events(prefix);
        assert(prefix[prefix.len() - 1] == run[run.len() - 2]);
        assert(record_step(run[run.len() - 2], run[run.len() - 1]));
        assert forall|i: int| 0 <= i < run.len() implies !(#[trigger] run[i]).spec_enabled()
            && run[i].spec_events() == run[0].spec_events() by {
            if i < run.len() - 1 {
                assert(prefix[i] == run[i]);
            }
        }
    }
}

/// Collects diagnostic events in order when enabled and drops them when disabled.
#[derive(Debug)]
pub struct TraceCollector {
    enabled: bool,
    started_at: Instant,
    events: Vec<TraceEvent>,
}

impl TraceCollector {
    pub closed spec fn spec_enabled(&self) -> bool {
        self.enabled
    }

    /// The events recorded so far, oldest first.
    pub closed spec fn spec_events(&self) -> Seq<(Seq<char>, Seq<char>, u64)> {
        self.events@.map_values(|event: TraceEvent| event_view(event))
    }

    pub fn enabled() -> (collector: TraceCollector)
        ensures
            collector.spec_enabled(),
            collector.spec_events() == Seq::<(Seq<char>, Seq<char>, u64)>::empty(),
    {
        let collector = TraceCollector { enabled: true, started_at: instant_now(), events: Vec::new() };
        proof {
            assert(collector.spec_events() =~= Seq::<(Seq<char>, Seq<char>, u64)>::empty());
        }
        collector
    }

    pub fn disabled() -> (collector: TraceCollector)
        ensures
            !collector.spec_enabled(),
            collector.spec_events() == Seq::<(Seq<char>, Seq<char>, u64)>::empty(),
    {
        let collector = TraceCollector { enabled: false, started_at: instant_now(), events: Vec::new() };
        proof {
            assert(collector.spec_events() =~= Seq::<(Seq<char>, Seq<char>, u64)>::empty());
        }
        collector
    }

    /// Appends `event` stamped with `elapsed` when the collector is enabled.
    pub fn record_at(&mut self, event: TraceEvent, elapsed: TimeSpan)
        ensures
            record_step(*old(self), *final(self)),
            final(self).spec_enabled() == old(self).spec_enabled(),
            final(self).spec_events() == if old(self).spec_enabled() {
                old(self).spec_events().push((event.target@, event.message@, elapsed.nanos))
            } else {
                old(self).spec_events()
            },
    {
        if !self.enabled {
            return;
        }
        let stamped = TraceEvent { target: event.target, message: event.message, elapsed };
        let ghost before = self.events@;
        self.events.push(stamped);
        proof {
            assert(self.events@.map_values(|event: TraceEvent| event_view(event)) =~= before.map_values(
                |event: TraceEvent| event_view(event),
            ).push((event.target@, event.message@, elapsed.nanos)));
        }
    }

    /// Appends `event`, stamped with the time since the collector was created, when the
    /// collector is enabled; the stamp is a clock reading and so is left unstated.
    pub fn record(&mut self, event: TraceEvent)
        ensures
            record_step(*old(self), *final(self)),
            final(self).spec_enabled() == old(self).spec_enabled(),
            !old(self).spec_enabled() ==> final(self).spec_events() == old(self).spec_events(),
            old(self).spec_enabled() ==> {
                &&& final(self).spec_events().len() == old(self).spec_events().len() + 1
                &&& final(self).spec_events().drop_last() == old(self).spec_events()
                &&& final(self).spec_events().last().0 == event.target@
                &&& final(self).spec_events().last().1 == event.message@
            },
    {
        if !self.enabled {
            return;
        }
        let nanos = duration_as_nanos(instant_elapsed(&self.started_at));
        let clamped: u64 = if nanos > 18_446_744_073_709_551_615u128 {
            18_446_744_073_709_551_615u64
        } else {
            nanos as u64
        };
        self.record_at(event, TimeSpan::from_nanos(clamped));
        proof {
            assert(self.spec_events().drop_last() =~= old(self).spec_events());
        }
    }

    /// Copies of the recorded events, oldest first.
    pub fn snapshot(&self) -> (events: Vec<TraceEvent>)
        ensures
            events@.map_values(|event: TraceEvent| event_view(event)) == self.spec_events(),
    {
        let mut copies: Vec<TraceEvent> = Vec::new();
        let mut i: usize = 0;
        while i < self.events.len()
            invariant
                i <= self.events@.len(),
                copies@.len() == i,
                forall|j: int| 0 <= j < i ==> event_view(#[trigger] copies@[j]) == event_view(self.events@[j]),
            decreases self.events@.len() - i,
        {
            copies.push(self.events[i].duplicate());
            i = i + 1;
        }
        proof {
            assert(copies@.map_values(|event: TraceEvent| event_view(event)) =~= self.spec_events());
        }
        copies
    }
}

/// Measurements of one rendered graphics frame and its measurement window.
#[derive(Clone, Copy, Debug, PartialEq, Eq, Structural)]
pub struct GraphicsFrameTrace {
    pub tick: u64,
    pub canvas_width: u16,
    pub canvas_height: u16,
    pub placement: ImagePlacement,
    pub image_id: KittyImageId,
    pub deleted_image_id: Option<KittyImageId>,
    pub frame_bytes: usize,
    pub average_frame_bytes: u64,
    pub total_protocol_bytes: u64,
    pub skipped_deadlines: u64,
    pub interrupted: bool,
    pub encode_time: TimeSpan,
    pub frame_time: TimeSpan,
    pub frames_in_window: u64,
    pub window_elapsed: TimeSpan,
}

pub open spec fn dec(value: nat) -> Seq<char> {
    chars_of(decimal(value))
}

/// The one-line summary of a frame; `rate` is the frame rate of the window as already
/// formatted text.
pub open spec fn spec_frame_trace_message(trace: GraphicsFrameTrace, rate: Seq<char>) -> Seq<char> {
    "tick "@ + dec(trace.tick as nat) + ": "@ + dec(trace.canvas_width as nat) + "x"@ + dec(
        trace.canvas_height as nat,
    ) + " canvas, "@ + dec(trace.placement.columns as nat) + "x"@ + dec(
        trace.placement.rows as nat,
    ) + " cells at "@ + dec(trace.placement.cursor_column as nat) + ","@ + dec(
        trace.placement.cursor_row as nat,
    ) + ", "@ + rate + " fps, image "@ + dec(trace.image_id.spec_value() as nat) + ", deleted "@
        + match trace.deleted_image_id {
        Some(id) => dec(id.spec_value() as nat),
        None => "none"@,
    } + ", "@ + dec(trace.frame_bytes as nat) + " bytes sent, avg "@ + dec(
        trace.average_frame_bytes as nat,
    ) + " bytes/frame, "@ + dec(trace.total_protocol_bytes as nat) + " protocol bytes total, skipped "@
        + dec(trace.skipped_deadlines as nat) + " deadlines, interrupted "@ + if trace.interrupted {
        "yes"@
    } else {
        "no"@
    } + ", encode "@ + dec((trace.encode_time.nanos / 1000) as nat) + "us, frame "@ + dec(
        (trace.frame_time.nanos / 1000) as nat,
    ) + "us"@
}

impl GraphicsFrameTrace {
    /// The summary line, with `frames_per_second` as the already formatted frame rate.
    pub fn message(self, frames_per_second: &str) -> (message: String)
        ensures
            message@ == spec_frame_trace_message(self, frames_per_second@),
    {
        let mut text = String::new();
        append_str(&mut text, "tick ");
        append_decimal(&mut text, self.tick);
        append_str(&mut text, ": ");
        append_decimal(&mut text, self.canvas_width as u64);
        append_str(&mut text, "x");
        append_decimal(&mut text, self.canvas_height as u64);
        append_str(&mut text, " canvas, ");
        append_decimal(&mut text, self.placement.columns as u64);
        append_str(&mut text, "x");
        append_decimal(&mut text, self.placement.rows as u64);
        append_str(&mut text, " cells at ");
        append_decimal(&mut text, self.placement.cursor_column as u64);
        append_str(&mut text, ",");
        append_decimal(&mut text, self.placement.cursor_row as u64);
        append_str(&mut text, ", ");
        append_str(&mut text, frames_per_second);
        append_str(&mut text, " fps, image ");
        append_decimal(&mut text, self.image_id.value() as u64);
        append_str(&mut text, ", deleted ");
        match self.deleted_image_id {
            Some(id) => append_decimal(&mut text, id.value() as u64),
            None => append_str(&mut text, "none"),
        }
        append_str(&mut text, ", ");
        append_decimal(&mut text, self.frame_bytes as u64);
        append_str(&mut text, " bytes sent, avg ");
        append_decimal(&mut text, self.average_frame_bytes);
        append_str(&mut text, " bytes/frame, ");
        append_decimal(&mut text, self.total_protocol_bytes);
        append_str(&mut text, " protocol bytes total, skipped ");
        append_decimal(&mut text, self.skipped_deadlines);
        append_str(&mut text, " deadlines, interrupted ");
        if self.interrupted {
            append_str(&mut text, "yes");
        } else {
            append_str(&mut text, "no");
        }
        append_str(&mut text, ", encode ");
        append_decimal(&mut text, self.encode_time.nanos / 1000);
        append_str(&mut text, "us, frame ");
        append_decimal(&mut text, self.frame_time.nanos / 1000);
        append_str(&mut text, "us");
        proof {
            assert(text@ =~= spec_frame_trace_message(self, frames_per_second@));
        }
        text
    }

    /// The `graphics.frame` event carrying the summary line.
    pub fn to_trace_event(self, frames_per_second: &str) -> (event: TraceEvent)
        ensures
            event_view(event) == ("graphics.frame"@, spec_frame_trace_message(
                self,
                frames_per_second@,
            ), 0u64),
    {
        TraceEvent::from_text("graphics.frame".to_owned(), self.message(frames_per_second))
    }
}

} // verus!
