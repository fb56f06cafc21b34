//! The flush scheduler: the pacing state machine of one stream.
//!
//! Deltas are accumulated in a buffer and released as one chunk on each timer
//! tick, so a slow-refresh display sees a few coalesced chunks instead of one
//! chunk per delta. Completion flushes the remainder and stops the timer; a
//! tick with an empty buffer emits nothing; once cancellation is observed, no
//! further chunk is emitted and buffered text is discarded, while the running
//! full-text accumulator keeps recording what the generator produced.

use vstd::prelude::*;

verus! {

/// One event a stream's scheduler consumes: a text delta from the generator,
/// a timer tick, or the end of the stream.
pub enum StreamEvent {
    Delta(String),
    Tick,
    Done,
}

/// Mathematical image of a stream event.
pub ghost enum StreamEventView {
    Delta(Seq<char>),
    Tick,
    Done,
}

impl View for StreamEvent {
    type V = StreamEventView;

    open spec fn view(&self) -> StreamEventView {
        match self {
            StreamEvent::Delta(t) => StreamEventView::Delta(t@),
            StreamEvent::Tick => StreamEventView::Tick,
            StreamEvent::Done => StreamEventView::Done,
        }
    }
}

/// What one step of the machine asks its surroundings to do: emit at most one
/// chunk outward, start the periodic flush timer, or stop it.
pub struct StepEffect {
    pub chunk: Option<String>,
    pub start_timer: bool,
    pub stop_timer: bool,
}

/// Per-stream scheduler state.
pub struct FlushScheduler {
    /// Text accumulated since the last flush, not yet emitted.
    pub buffer: String,
    /// Every delta seen so far, flushed or not; the turn's assembled response.
    pub full_text: String,
    /// Whether the periodic flush timer has been started.
    pub timer_running: bool,
    /// Terminal: the stream has completed.
    pub done: bool,
    /// Cancellation has been observed; set once, never unset.
    pub cancelled: bool,
}

impl FlushScheduler {
    /// Well-formedness: in a cancelled or completed stream nothing stays
    /// buffered, and the timer is stopped once the stream has completed.
    pub open spec fn wf(self) -> bool {
        &&& self.cancelled ==> self.buffer@.len() == 0
        &&& self.done ==> self.buffer@.len() == 0 && !self.timer_running
    }

    /// A scheduler for a stream on which nothing has happened yet.
    pub fn new() -> (r: Self)
        ensures
            r.buffer@.len() == 0,
            r.full_text@.len() == 0,
            !r.timer_running,
            !r.done,
            !r.cancelled,
            r.wf(),
    {
        FlushScheduler {
            buffer: String::new(),
            full_text: String::new(),
            timer_running: false,
            done: false,
            cancelled: false,
        }
    }

    /// Observe cancellation: idempotent, never unset, and any partially
    /// buffered text is discarded, never to be flushed.
    pub fn cancel(&mut self)
        ensures
            final(self).cancelled,
            final(self).buffer@.len() == 0,
            final(self).full_text@ == old(self).full_text@,
            final(self).timer_running == old(self).timer_running,
            final(self).done == old(self).done,
            old(self).wf() ==> final(self).wf(),
    {
        self.cancelled = true;
        self.buffer = String::new();
    }

    /// Advance the machine by one event.
    ///
    /// - A delta always extends the full-text accumulator (the stream keeps
    ///   being assembled even after cancellation) and, unless the stream is
    ///   cancelled, extends the buffer; the first buffered text starts the
    ///   flush timer.
    /// - A tick flushes the buffer as one chunk when it is non-empty, and
    ///   emits nothing when the buffer is empty.
    /// - Completion flushes any non-empty remainder, stops the timer, and
    ///   makes the state terminal: every later event is ignored.
    /// - Once cancellation is observed, no chunk is ever emitted.
    pub fn step(&mut self, event: StreamEvent) -> (eff: StepEffect)
        ensures
            final(self).cancelled == old(self).cancelled,
            final(self).done == (old(self).done || (!old(self).done && event@ is Done)),
            old(self).cancelled ==> eff.chunk is None,
            old(self).done ==> final(self).buffer@ == old(self).buffer@
                && final(self).full_text@ == old(self).full_text@
                && final(self).timer_running == old(self).timer_running
                && eff.chunk is None && !eff.start_timer && !eff.stop_timer,
            !old(self).done ==> (event@ matches StreamEventView::Delta(t) ==> ({
                &&& final(self).full_text@ == old(self).full_text@ + t
                &&& final(self).buffer@ == if old(self).cancelled {
                    old(self).buffer@
                } else {
                    old(self).buffer@ + t
                }
                &&& final(self).timer_running == (old(self).timer_running
                    || (!old(self).cancelled && final(self).buffer@.len() > 0))
                &&& eff.chunk is None
                &&& eff.start_timer == (!old(self).timer_running && final(self).timer_running)
                &&& !eff.stop_timer
            })),
            !old(self).done && event@ is Tick ==> ({
                &&& final(self).full_text@ == old(self).full_text@
                &&& final(self).timer_running == old(self).timer_running
                &&& !eff.start_timer && !eff.stop_timer
                &&& if !old(self).cancelled && old(self).buffer@.len() > 0 {
                    eff.chunk matches Some(c) && c@ == old(self).buffer@
                        && final(self).buffer@.len() == 0
                } else {
                    eff.chunk is None && final(self).buffer@ == old(self).buffer@
                }
            }),
            !old(self).done && event@ is Done ==> ({
                &&& final(self).full_text@ == old(self).full_text@
                &&& !final(self).timer_running
                &&& final(self).buffer@.len() == 0
                &&& !eff.start_timer
                &&& eff.stop_timer == old(self).timer_running
                &&& if !old(self).cancelled && old(self).buffer@.len() > 0 {
                    eff.chunk matches Some(c) && c@ == old(self).buffer@
                } else {
                    eff.chunk is None
                }
            }),
            eff.chunk matches Some(c) ==> c@.len() > 0,
            old(self).wf() ==> final(self).wf(),
    {
        if self.done {
            return StepEffect { chunk: None, start_timer: false, stop_timer: false };
        }
        match event {
            StreamEvent::Delta(t) => {
                self.full_text.append(t.as_str());
                let mut start_timer = false;
                if !self.cancelled {
                    self.buffer.append(t.as_str());
                    if !self.timer_running && !self.buffer.as_str().is_empty() {
                        self.timer_running = true;
                        start_timer = true;
                    }
                }
                StepEffect { chunk: None, start_timer, stop_timer: false }
            },
            StreamEvent::Tick => {
                if !self.cancelled && !self.buffer.as_str().is_empty() {
                    let chunk = self.buffer.clone();
                    self.buffer = String::new();
                    StepEffect { chunk: Some(chunk), start_timer: false, stop_timer: false }
                } else {
                    StepEffect { chunk: None, start_timer: false, stop_timer: false }
                }
            },
            StreamEvent::Done => {
                let stop_timer = self.timer_running;
                self.timer_running = false;
                self.done = true;
                if !self.cancelled && !self.buffer.as_str().is_empty() {
                    let chunk = self.buffer.clone();
                    self.buffer = String::new();
                    StepEffect { chunk: Some(chunk), start_timer: false, stop_timer }
                } else {
                    self.buffer = String::new();
                    StepEffect { chunk: None, start_timer: false, stop_timer }
                }
            },
        }
    }
}

/// Concatenation of a sequence of chunks.
pub open spec fn spec_chunks_concat(chunks: Seq<Seq<char>>) -> Seq<char>
    decreases chunks.len(),
{
    if chunks.len() == 0 {
        Seq::empty()
    } else {
        spec_chunks_concat(chunks.drop_last()) + chunks.last()
    }
}

/// Concatenation of the delta payloads of an event sequence, up to the first
/// completion event: what the assembled response of that stream is.
pub open spec fn spec_deltas_concat(events: Seq<StreamEventView>) -> Seq<char>
    decreases events.len(),
{
    if events.len() == 0 {
        Seq::empty()
    } else {
        match events[0] {
            StreamEventView::Delta(t) => t + spec_deltas_concat(events.drop_first()),
            StreamEventView::Tick => spec_deltas_concat(events.drop_first()),
            StreamEventView::Done => Seq::empty(),
        }
    }
}

/// Replay a whole uncancelled stream through a fresh scheduler.
///
/// This is the conservation statement of the pacing algorithm: every chunk is
/// non-empty, the chunks in order concatenate to exactly the deltas accepted
/// before completion (nothing lost, duplicated or reordered, up to the text
/// still buffered when the event sequence ends without completion), and a
/// completed stream leaves nothing buffered.
pub fn run_stream(events: &Vec<StreamEvent>) -> (r: (Vec<String>, FlushScheduler))
    ensures
        forall|i: int| 0 <= i < r.0@.len() ==> (#[trigger] r.0@[i])@.len() > 0,
        spec_chunks_concat(r.0@.map_values(|c: String| c@)) + r.1.buffer@ == spec_deltas_concat(
            events@.map_values(|e: StreamEvent| e@),
        ),
        r.1.full_text@ == spec_deltas_concat(events@.map_values(|e: StreamEvent| e@)),
        (exists|i: int|
            0 <= i < events@.len() && (#[trigger] events@[i])@ is Done) ==> r.1.buffer@.len() == 0,
{
    let ghost evs = events@.map_values(|e: StreamEvent| e@);
    let mut sched = FlushScheduler::new();
    let mut chunks: Vec<String> = Vec::new();
    let mut i: usize = 0;
    assert(evs.skip(0) =~= evs);
    while i < events.len()
        invariant
            0 <= i <= events@.len(),
            evs == events@.map_values(|e: StreamEvent| e@),
            !sched.cancelled,
            sched.wf(),
            forall|j: int| 0 <= j < chunks@.len() ==> (#[trigger] chunks@[j])@.len() > 0,
            spec_chunks_concat(chunks@.map_values(|c: String| c@)) + sched.buffer@
                == sched.full_text@,
            spec_deltas_concat(evs) == sched.full_text@ + if sched.done {
                Seq::<char>::empty()
            } else {
                spec_deltas_concat(evs.skip(i as int))
            },
            sched.done ==> sched.buffer@.len() == 0,
            (exists|j: int| 0 <= j < i && (#[trigger] evs[j]) is Done) ==> sched.done,
        decreases events@.len() - i,
    {
        let ev = match &events[i] {
            StreamEvent::Delta(t) => StreamEvent::Delta(t.clone()),
            StreamEvent::Tick => StreamEvent::Tick,
            StreamEvent::Done => StreamEvent::Done,
        };
        assert(ev@ == evs[i as int]);
        assert(evs.skip(i as int).drop_first() =~= evs.skip(i + 1));
        assert(evs.skip(i as int)[0] == evs[i as int]);
        let ghost old_chunks = chunks@.map_values(|c: String| c@);
        let eff = sched.step(ev);
        if let Some(c) = eff.chunk {
            chunks.push(c);
            assert(chunks@.map_values(|cc: String| cc@).drop_last() =~= old_chunks);
        }
        i = i + 1;
    }
    assert(evs.skip(i as int).len() == 0);
    proof {
        if exists|k: int| 0 <= k < events@.len() && (#[trigger] events@[k])@ is Done {
            let k = choose|k: int| 0 <= k < events@.len() && (#[trigger] events@[k])@ is Done;
            assert(evs[k] is Done);
        }
    }
    (chunks, sched)
}

} // verus!
