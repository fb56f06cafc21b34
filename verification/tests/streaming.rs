//! Tests of the flush scheduler's pacing, cancellation, the outward event
//! framing, and the streaming configuration.

use kindle_chat::config::StreamingConfig;
use kindle_chat::emitter::{
    end_marker, finalize_turn, html_escape, render_chunk_event, start_marker, FinalPlan,
    ProtocolEvent, TurnOutcome,
};
use kindle_chat::scheduler::{run_stream, FlushScheduler, StreamEvent};
use kindle_chat::{index, ChatForm};

#[test]
fn test_streaming_config_defaults() {
    let config = StreamingConfig::default();
    assert_eq!(config.delay_ms, 300);
}

#[test]
fn test_streaming_config_resolution_order() {
    // The first source holding a value wins.
    let resolved = StreamingConfig::resolve(&vec![None, Some(500), Some(100)]);
    assert_eq!(resolved.delay_ms, 500);
    // With no source, the default applies.
    let fallback = StreamingConfig::resolve(&vec![None, None]);
    assert_eq!(fallback.delay_ms, 300);
}

#[test]
fn test_config_debug_returns_the_active_config() {
    let config = StreamingConfig { delay_ms: 500 };
    assert_eq!(kindle_chat::config::config_debug(&config).delay_ms, 500);
}

/// With a 100ms interval, deltas at t=0,10,150,160ms and completion at
/// t=170ms see one tick (at t=100) before completion: exactly two chunks go
/// out, never one per delta.
#[test]
fn test_coalescing_scenario() {
    let mut sched = FlushScheduler::new();
    let mut chunks: Vec<String> = Vec::new();

    // t=0ms and t=10ms: two deltas, no tick yet.
    for delta in ["He", "llo "] {
        let eff = sched.step(StreamEvent::Delta(delta.to_string()));
        assert!(eff.chunk.is_none());
    }
    // t=100ms: the first tick after the first delta.
    let eff = sched.step(StreamEvent::Tick);
    chunks.extend(eff.chunk);
    // t=150ms and t=160ms: two more deltas.
    for delta in ["Wor", "ld"] {
        let eff = sched.step(StreamEvent::Delta(delta.to_string()));
        assert!(eff.chunk.is_none());
    }
    // t=170ms: completion flushes the remainder before the next tick.
    let eff = sched.step(StreamEvent::Done);
    chunks.extend(eff.chunk);

    assert_eq!(chunks, vec!["Hello ".to_string(), "World".to_string()]);
    assert_eq!(sched.full_text, "Hello World");
}

#[test]
fn test_tick_with_empty_buffer_emits_nothing() {
    let mut sched = FlushScheduler::new();
    let eff = sched.step(StreamEvent::Tick);
    assert!(eff.chunk.is_none());

    // Also after a flush has just drained the buffer.
    sched.step(StreamEvent::Delta("hi".to_string()));
    let first = sched.step(StreamEvent::Tick);
    assert_eq!(first.chunk, Some("hi".to_string()));
    let second = sched.step(StreamEvent::Tick);
    assert!(second.chunk.is_none());
}

#[test]
fn test_first_delta_starts_the_timer_once() {
    let mut sched = FlushScheduler::new();
    let eff = sched.step(StreamEvent::Delta("a".to_string()));
    assert!(eff.start_timer);
    let eff = sched.step(StreamEvent::Delta("b".to_string()));
    assert!(!eff.start_timer);
}

#[test]
fn test_completion_stops_the_timer_and_is_terminal() {
    let mut sched = FlushScheduler::new();
    sched.step(StreamEvent::Delta("tail".to_string()));
    let eff = sched.step(StreamEvent::Done);
    assert_eq!(eff.chunk, Some("tail".to_string()));
    assert!(eff.stop_timer);
    // Terminal: later events produce nothing and change nothing.
    let eff = sched.step(StreamEvent::Delta("late".to_string()));
    assert!(eff.chunk.is_none());
    assert_eq!(sched.full_text, "tail");
}

#[test]
fn test_cancellation_halts_chunks() {
    let mut sched = FlushScheduler::new();
    sched.step(StreamEvent::Delta("Hello ".to_string()));
    let eff = sched.step(StreamEvent::Tick);
    assert_eq!(eff.chunk, Some("Hello ".to_string()));

    sched.cancel();
    // Buffered text is discarded and nothing is emitted at any later event.
    sched.step(StreamEvent::Delta("World".to_string()));
    let eff = sched.step(StreamEvent::Tick);
    assert!(eff.chunk.is_none());
    let eff = sched.step(StreamEvent::Done);
    assert!(eff.chunk.is_none());
}

/// The full text keeps being assembled after cancellation, as the stream
/// drains, even though nothing more is emitted.
#[test]
fn test_cancellation_keeps_assembling_full_text() {
    let mut sched = FlushScheduler::new();
    sched.step(StreamEvent::Delta("Hello ".to_string()));
    let eff = sched.step(StreamEvent::Tick);
    assert_eq!(eff.chunk, Some("Hello ".to_string()));
    sched.step(StreamEvent::Delta("World".to_string()));

    sched.cancel();
    sched.step(StreamEvent::Delta("!".to_string()));
    sched.step(StreamEvent::Done);

    assert_eq!(sched.full_text, "Hello World!");
}

#[test]
fn test_run_stream_conserves_text_in_order() {
    let events = vec![
        StreamEvent::Delta("a".to_string()),
        StreamEvent::Tick,
        StreamEvent::Tick,
        StreamEvent::Delta("b".to_string()),
        StreamEvent::Delta("c".to_string()),
        StreamEvent::Done,
    ];
    let (chunks, sched) = run_stream(&events);
    assert_eq!(chunks, vec!["a".to_string(), "bc".to_string()]);
    assert_eq!(sched.full_text, "abc");
    assert_eq!(sched.buffer, "");
    for chunk in &chunks {
        assert!(!chunk.is_empty());
    }
}

#[test]
fn test_run_stream_without_completion_keeps_remainder_buffered() {
    let events = vec![
        StreamEvent::Delta("a".to_string()),
        StreamEvent::Tick,
        StreamEvent::Delta("b".to_string()),
    ];
    let (chunks, sched) = run_stream(&events);
    assert_eq!(chunks, vec!["a".to_string()]);
    assert_eq!(sched.buffer, "b");
    assert_eq!(sched.full_text, "ab");
}

#[test]
fn test_html_escape_exact() {
    assert_eq!(html_escape("&<>\"'"), "&amp;&lt;&gt;&quot;&#x27;");
    assert_eq!(html_escape("no specials"), "no specials");
    assert_eq!(
        html_escape("<b>\"bold\" & 'loud'</b>"),
        "&lt;b&gt;&quot;bold&quot; &amp; &#x27;loud&#x27;&lt;/b&gt;"
    );
}

#[test]
fn test_chunk_event_framing() {
    assert_eq!(render_chunk_event("hi <there>"), "<span>hi &lt;there&gt;</span>");
}

#[test]
fn test_markers() {
    assert_eq!(start_marker(), "sse-start");
    assert_eq!(end_marker(), "sse-end");
}

fn event_texts(plan: &FinalPlan) -> Vec<String> {
    plan.events
        .iter()
        .map(|e| match e {
            ProtocolEvent::Start => "start".to_string(),
            ProtocolEvent::Text(t) => format!("text:{}", t),
            ProtocolEvent::End => "end".to_string(),
        })
        .collect()
}

#[test]
fn test_finalize_completed_turn() {
    let plan = finalize_turn(&TurnOutcome::Completed, false);
    assert_eq!(event_texts(&plan), vec!["end".to_string()]);
    assert!(plan.persist);
}

#[test]
fn test_finalize_failed_turn_shows_one_error_chunk() {
    let plan = finalize_turn(&TurnOutcome::Failed("boom & <bust>".to_string()), false);
    assert_eq!(
        event_texts(&plan),
        vec![
            "text:<span>Error: boom &amp; &lt;bust&gt;</span>".to_string(),
            "end".to_string()
        ]
    );
    assert!(!plan.persist);
}

/// Once cancellation is signaled, the end marker is never emitted and the
/// store is not updated for that turn.
#[test]
fn test_finalize_cancelled_turn_emits_nothing_and_skips_persistence() {
    let completed = finalize_turn(&TurnOutcome::Completed, true);
    assert!(completed.events.is_empty());
    assert!(!completed.persist);

    let failed = finalize_turn(&TurnOutcome::Failed("late error".to_string()), true);
    assert!(failed.events.is_empty());
    assert!(!failed.persist);
}

#[test]
fn test_index_greeting() {
    assert_eq!(index(), "Hello, Kindle AI Chat!");
}

#[test]
fn test_chat_form_carries_the_message() {
    let form = ChatForm { message: "Hello".to_string() };
    assert_eq!(form.message, "Hello");
}
