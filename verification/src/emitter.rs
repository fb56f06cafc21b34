//! The response emitter's framing and resolution logic.
//!
//! Chunks go out HTML-escaped and wrapped for inline display, between a
//! start marker and an end marker. When the stream resolves, what remains to
//! be emitted and whether the assembled response is persisted depend on the
//! outcome and on cancellation: a cancelled stream emits nothing further (in
//! particular no end marker) and persists nothing; a failed stream shows one
//! visible error chunk and then ends normally, but persists nothing.

use vstd::prelude::*;
use crate::text::{chars_to_string, str_chars};

verus! {

/// HTML escaping of one character.
pub open spec fn spec_html_escape_char(c: char) -> Seq<char> {
    if c == '&' {
        "&amp;"@
    } else if c == '<' {
        "&lt;"@
    } else if c == '>' {
        "&gt;"@
    } else if c == '"' {
        "&quot;"@
    } else if c == '\'' {
        "&#x27;"@
    } else {
        seq![c]
    }
}

/// HTML escaping of a text, character by character.
pub open spec fn spec_html_escape(s: Seq<char>) -> Seq<char>
    decreases s.len(),
{
    if s.len() == 0 {
        Seq::empty()
    } else {
        spec_html_escape_char(s[0]) + spec_html_escape(s.drop_first())
    }
}

/// HTML escaping distributes over appending one character at the end.
pub proof fn lemma_html_escape_push(s: Seq<char>, c: char)
    ensures
        spec_html_escape(s.push(c)) == spec_html_escape(s) + spec_html_escape_char(c),
    decreases s.len(),
{
    if s.len() == 0 {
        assert(s.push(c)[0] == c);
        assert(s.push(c).drop_first() =~= Seq::<char>::empty());
        assert(spec_html_escape(s.push(c)) == spec_html_escape_char(c) + spec_html_escape(
            s.push(c).drop_first(),
        ));
        assert(spec_html_escape_char(c) + Seq::<char>::empty() =~= spec_html_escape_char(c));
        assert(spec_html_escape(s) + spec_html_escape_char(c) =~= spec_html_escape_char(c));
    } else {
        assert(s.push(c).drop_first() =~= s.drop_first().push(c));
        lemma_html_escape_push(s.drop_first(), c);
        assert(s.push(c)[0] == s[0]);
        assert(spec_html_escape(s.push(c)) == spec_html_escape_char(s[0]) + (spec_html_escape(
            s.drop_first(),
        ) + spec_html_escape_char(c)));
        assert(spec_html_escape_char(s[0]) + (spec_html_escape(s.drop_first())
            + spec_html_escape_char(c)) =~= (spec_html_escape_char(s[0]) + spec_html_escape(
            s.drop_first(),
        )) + spec_html_escape_char(c));
    }
}

/// Escape a text for HTML display, as `spec_html_escape` states.
pub fn html_escape(s: &str) -> (r: String)
    ensures
        r@ == spec_html_escape(s@),
{
    let cs = str_chars(s);
    let n = cs.len();
    let mut out: Vec<char> = Vec::new();
    let mut i: usize = 0;
    assert(cs@.take(0) =~= Seq::<char>::empty());
    while i < n
        invariant
            n == cs@.len(),
            cs@ == s@,
            0 <= i <= n,
            out@ == spec_html_escape(cs@.take(i as int)),
        decreases n - i,
    {
        let c = cs[i];
        if c == '&' {
            let mut piece = str_chars("&amp;");
            out.append(&mut piece);
        } else if c == '<' {
            let mut piece = str_chars("&lt;");
            out.append(&mut piece);
        } else if c == '>' {
            let mut piece = str_chars("&gt;");
            out.append(&mut piece);
        } else if c == '"' {
            let mut piece = str_chars("&quot;");
            out.append(&mut piece);
        } else if c == '\'' {
            let mut piece = str_chars("&#x27;");
            out.append(&mut piece);
        } else {
            out.push(c);
        }
        proof {
            lemma_html_escape_push(cs@.take(i as int), cs@[i as int]);
            assert(cs@.take(i + 1) =~= cs@.take(i as int).push(cs@[i as int]));
            assert(out@ =~= spec_html_escape(cs@.take(i + 1)));
        }
        i = i + 1;
    }
    assert(cs@.take(n as int) =~= s@);
    chars_to_string(&out)
}

/// One outward protocol event of a streaming response.
pub enum ProtocolEvent {
    /// The start marker, sent before any content.
    Start,
    /// One text payload, already framed for the wire.
    Text(String),
    /// The end marker; never sent once the stream is cancelled.
    End,
}

/// Mathematical image of a protocol event.
pub ghost enum ProtocolEventView {
    Start,
    Text(Seq<char>),
    End,
}

impl View for ProtocolEvent {
    type V = ProtocolEventView;

    open spec fn view(&self) -> ProtocolEventView {
        match self {
            ProtocolEvent::Start => ProtocolEventView::Start,
            ProtocolEvent::Text(t) => ProtocolEventView::Text(t@),
            ProtocolEvent::End => ProtocolEventView::End,
        }
    }
}

/// The marker datum that opens a stream.
pub fn start_marker() -> (r: &'static str)
    ensures
        r@ == "sse-start"@,
{
    "sse-start"
}

/// The marker datum that closes an uncancelled stream.
pub fn end_marker() -> (r: &'static str)
    ensures
        r@ == "sse-end"@,
{
    "sse-end"
}

/// The wire payload of one content chunk: its escaped text wrapped for
/// inline display.
pub open spec fn spec_chunk_payload(chunk: Seq<char>) -> Seq<char> {
    "<span>"@ + spec_html_escape(chunk) + "</span>"@
}

/// Frame one content chunk for the wire, as `spec_chunk_payload` states.
pub fn render_chunk_event(chunk: &str) -> (r: String)
    ensures
        r@ == spec_chunk_payload(chunk@),
{
    let mut out = "<span>".to_owned();
    let escaped = html_escape(chunk);
    out.append(escaped.as_str());
    out.append("</span>");
    out
}

/// The wire payload of the one visible error chunk.
pub open spec fn spec_error_payload(msg: Seq<char>) -> Seq<char> {
    "<span>Error: "@ + spec_html_escape(msg) + "</span>"@
}

/// How a stream resolved, upstream of the emitter.
pub enum TurnOutcome {
    /// The generator completed the response.
    Completed,
    /// The generator failed; the message is shown to the client.
    Failed(String),
}

/// What remains to be done when a stream resolves: the events still owed to
/// the client, and whether the assembled response is appended to the store.
pub struct FinalPlan {
    pub events: Vec<ProtocolEvent>,
    pub persist: bool,
}

/// Decide the resolution of a stream.
///
/// Once cancellation is observed nothing further is emitted — no end marker
/// — and the unfinished turn is not persisted. An uncancelled completed
/// stream ends with the end marker and is persisted. An uncancelled failed
/// stream shows one visible error chunk, then the end marker, and is not
/// persisted.
pub fn finalize_turn(outcome: &TurnOutcome, cancelled: bool) -> (r: FinalPlan)
    ensures
        r.persist == (!cancelled && outcome is Completed),
        cancelled ==> r.events@.len() == 0,
        !cancelled ==> (match *outcome {
            TurnOutcome::Completed => r.events@.map_values(|e: ProtocolEvent| e@) == seq![
                ProtocolEventView::End,
            ],
            TurnOutcome::Failed(msg) => r.events@.map_values(|e: ProtocolEvent| e@) == seq![
                ProtocolEventView::Text(spec_error_payload(msg@)),
                ProtocolEventView::End,
            ],
        }),
{
    let mut events: Vec<ProtocolEvent> = Vec::new();
    if cancelled {
        return FinalPlan { events, persist: false };
    }
    match outcome {
        TurnOutcome::Completed => {
            events.push(ProtocolEvent::End);
            assert(events@.map_values(|e: ProtocolEvent| e@) =~= seq![ProtocolEventView::End]);
            FinalPlan { events, persist: true }
        },
        TurnOutcome::Failed(msg) => {
            let mut payload = "<span>Error: ".to_owned();
            let escaped = html_escape(msg.as_str());
            payload.append(escaped.as_str());
            payload.append("</span>");
            events.push(ProtocolEvent::Text(payload));
            events.push(ProtocolEvent::End);
            assert(events@.map_values(|e: ProtocolEvent| e@) =~= seq![
                ProtocolEventView::Text(spec_error_payload(msg@)),
                ProtocolEventView::End,
            ]);
            FinalPlan { events, persist: false }
        },
    }
}

} // verus!
