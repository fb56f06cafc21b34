//! Per-session conversation history: an append-only sequence of messages with
//! creation and update timestamps, and its rendering to prompt text.
//!
//! The rendering joins every message but the last as `"<label>: <content>"`
//! separated by blank lines, then appends the last message's raw content
//! unlabeled if and only if it is a user message (the turn's live input).

use vstd::prelude::*;

verus! {

/// One immutable message of a conversation.
pub struct ConversationMessage {
    /// `"user"` or `"assistant"`; other values pass through rendering verbatim.
    pub role: String,
    pub content: String,
    /// Epoch seconds at which the message was appended.
    pub timestamp: i64,
}

/// Mathematical image of one message.
pub ghost struct MessageView {
    pub role: Seq<char>,
    pub content: Seq<char>,
    pub timestamp: int,
}

impl View for ConversationMessage {
    type V = MessageView;

    open spec fn view(&self) -> MessageView {
        MessageView { role: self.role@, content: self.content@, timestamp: self.timestamp as int }
    }
}

/// Complete conversation history of one session.
pub struct ConversationHistory {
    /// Opaque session identifier; also the persistence key.
    pub session_id: String,
    /// Messages in insertion order.
    pub messages: Vec<ConversationMessage>,
    /// Epoch seconds at which the history was first created.
    pub created_at: i64,
    /// Epoch seconds of the latest append; never behind `created_at`.
    pub updated_at: i64,
}

/// Mathematical image of a history.
pub ghost struct HistoryView {
    pub session_id: Seq<char>,
    pub messages: Seq<MessageView>,
    pub created_at: int,
    pub updated_at: int,
}

impl View for ConversationHistory {
    type V = HistoryView;

    open spec fn view(&self) -> HistoryView {
        HistoryView {
            session_id: self.session_id@,
            messages: self.messages@.map_values(|m: ConversationMessage| m@),
            created_at: self.created_at as int,
            updated_at: self.updated_at as int,
        }
    }
}

impl MessageView {
    /// The timestamp fits the machine representation.
    pub open spec fn wf(self) -> bool {
        i64::MIN <= self.timestamp <= i64::MAX
    }
}

impl HistoryView {
    /// Timestamps fit the machine representation and the update stamp is
    /// never behind the creation stamp.
    pub open spec fn wf(self) -> bool {
        &&& i64::MIN <= self.created_at <= i64::MAX
        &&& i64::MIN <= self.updated_at <= i64::MAX
        &&& self.created_at <= self.updated_at
        &&& forall|i: int| 0 <= i < self.messages.len() ==> (#[trigger] self.messages[i]).wf()
    }
}

/// Relies on `chrono::Utc::now` and `chrono::DateTime::timestamp`: the current
/// UTC wall-clock time as whole seconds since the Unix epoch. The value
/// depends on the clock, so nothing is assumed of it.
#[verifier::external_body]
pub(crate) fn now_timestamp() -> i64 {
    chrono::Utc::now().timestamp()
}

impl ConversationHistory {
    /// A fresh, empty history for a session, stamped with the current time.
    pub fn new(session_id: String) -> (r: Self)
        ensures
            r@.session_id == session_id@,
            r@.messages =~= Seq::<MessageView>::empty(),
            r@.created_at == r@.updated_at,
            r@.wf(),
    {
        let now = now_timestamp();
        let r = ConversationHistory {
            session_id,
            messages: Vec::new(),
            created_at: now,
            updated_at: now,
        };
        assert(r@.messages =~= Seq::<MessageView>::empty());
        r
    }

    /// Append one message stamped with the current time, refreshing
    /// `updated_at` (which never moves backwards, so `wf` is preserved).
    pub fn add_message(&mut self, role: String, content: String)
        ensures
            final(self)@.session_id == old(self)@.session_id,
            final(self)@.created_at == old(self)@.created_at,
            final(self)@.messages.len() == old(self)@.messages.len() + 1,
            final(self)@.messages.drop_last() =~= old(self)@.messages,
            final(self)@.messages.last().role == role@,
            final(self)@.messages.last().content == content@,
            final(self)@.updated_at == if final(self)@.messages.last().timestamp
                > old(self)@.updated_at {
                final(self)@.messages.last().timestamp
            } else {
                old(self)@.updated_at
            },
            old(self)@.wf() ==> final(self)@.wf(),
    {
        let ts = now_timestamp();
        self.messages.push(ConversationMessage { role, content, timestamp: ts });
        if ts > self.updated_at {
            self.updated_at = ts;
        }
        assert(final(self)@.messages.drop_last() =~= old(self)@.messages);
    }
}

/// The label under which a role is rendered: the two known roles get fixed
/// labels, any other role value passes through verbatim.
pub open spec fn spec_role_label(role: Seq<char>) -> Seq<char> {
    if role == "user"@ {
        "Human"@
    } else if role == "assistant"@ {
        "Assistant"@
    } else {
        role
    }
}

/// One labeled context line: `"<label>: <content>"`.
pub open spec fn spec_labeled_line(m: MessageView) -> Seq<char> {
    spec_role_label(m.role) + ": "@ + m.content
}

/// The parts that the prompt joins: every message but the last as a labeled
/// line, then the last message's raw content if and only if it is a user
/// message.
pub open spec fn spec_prompt_parts(h: HistoryView) -> Seq<Seq<char>> {
    if h.messages.len() == 0 {
        Seq::empty()
    } else {
        let context = h.messages.drop_last().map_values(|m: MessageView| spec_labeled_line(m));
        if h.messages.last().role == "user"@ {
            context.push(h.messages.last().content)
        } else {
            context
        }
    }
}

/// Parts joined with a separator between consecutive parts.
pub open spec fn spec_join(parts: Seq<Seq<char>>, sep: Seq<char>) -> Seq<char>
    decreases parts.len(),
{
    if parts.len() == 0 {
        Seq::empty()
    } else if parts.len() == 1 {
        parts[0]
    } else {
        spec_join(parts.drop_last(), sep) + sep + parts.last()
    }
}

/// The full prompt text of a history.
pub open spec fn spec_prompt_text(h: HistoryView) -> Seq<char> {
    spec_join(spec_prompt_parts(h), "\n\n"@)
}

/// The rendered label of a role, as `spec_role_label` states.
fn role_label(role: &String) -> (r: String)
    ensures
        r@ == spec_role_label(role@),
{
    if *role == "user".to_owned() {
        "Human".to_owned()
    } else if *role == "assistant".to_owned() {
        "Assistant".to_owned()
    } else {
        role.clone()
    }
}

impl ConversationHistory {
    /// Render the history to a single prompt text: labeled context lines
    /// separated by blank lines, then the live user input unlabeled.
    /// An empty history renders to the empty string.
    pub fn to_conversation_text(&self) -> (r: String)
        ensures
            r@ == spec_prompt_text(self@),
            self@.messages.len() == 0 ==> r@ == Seq::<char>::empty(),
    {
        let n = self.messages.len();
        if n == 0 {
            return String::new();
        }
        let ghost parts = spec_prompt_parts(self@);
        let ghost context = self@.messages.drop_last().map_values(
            |m: MessageView| spec_labeled_line(m),
        );
        let mut acc = String::new();
        let mut i: usize = 0;
        while i < n - 1
            invariant
                0 < n == self@.messages.len(),
                0 <= i <= n - 1,
                context == self@.messages.drop_last().map_values(
                    |m: MessageView| spec_labeled_line(m),
                ),
                acc@ == spec_join(context.take(i as int), "\n\n"@),
            decreases n - 1 - i,
        {
            if i > 0 {
                acc.append("\n\n");
            }
            let m = &self.messages[i];
            let label = role_label(&m.role);
            acc.append(label.as_str());
            acc.append(": ");
            acc.append(m.content.as_str());
            assert(context.take(i + 1).drop_last() =~= context.take(i as int));
            assert(context[i as int] == spec_labeled_line(self@.messages[i as int]));
            i = i + 1;
        }
        assert(context.take(n - 1) =~= context);
        let last = &self.messages[n - 1];
        assert(last@ == self@.messages.last());
        if last.role == "user".to_owned() {
            if n > 1 {
                acc.append("\n\n");
            }
            acc.append(last.content.as_str());
            assert(parts.drop_last() =~= context);
            assert(parts.last() == self@.messages.last().content);
        } else {
            assert(parts =~= context);
        }
        acc
    }
}

} // verus!
