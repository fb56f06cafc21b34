//! The persistence format of a conversation history: a single-line JSON
//! record with a fixed field order,
//! `{"session_id":"…","messages":[{"role":"…","content":"…","timestamp":N},…],"created_at":N,"updated_at":N}`.
//!
//! String fields are escaped character-wise (quote, backslash, newline,
//! carriage return, tab); timestamps are signed decimal integers. The decoder
//! accepts exactly this shape, and decoding what the encoder produced gives
//! the original history back (see `lemma_round_trip`).

use vstd::prelude::*;
use crate::history::{ConversationHistory, ConversationMessage, HistoryView, MessageView};
use crate::text::{chars_to_string, str_chars};

verus! {

// ---------------------------------------------------------------------------
// String escaping
// ---------------------------------------------------------------------------
/// The character an escape sequence `\x` stands for, if `x` is a valid
/// escape tail.
pub open spec fn spec_unescape_char(c: char) -> Option<char> {
    if c == '"' {
        Some('"')
    } else if c == '\\' {
        Some('\\')
    } else if c == 'n' {
        Some('\n')
    } else if c == 'r' {
        Some('\r')
    } else if c == 't' {
        Some('\t')
    } else {
        None
    }
}

/// How one character is written inside a quoted string.
pub open spec fn spec_escape_char(c: char) -> Seq<char> {
    if c == '"' {
        seq!['\\', '"']
    } else if c == '\\' {
        seq!['\\', '\\']
    } else if c == '\n' {
        seq!['\\', 'n']
    } else if c == '\r' {
        seq!['\\', 'r']
    } else if c == '\t' {
        seq!['\\', 't']
    } else {
        seq![c]
    }
}

/// A whole text, escaped character by character.
pub open spec fn spec_escape(s: Seq<char>) -> Seq<char>
    decreases s.len(),
{
    if s.len() == 0 {
        Seq::empty()
    } else {
        spec_escape_char(s[0]) + spec_escape(s.drop_first())
    }
}

/// Escaping distributes over appending one character at the end.
pub proof fn lemma_escape_push(s: Seq<char>, c: char)
    ensures
        spec_escape(s.push(c)) == spec_escape(s) + spec_escape_char(c),
    decreases s.len(),
{
    if s.len() == 0 {
        assert(s.push(c)[0] == c);
        assert(s.push(c).drop_first() =~= Seq::<char>::empty());
        assert(spec_escape(s.push(c)) == spec_escape_char(c) + spec_escape(
            s.push(c).drop_first(),
        ));
        assert(spec_escape_char(c) + Seq::<char>::empty() =~= spec_escape_char(c));
        assert(spec_escape(s) + spec_escape_char(c) =~= spec_escape_char(c));
    } else {
        assert(s.push(c).drop_first() =~= s.drop_first().push(c));
        lemma_escape_push(s.drop_first(), c);
        assert(s.push(c)[0] == s[0]);
        assert(spec_escape(s.push(c)) == spec_escape_char(s[0]) + (spec_escape(s.drop_first())
            + spec_escape_char(c)));
        assert(spec_escape_char(s[0]) + (spec_escape(s.drop_first()) + spec_escape_char(c)) =~= (
        spec_escape_char(s[0]) + spec_escape(s.drop_first())) + spec_escape_char(c));
    }
}

// ---------------------------------------------------------------------------
// Decimal integers
// ---------------------------------------------------------------------------
/// Whether a character is a decimal digit.
pub open spec fn spec_is_digit(c: char) -> bool {
    48 <= c as u32 <= 57
}

/// The numeric value of a digit character.
pub open spec fn spec_digit_val(c: char) -> int {
    c as u32 - 48
}

/// The digit character of a value below ten.
pub open spec fn spec_digit_char(d: int) -> char {
    if d == 0 {
        '0'
    } else if d == 1 {
        '1'
    } else if d == 2 {
        '2'
    } else if d == 3 {
        '3'
    } else if d == 4 {
        '4'
    } else if d == 5 {
        '5'
    } else if d == 6 {
        '6'
    } else if d == 7 {
        '7'
    } else if d == 8 {
        '8'
    } else {
        '9'
    }
}

/// The decimal digits of a natural number, most significant first.
pub open spec fn spec_digits(m: nat) -> Seq<char>
    decreases m,
{
    if m < 10 {
        seq![spec_digit_char(m as int)]
    } else {
        spec_digits(m / 10) + seq![spec_digit_char((m % 10) as int)]
    }
}

/// The decimal writing of a signed integer.
pub open spec fn spec_int_chars(n: int) -> Seq<char> {
    if n < 0 {
        seq!['-'] + spec_digits((-n) as nat)
    } else {
        spec_digits(n as nat)
    }
}

// ---------------------------------------------------------------------------
// The document
// ---------------------------------------------------------------------------
/// One message record inside the messages array.
pub open spec fn spec_msg_chars(m: MessageView) -> Seq<char> {
    "{\"role\":\""@ + spec_escape(m.role) + "\",\"content\":\""@ + spec_escape(m.content)
        + "\",\"timestamp\":"@ + spec_int_chars(m.timestamp) + "}"@
}

/// The messages array body: records separated by commas.
pub open spec fn spec_msgs_chars(msgs: Seq<MessageView>) -> Seq<char>
    decreases msgs.len(),
{
    if msgs.len() == 0 {
        Seq::empty()
    } else if msgs.len() == 1 {
        spec_msg_chars(msgs[0])
    } else {
        spec_msg_chars(msgs[0]) + ","@ + spec_msgs_chars(msgs.drop_first())
    }
}

/// The whole persisted record of a history.
pub open spec fn spec_history_chars(h: HistoryView) -> Seq<char> {
    "{\"session_id\":\""@ + spec_escape(h.session_id) + "\",\"messages\":["@ + spec_msgs_chars(
        h.messages,
    ) + "],\"created_at\":"@ + spec_int_chars(h.created_at) + ",\"updated_at\":"@ + spec_int_chars(
        h.updated_at,
    ) + "}"@
}

/// The array body distributes over appending one record at the end.
pub proof fn lemma_msgs_push(msgs: Seq<MessageView>, m: MessageView)
    ensures
        msgs.len() == 0 ==> spec_msgs_chars(msgs.push(m)) == spec_msg_chars(m),
        msgs.len() > 0 ==> spec_msgs_chars(msgs.push(m)) == spec_msgs_chars(msgs) + ","@
            + spec_msg_chars(m),
    decreases msgs.len(),
{
    if msgs.len() == 0 {
        assert(msgs.push(m)[0] == m);
        assert(spec_msgs_chars(msgs.push(m)) == spec_msg_chars(m));
    } else if msgs.len() == 1 {
        assert(msgs.push(m).drop_first() =~= msgs.drop_first().push(m));
        assert(msgs.push(m)[0] == msgs[0]);
        assert(msgs.drop_first().push(m)[0] == m);
        assert(spec_msgs_chars(msgs.drop_first().push(m)) == spec_msg_chars(m));
    } else {
        assert(msgs.push(m).drop_first() =~= msgs.drop_first().push(m));
        assert(msgs.push(m)[0] == msgs[0]);
        lemma_msgs_push(msgs.drop_first(), m);
        assert(spec_msgs_chars(msgs.push(m)) == spec_msg_chars(msgs[0]) + ","@ + (spec_msgs_chars(
            msgs.drop_first(),
        ) + ","@ + spec_msg_chars(m)));
        assert(spec_msg_chars(msgs[0]) + ","@ + (spec_msgs_chars(msgs.drop_first()) + ","@
            + spec_msg_chars(m)) =~= (spec_msg_chars(msgs[0]) + ","@ + spec_msgs_chars(
            msgs.drop_first(),
        )) + ","@ + spec_msg_chars(m));
    }
}

// ---------------------------------------------------------------------------
// Encoder
// ---------------------------------------------------------------------------
/// Append the characters of a string slice.
fn put_str(out: &mut Vec<char>, s: &str)
    ensures
        final(out)@ == old(out)@ + s@,
{
    let mut cs = str_chars(s);
    out.append(&mut cs);
}

/// Append a string field in its escaped form.
fn put_escaped(out: &mut Vec<char>, s: &str)
    ensures
        final(out)@ == old(out)@ + spec_escape(s@),
{
    let cs = str_chars(s);
    let n = cs.len();
    let mut i: usize = 0;
    assert(cs@.take(0) =~= Seq::<char>::empty());
    while i < n
        invariant
            n == cs@.len(),
            cs@ == s@,
            0 <= i <= n,
            out@ == old(out)@ + spec_escape(cs@.take(i as int)),
        decreases n - i,
    {
        let c = cs[i];
        if c == '"' {
            out.push('\\');
            out.push('"');
        } else if c == '\\' {
            out.push('\\');
            out.push('\\');
        } else if c == '\n' {
            out.push('\\');
            out.push('n');
        } else if c == '\r' {
            out.push('\\');
            out.push('r');
        } else if c == '\t' {
            out.push('\\');
            out.push('t');
        } else {
            out.push(c);
        }
        proof {
            lemma_escape_push(cs@.take(i as int), cs@[i as int]);
            assert(cs@.take(i + 1) =~= cs@.take(i as int).push(cs@[i as int]));
            assert(out@ =~= old(out)@ + spec_escape(cs@.take(i + 1)));
        }
        i = i + 1;
    }
    assert(cs@.take(n as int) =~= s@);
}

/// The digit character of a value below ten.
fn digit_char(d: u64) -> (r: char)
    requires
        d < 10,
    ensures
        r == spec_digit_char(d as int),
{
    if d == 0 {
        '0'
    } else if d == 1 {
        '1'
    } else if d == 2 {
        '2'
    } else if d == 3 {
        '3'
    } else if d == 4 {
        '4'
    } else if d == 5 {
        '5'
    } else if d == 6 {
        '6'
    } else if d == 7 {
        '7'
    } else if d == 8 {
        '8'
    } else {
        '9'
    }
}

/// Append the decimal digits of a magnitude, most significant first.
fn put_digits(out: &mut Vec<char>, m: u64)
    ensures
        final(out)@ == old(out)@ + spec_digits(m as nat),
    decreases m,
{
    if m < 10 {
        out.push(digit_char(m));
        assert(final(out)@ =~= old(out)@ + spec_digits(m as nat));
    } else {
        put_digits(out, m / 10);
        out.push(digit_char(m % 10));
        assert(final(out)@ =~= old(out)@ + (spec_digits((m / 10) as nat) + seq![
            spec_digit_char((m % 10) as int),
        ]));
    }
}

/// Append the decimal writing of a signed integer.
fn put_int(out: &mut Vec<char>, n: i64)
    ensures
        final(out)@ == old(out)@ + spec_int_chars(n as int),
{
    if n < 0 {
        out.push('-');
        let m: u64 = ((-(n as i128)) as u64);
        assert(m as nat == (-(n as int)) as nat);
        put_digits(out, m);
        assert(final(out)@ =~= old(out)@ + (seq!['-'] + spec_digits((-(n as int)) as nat)));
    } else {
        put_digits(out, n as u64);
    }
}

/// Append one message record.
fn put_message(out: &mut Vec<char>, m: &ConversationMessage)
    ensures
        final(out)@ == old(out)@ + spec_msg_chars(m@),
{
    put_str(out, "{\"role\":\"");
    put_escaped(out, m.role.as_str());
    put_str(out, "\",\"content\":\"");
    put_escaped(out, m.content.as_str());
    put_str(out, "\",\"timestamp\":");
    put_int(out, m.timestamp);
    put_str(out, "}");
    assert(final(out)@ =~= old(out)@ + spec_msg_chars(m@));
}

impl ConversationHistory {
    /// Serialize the history to its persisted text form.
    pub fn to_json(&self) -> (r: String)
        ensures
            r@ == spec_history_chars(self@),
    {
        let ghost msgs = self@.messages;
        let mut out: Vec<char> = Vec::new();
        put_str(&mut out, "{\"session_id\":\"");
        put_escaped(&mut out, self.session_id.as_str());
        put_str(&mut out, "\",\"messages\":[");
        let ghost head = out@;
        let n = self.messages.len();
        let mut i: usize = 0;
        assert(msgs.take(0) =~= Seq::<MessageView>::empty());
        while i < n
            invariant
                n == self.messages@.len(),
                msgs == self@.messages,
                0 <= i <= n,
                out@ == head + spec_msgs_chars(msgs.take(i as int)),
            decreases n - i,
        {
            if i > 0 {
                put_str(&mut out, ",");
            }
            put_message(&mut out, &self.messages[i]);
            proof {
                lemma_msgs_push(msgs.take(i as int), msgs[i as int]);
                assert(msgs.take(i + 1) =~= msgs.take(i as int).push(msgs[i as int]));
                if i > 0 {
                    assert(out@ =~= head + (spec_msgs_chars(msgs.take(i as int)) + ","@
                        + spec_msg_chars(msgs[i as int])));
                } else {
                    assert(spec_msgs_chars(msgs.take(0)) =~= Seq::<char>::empty());
                    assert(out@ =~= head + spec_msg_chars(msgs[0]));
                }
            }
            i = i + 1;
        }
        assert(msgs.take(n as int) =~= msgs);
        put_str(&mut out, "],\"created_at\":");
        put_int(&mut out, self.created_at);
        put_str(&mut out, ",\"updated_at\":");
        put_int(&mut out, self.updated_at);
        put_str(&mut out, "}");
        assert(out@ =~= spec_history_chars(self@));
        chars_to_string(&out)
    }
}

// ---------------------------------------------------------------------------
// The parser, at the specification level
// ---------------------------------------------------------------------------
/// The text `t` stands at position `i` of `s`.
pub open spec fn spec_at(s: Seq<char>, i: int, t: Seq<char>) -> bool {
    0 <= i && i + t.len() <= s.len() && s.subrange(i, i + t.len()) == t
}

/// A character of a text standing at `i` is a character of `s`.
pub proof fn lemma_at_index(s: Seq<char>, i: int, t: Seq<char>, k: int)
    requires
        spec_at(s, i, t),
        0 <= k < t.len(),
    ensures
        s[i + k] == t[k],
{
    assert(s.subrange(i, i + t.len())[k] == s[i + k]);
}

/// A concatenation standing at `i` splits into its halves.
pub proof fn lemma_at_concat(s: Seq<char>, i: int, a: Seq<char>, b: Seq<char>)
    requires
        spec_at(s, i, a + b),
    ensures
        spec_at(s, i, a),
        spec_at(s, i + a.len(), b),
{
    assert forall|k: int| 0 <= k < a.len() implies s.subrange(i, i + a.len())[k] == a[k] by {
        lemma_at_index(s, i, a + b, k);
        assert((a + b)[k] == a[k]);
    }
    assert(s.subrange(i, i + a.len()) =~= a);
    assert forall|k: int| 0 <= k < b.len() implies s.subrange(
        i + a.len(),
        i + a.len() + b.len(),
    )[k] == b[k] by {
        lemma_at_index(s, i, a + b, a.len() + k);
        assert((a + b)[a.len() + k] == b[k]);
    }
    assert(s.subrange(i + a.len(), i + a.len() + b.len()) =~= b);
}

/// Two texts standing side by side form their concatenation.
pub proof fn lemma_at_join(s: Seq<char>, i: int, a: Seq<char>, b: Seq<char>)
    requires
        spec_at(s, i, a),
        spec_at(s, i + a.len(), b),
    ensures
        spec_at(s, i, a + b),
{
    assert forall|k: int| 0 <= k < (a + b).len() implies s.subrange(
        i,
        i + (a + b).len(),
    )[k] == (a + b)[k] by {
        if k < a.len() {
            lemma_at_index(s, i, a, k);
        } else {
            lemma_at_index(s, i + a.len(), b, k - a.len());
        }
    }
    assert(s.subrange(i, i + (a + b).len()) =~= a + b);
}

/// A single character standing at `i`.
pub proof fn lemma_at_single(s: Seq<char>, i: int, c: char)
    requires
        0 <= i < s.len(),
        s[i] == c,
    ensures
        spec_at(s, i, seq![c]),
{
    assert(s.subrange(i, i + 1) =~= seq![c]);
}

/// Parse a quoted string body from position `i` (the opening quote already
/// consumed): unescape characters up to and including the closing quote.
pub open spec fn spec_parse_string(s: Seq<char>, i: int) -> Option<(Seq<char>, int)>
    decreases s.len() - i,
    when 0 <= i <= s.len()
{
    if i == s.len() {
        None
    } else if s[i] == '"' {
        Some((Seq::empty(), i + 1))
    } else if s[i] == '\\' {
        if i + 2 <= s.len() {
            match spec_unescape_char(s[i + 1]) {
                None => None,
                Some(u) => match spec_parse_string(s, i + 2) {
                    None => None,
                    Some((c, j)) => Some((seq![u] + c, j)),
                },
            }
        } else {
            None
        }
    } else {
        match spec_parse_string(s, i + 1) {
            None => None,
            Some((c, j)) => Some((seq![s[i]] + c, j)),
        }
    }
}

/// A successful string parse advances the position, within bounds.
pub proof fn lemma_parse_string_bounds(s: Seq<char>, i: int)
    requires
        0 <= i <= s.len(),
    ensures
        spec_parse_string(s, i) matches Some((c, j)) ==> i < j <= s.len(),
    decreases s.len() - i,
{
    if i < s.len() && s[i] != '"' {
        if s[i] == '\\' {
            if i + 2 <= s.len() {
                lemma_parse_string_bounds(s, i + 2);
            }
        } else {
            lemma_parse_string_bounds(s, i + 1);
        }
    }
}

/// Parsing an escaped text followed by a closing quote gives the text back.
pub proof fn lemma_parse_string_of(s: Seq<char>, i: int, c: Seq<char>)
    requires
        spec_at(s, i, spec_escape(c) + seq!['"']),
    ensures
        spec_parse_string(s, i) == Some((c, i + spec_escape(c).len() + 1)),
    decreases c.len(),
{
    let esc = spec_escape(c);
    if c.len() == 0 {
        assert(esc + seq!['"'] =~= seq!['"']);
        lemma_at_index(s, i, seq!['"'], 0);
        assert(s[i] == '"');
        assert(Seq::<char>::empty() =~= c);
    } else {
        let c0 = c[0];
        let e0 = spec_escape_char(c0);
        let rest = c.drop_first();
        assert(esc == e0 + spec_escape(rest));
        assert((e0 + spec_escape(rest)) + seq!['"'] =~= e0 + (spec_escape(rest) + seq!['"']));
        lemma_at_concat(s, i, e0, spec_escape(rest) + seq!['"']);
        if c0 == '"' || c0 == '\\' || c0 == '\n' || c0 == '\r' || c0 == '\t' {
            assert(e0.len() == 2 && e0[0] == '\\' && spec_unescape_char(e0[1]) == Some(c0));
            lemma_at_index(s, i, e0, 0);
            lemma_at_index(s, i, e0, 1);
            assert(s[i] == '\\');
            lemma_parse_string_of(s, i + 2, rest);
            assert(seq![c0] + rest =~= c);
        } else {
            assert(e0 =~= seq![c0]);
            lemma_at_index(s, i, e0, 0);
            assert(s[i] == c0);
            assert(c0 != '"' && c0 != '\\');
            lemma_parse_string_of(s, i + 1, rest);
            assert(seq![c0] + rest =~= c);
        }
    }
}

/// The first position at or after `i` that does not hold a digit.
pub open spec fn spec_digit_run_end(s: Seq<char>, i: int) -> int
    decreases s.len() - i,
    when 0 <= i <= s.len()
{
    if i == s.len() {
        i
    } else if spec_is_digit(s[i]) {
        spec_digit_run_end(s, i + 1)
    } else {
        i
    }
}

/// The run end lies between `i` and the end of the text.
pub proof fn lemma_digit_run_end_bounds(s: Seq<char>, i: int)
    requires
        0 <= i <= s.len(),
    ensures
        i <= spec_digit_run_end(s, i) <= s.len(),
    decreases s.len() - i,
{
    if i < s.len() && spec_is_digit(s[i]) {
        lemma_digit_run_end_bounds(s, i + 1);
    }
}

/// The value of the digits standing in `s` between `i` and `j`.
pub open spec fn spec_digits_val(s: Seq<char>, i: int, j: int) -> int
    decreases j - i,
    when i <= j
{
    if j <= i {
        0
    } else {
        spec_digits_val(s, i, j - 1) * 10 + spec_digit_val(s[j - 1])
    }
}

/// A digit character carries its value, and is a digit.
pub proof fn lemma_digit_char_val(d: int)
    requires
        0 <= d < 10,
    ensures
        spec_is_digit(spec_digit_char(d)),
        spec_digit_val(spec_digit_char(d)) == d,
{
}

/// The decimal writing of a magnitude is one or more digits.
pub proof fn lemma_digits_are_digits(m: nat)
    ensures
        spec_digits(m).len() >= 1,
        forall|k: int|
            0 <= k < spec_digits(m).len() ==> spec_is_digit(#[trigger] spec_digits(m)[k]),
    decreases m,
{
    if m < 10 {
        lemma_digit_char_val(m as int);
    } else {
        lemma_digits_are_digits(m / 10);
        lemma_digit_char_val((m % 10) as int);
        assert forall|k: int| 0 <= k < spec_digits(m).len() implies spec_is_digit(
            #[trigger] spec_digits(m)[k],
        ) by {
            if k < spec_digits(m / 10).len() {
                assert(spec_digits(m)[k] == spec_digits(m / 10)[k]);
            } else {
                assert(spec_digits(m)[k] == spec_digit_char((m % 10) as int));
            }
        }
    }
}

/// A digit run standing at `i`, delimited by a non-digit or the end, ends
/// exactly after itself.
pub proof fn lemma_digit_run_end_of(s: Seq<char>, i: int, d: Seq<char>)
    requires
        spec_at(s, i, d),
        forall|k: int| 0 <= k < d.len() ==> spec_is_digit(#[trigger] d[k]),
        i + d.len() == s.len() || !spec_is_digit(s[i + d.len()]),
    ensures
        spec_digit_run_end(s, i) == i + d.len(),
    decreases d.len(),
{
    if d.len() == 0 {
    } else {
        lemma_at_index(s, i, d, 0);
        assert(spec_is_digit(s[i]));
        assert(d =~= seq![d[0]] + d.drop_first());
        lemma_at_concat(s, i, seq![d[0]], d.drop_first());
        lemma_digit_run_end_of(s, i + 1, d.drop_first());
    }
}

/// The digits of a magnitude, standing at `i`, evaluate back to it.
pub proof fn lemma_digits_val_of(s: Seq<char>, i: int, m: nat)
    requires
        spec_at(s, i, spec_digits(m)),
    ensures
        spec_digits_val(s, i, i + spec_digits(m).len()) == m,
    decreases m,
{
    let d = spec_digits(m);
    if m < 10 {
        lemma_at_index(s, i, d, 0);
        lemma_digit_char_val(m as int);
        assert(spec_digits_val(s, i, i + 1) == spec_digits_val(s, i, i) * 10 + spec_digit_val(
            s[i],
        ));
    } else {
        let dh = spec_digits(m / 10);
        let dl = seq![spec_digit_char((m % 10) as int)];
        assert(d == dh + dl);
        lemma_at_concat(s, i, dh, dl);
        lemma_digits_val_of(s, i, m / 10);
        lemma_at_index(s, i + dh.len(), dl, 0);
        lemma_digit_char_val((m % 10) as int);
        assert(spec_digits_val(s, i, i + d.len()) == spec_digits_val(s, i, i + d.len() - 1) * 10
            + spec_digit_val(s[i + d.len() - 1]));
        assert(m / 10 * 10 + m % 10 == m) by (nonlinear_arith);
    }
}

/// Parse a signed decimal integer within the machine range.
pub open spec fn spec_parse_int(s: Seq<char>, i: int) -> Option<(int, int)> {
    if 0 <= i < s.len() && s[i] == '-' {
        let e = spec_digit_run_end(s, i + 1);
        if e == i + 1 {
            None
        } else {
            let v = -spec_digits_val(s, i + 1, e);
            if i64::MIN <= v {
                Some((v, e))
            } else {
                None
            }
        }
    } else if 0 <= i < s.len() {
        let e = spec_digit_run_end(s, i);
        if e == i {
            None
        } else {
            let v = spec_digits_val(s, i, e);
            if v <= i64::MAX {
                Some((v, e))
            } else {
                None
            }
        }
    } else {
        None
    }
}

/// The decimal writing of an in-range integer, standing at `i` and delimited
/// by a non-digit, parses back to it.
pub proof fn lemma_parse_int_of(s: Seq<char>, i: int, n: int)
    requires
        i64::MIN <= n <= i64::MAX,
        spec_at(s, i, spec_int_chars(n)),
        i + spec_int_chars(n).len() == s.len() || !spec_is_digit(s[i + spec_int_chars(n).len()]),
    ensures
        spec_parse_int(s, i) == Some((n, i + spec_int_chars(n).len())),
{
    if n < 0 {
        let m = (-n) as nat;
        let d = spec_digits(m);
        assert(spec_int_chars(n) == seq!['-'] + d);
        lemma_at_concat(s, i, seq!['-'], d);
        lemma_at_index(s, i, seq!['-'] + d, 0);
        assert(s[i] == '-');
        lemma_digits_are_digits(m);
        lemma_digit_run_end_of(s, i + 1, d);
        lemma_digits_val_of(s, i + 1, m);
    } else {
        let m = n as nat;
        let d = spec_digits(m);
        lemma_digits_are_digits(m);
        lemma_at_index(s, i, d, 0);
        assert(spec_is_digit(s[i]));
        assert(s[i] != '-');
        lemma_digit_run_end_of(s, i, d);
        lemma_digits_val_of(s, i, m);
    }
}

/// Expect a fixed text at position `i`; the position after it on success.
pub open spec fn spec_expect(s: Seq<char>, i: int, t: Seq<char>) -> Option<int> {
    if spec_at(s, i, t) {
        Some(i + t.len())
    } else {
        None
    }
}

/// Parse one message record.
pub open spec fn spec_parse_message(s: Seq<char>, i: int) -> Option<(MessageView, int)> {
    match spec_expect(s, i, "{\"role\":\""@) {
        None => None,
        Some(j1) => match spec_parse_string(s, j1) {
            None => None,
            Some((role, j2)) => match spec_expect(s, j2, ",\"content\":\""@) {
                None => None,
                Some(j3) => match spec_parse_string(s, j3) {
                    None => None,
                    Some((content, j4)) => match spec_expect(s, j4, ",\"timestamp\":"@) {
                        None => None,
                        Some(j5) => match spec_parse_int(s, j5) {
                            None => None,
                            Some((ts, j6)) => match spec_expect(s, j6, "}"@) {
                                None => None,
                                Some(j7) => Some(
                                    (MessageView { role, content, timestamp: ts }, j7),
                                ),
                            },
                        },
                    },
                },
            },
        },
    }
}

/// A successful message parse advances the position, within bounds.
pub proof fn lemma_parse_message_bounds(s: Seq<char>, i: int)
    ensures
        spec_parse_message(s, i) matches Some((m, j)) ==> i < j <= s.len(),
{
    if spec_at(s, i, "{\"role\":\""@) {
        let j1 = i + "{\"role\":\""@.len();
        lemma_parse_string_bounds(s, j1);
        match spec_parse_string(s, j1) {
            None => {},
            Some((role, j2)) => {
                if spec_at(s, j2, ",\"content\":\""@) {
                    let j3 = j2 + ",\"content\":\""@.len();
                    lemma_parse_string_bounds(s, j3);
                    match spec_parse_string(s, j3) {
                        None => {},
                        Some((content, j4)) => {
                            if spec_at(s, j4, ",\"timestamp\":"@) {
                                let j5 = j4 + ",\"timestamp\":"@.len();
                                if 0 <= j5 < s.len() && s[j5] == '-' {
                                    lemma_digit_run_end_bounds(s, j5 + 1);
                                } else if 0 <= j5 < s.len() {
                                    lemma_digit_run_end_bounds(s, j5);
                                }
                            }
                        },
                    }
                }
            },
        }
    }
}

/// A message record standing at `i` parses back to its message.
pub proof fn lemma_parse_message_of(s: Seq<char>, i: int, m: MessageView)
    requires
        m.wf(),
        spec_at(s, i, spec_msg_chars(m)),
    ensures
        spec_parse_message(s, i) == Some((m, i + spec_msg_chars(m).len())),
{
    let l1 = "{\"role\":\""@;
    let er = spec_escape(m.role);
    let l2 = "\",\"content\":\""@;
    let ec = spec_escape(m.content);
    let l3 = "\",\"timestamp\":"@;
    let ti = spec_int_chars(m.timestamp);
    let l4 = "}"@;
    reveal_strlit("{\"role\":\"");
    reveal_strlit("\",\"content\":\"");
    reveal_strlit(",\"content\":\"");
    reveal_strlit("\",\"timestamp\":");
    reveal_strlit(",\"timestamp\":");
    reveal_strlit("}");
    // Peel the record into its seven pieces.
    lemma_at_concat(s, i, l1 + er + l2 + ec + l3 + ti, l4);
    lemma_at_concat(s, i, l1 + er + l2 + ec + l3, ti);
    lemma_at_concat(s, i, l1 + er + l2 + ec, l3);
    lemma_at_concat(s, i, l1 + er + l2, ec);
    lemma_at_concat(s, i, l1 + er, l2);
    lemma_at_concat(s, i, l1, er);
    let j1 = i + l1.len();
    let j2 = j1 + er.len() + 1;
    let j3 = j2 + l2.len() - 1;
    let j4 = j3 + ec.len() + 1;
    let j5 = j4 + l3.len() - 1;
    let j6 = j5 + ti.len();
    // The role string runs to the quote that opens the following separator.
    assert(l2[0] == '"');
    lemma_at_index(s, j1 + er.len(), l2, 0);
    lemma_at_single(s, j1 + er.len(), '"');
    lemma_at_join(s, j1, er, seq!['"']);
    lemma_parse_string_of(s, j1, m.role);
    // The separator minus its leading quote is what the parser expects next.
    assert(l2 =~= seq!['"'] + ",\"content\":\""@);
    lemma_at_concat(s, j1 + er.len(), seq!['"'], ",\"content\":\""@);
    assert(spec_expect(s, j2, ",\"content\":\""@) == Some(j3));
    // The content string, likewise.
    assert(l3[0] == '"');
    lemma_at_index(s, j3 + ec.len(), l3, 0);
    lemma_at_single(s, j3 + ec.len(), '"');
    lemma_at_join(s, j3, ec, seq!['"']);
    lemma_parse_string_of(s, j3, m.content);
    assert(l3 =~= seq!['"'] + ",\"timestamp\":"@);
    lemma_at_concat(s, j3 + ec.len(), seq!['"'], ",\"timestamp\":"@);
    assert(spec_expect(s, j4, ",\"timestamp\":"@) == Some(j5));
    // The timestamp is delimited by the closing brace.
    assert(l4[0] == '}');
    lemma_at_index(s, j6, l4, 0);
    assert(!spec_is_digit(s[j6]));
    lemma_parse_int_of(s, j5, m.timestamp);
    assert(spec_expect(s, j6, l4) == Some(j6 + 1));
    assert(i + spec_msg_chars(m).len() == j6 + 1);
}

/// Parse the body of the messages array: records separated by commas. The
/// closing bracket ends the list and is left unconsumed.
pub open spec fn spec_parse_messages(s: Seq<char>, i: int) -> Option<(Seq<MessageView>, int)>
    decreases s.len() - i,
    when 0 <= i <= s.len()
    via spec_parse_messages_dec
{
    if i == s.len() {
        None
    } else if s[i] == ']' {
        Some((Seq::empty(), i))
    } else {
        match spec_parse_message(s, i) {
            None => None,
            Some((m, j)) => {
                if j < s.len() && s[j] == ',' {
                    match spec_parse_messages(s, j + 1) {
                        None => None,
                        Some((ms, k)) => Some((seq![m] + ms, k)),
                    }
                } else {
                    Some((seq![m], j))
                }
            },
        }
    }
}

#[via_fn]
proof fn spec_parse_messages_dec(s: Seq<char>, i: int) {
    lemma_parse_message_bounds(s, i);
}

/// An array body standing at `i`, delimited by the closing bracket, parses
/// back to its messages.
pub proof fn lemma_parse_messages_of(s: Seq<char>, i: int, msgs: Seq<MessageView>)
    requires
        forall|k: int| 0 <= k < msgs.len() ==> (#[trigger] msgs[k]).wf(),
        spec_at(s, i, spec_msgs_chars(msgs)),
        i + spec_msgs_chars(msgs).len() < s.len(),
        s[i + spec_msgs_chars(msgs).len()] == ']',
    ensures
        spec_parse_messages(s, i) == Some((msgs, i + spec_msgs_chars(msgs).len())),
    decreases msgs.len(),
{
    reveal_strlit("{\"role\":\"");
    reveal_strlit(",");
    if msgs.len() == 0 {
        assert(spec_msgs_chars(msgs).len() == 0);
        assert(s[i] == ']');
        assert(Seq::<MessageView>::empty() =~= msgs);
    } else if msgs.len() == 1 {
        let mc = spec_msg_chars(msgs[0]);
        assert(spec_msgs_chars(msgs) == mc);
        // The record opens with a brace, not the closing bracket.
        assert(mc =~= "{\"role\":\""@ + (spec_escape(msgs[0].role) + "\",\"content\":\""@
            + spec_escape(msgs[0].content) + "\",\"timestamp\":"@ + spec_int_chars(
            msgs[0].timestamp,
        ) + "}"@));
        lemma_at_concat(s, i, "{\"role\":\""@, spec_escape(msgs[0].role) + "\",\"content\":\""@
            + spec_escape(msgs[0].content) + "\",\"timestamp\":"@ + spec_int_chars(
            msgs[0].timestamp,
        ) + "}"@);
        lemma_at_index(s, i, "{\"role\":\""@, 0);
        assert(s[i] == '{');
        lemma_parse_message_of(s, i, msgs[0]);
        let j = i + mc.len();
        assert(s[j] == ']');
        assert(seq![msgs[0]] =~= msgs);
    } else {
        let mc = spec_msg_chars(msgs[0]);
        let rest = msgs.drop_first();
        assert(spec_msgs_chars(msgs) == mc + ","@ + spec_msgs_chars(rest));
        lemma_at_concat(s, i, mc + ","@, spec_msgs_chars(rest));
        lemma_at_concat(s, i, mc, ","@);
        lemma_at_index(s, i, mc + ","@ + spec_msgs_chars(rest), 0);
        assert((mc + ","@ + spec_msgs_chars(rest))[0] == mc[0]);
        assert(mc =~= "{\"role\":\""@ + (spec_escape(msgs[0].role) + "\",\"content\":\""@
            + spec_escape(msgs[0].content) + "\",\"timestamp\":"@ + spec_int_chars(
            msgs[0].timestamp,
        ) + "}"@));
        assert(mc[0] == "{\"role\":\""@[0]);
        assert(s[i] == '{');
        lemma_parse_message_of(s, i, msgs[0]);
        let j = i + mc.len();
        lemma_at_index(s, j, ","@, 0);
        assert(s[j] == ',');
        assert(forall|k: int| 0 <= k < rest.len() ==> (#[trigger] rest[k]).wf());
        lemma_parse_messages_of(s, j + 1, rest);
        assert(seq![msgs[0]] + rest =~= msgs);
    }
}

/// Parse a whole persisted record; the entire text must be consumed.
pub open spec fn spec_parse_history(s: Seq<char>) -> Option<HistoryView> {
    match spec_expect(s, 0, "{\"session_id\":\""@) {
        None => None,
        Some(j1) => match spec_parse_string(s, j1) {
            None => None,
            Some((sid, j2)) => match spec_expect(s, j2, ",\"messages\":["@) {
                None => None,
                Some(j3) => match spec_parse_messages(s, j3) {
                    None => None,
                    Some((msgs, j4)) => match spec_expect(s, j4, "],\"created_at\":"@) {
                        None => None,
                        Some(j5) => match spec_parse_int(s, j5) {
                            None => None,
                            Some((ca, j6)) => match spec_expect(s, j6, ",\"updated_at\":"@) {
                                None => None,
                                Some(j7) => match spec_parse_int(s, j7) {
                                    None => None,
                                    Some((ua, j8)) => match spec_expect(s, j8, "}"@) {
                                        None => None,
                                        Some(j9) => if j9 == s.len() {
                                            Some(
                                                HistoryView {
                                                    session_id: sid,
                                                    messages: msgs,
                                                    created_at: ca,
                                                    updated_at: ua,
                                                },
                                            )
                                        } else {
                                            None
                                        },
                                    },
                                },
                            },
                        },
                    },
                },
            },
        },
    }
}

/// Round trip: the persisted record of a well-formed history parses back to
/// exactly that history.
pub proof fn lemma_round_trip(h: HistoryView)
    requires
        h.wf(),
    ensures
        spec_parse_history(spec_history_chars(h)) == Some(h),
{
    let s = spec_history_chars(h);
    let l1 = "{\"session_id\":\""@;
    let es = spec_escape(h.session_id);
    let l2 = "\",\"messages\":["@;
    let ms = spec_msgs_chars(h.messages);
    let l3 = "],\"created_at\":"@;
    let ca = spec_int_chars(h.created_at);
    let l4 = ",\"updated_at\":"@;
    let ua = spec_int_chars(h.updated_at);
    let l5 = "}"@;
    reveal_strlit("{\"session_id\":\"");
    reveal_strlit("\",\"messages\":[");
    reveal_strlit(",\"messages\":[");
    reveal_strlit("],\"created_at\":");
    reveal_strlit(",\"updated_at\":");
    reveal_strlit("}");
    assert(s.subrange(0, s.len() as int) =~= s);
    assert(spec_at(s, 0, l1 + es + l2 + ms + l3 + ca + l4 + ua + l5));
    lemma_at_concat(s, 0, l1 + es + l2 + ms + l3 + ca + l4 + ua, l5);
    lemma_at_concat(s, 0, l1 + es + l2 + ms + l3 + ca + l4, ua);
    lemma_at_concat(s, 0, l1 + es + l2 + ms + l3 + ca, l4);
    lemma_at_concat(s, 0, l1 + es + l2 + ms + l3, ca);
    lemma_at_concat(s, 0, l1 + es + l2 + ms, l3);
    lemma_at_concat(s, 0, l1 + es + l2, ms);
    lemma_at_concat(s, 0, l1 + es, l2);
    lemma_at_concat(s, 0, l1, es);
    let j1 = l1.len() as int;
    let j2 = j1 + es.len() + 1;
    let j3 = j2 + l2.len() - 1;
    let j4 = j3 + ms.len();
    let j5 = j4 + l3.len();
    let j6 = j5 + ca.len();
    let j7 = j6 + l4.len();
    let j8 = j7 + ua.len();
    // The session id string runs to the quote that opens the next separator.
    assert(l2[0] == '"');
    lemma_at_index(s, j1 + es.len(), l2, 0);
    lemma_at_single(s, j1 + es.len(), '"');
    lemma_at_join(s, j1, es, seq!['"']);
    lemma_parse_string_of(s, j1, h.session_id);
    assert(l2 =~= seq!['"'] + ",\"messages\":["@);
    lemma_at_concat(s, j1 + es.len(), seq!['"'], ",\"messages\":["@);
    assert(spec_expect(s, j2, ",\"messages\":["@) == Some(j3));
    // The array body is delimited by the closing bracket.
    assert(l3[0] == ']');
    lemma_at_index(s, j4, l3, 0);
    lemma_parse_messages_of(s, j3, h.messages);
    assert(spec_expect(s, j4, l3) == Some(j5));
    // Both timestamps are delimited by non-digits.
    assert(l4[0] == ',');
    lemma_at_index(s, j6, l4, 0);
    assert(!spec_is_digit(s[j6]));
    lemma_parse_int_of(s, j5, h.created_at);
    assert(spec_expect(s, j6, l4) == Some(j7));
    assert(l5[0] == '}');
    lemma_at_index(s, j8, l5, 0);
    assert(!spec_is_digit(s[j8]));
    lemma_parse_int_of(s, j7, h.updated_at);
    assert(spec_expect(s, j8, l5) == Some(j8 + 1));
    assert(j8 + 1 == s.len());
}

// ---------------------------------------------------------------------------
// The parser, executable
// ---------------------------------------------------------------------------
/// Whether a character is a decimal digit, as `spec_is_digit` states.
fn is_digit_char(c: char) -> (r: bool)
    ensures
        r == spec_is_digit(c),
{
    let u = c as u32;
    48 <= u && u <= 57
}

/// The character an escape tail stands for, as `spec_unescape_char` states.
fn unescape_char(c: char) -> (r: Option<char>)
    ensures
        r == spec_unescape_char(c),
{
    if c == '"' {
        Some('"')
    } else if c == '\\' {
        Some('\\')
    } else if c == 'n' {
        Some('\n')
    } else if c == 'r' {
        Some('\r')
    } else if c == 't' {
        Some('\t')
    } else {
        None
    }
}

/// Check that a fixed text stands at position `i`.
fn expect_lit(s: &Vec<char>, i: usize, lit: &str) -> (r: Option<usize>)
    ensures
        match r {
            Some(j) => spec_expect(s@, i as int, lit@) == Some(j as int) && i <= j <= s@.len(),
            None => spec_expect(s@, i as int, lit@) is None,
        },
{
    let cs = str_chars(lit);
    let n = cs.len();
    let s_len = s.len();
    if i > s_len || s_len - i < n {
        return None;
    }
    let mut k: usize = 0;
    while k < n
        invariant
            s_len == s@.len(),
            i + n <= s@.len(),
            n == cs@.len(),
            cs@ == lit@,
            0 <= k <= n,
            forall|t: int| 0 <= t < k ==> s@[i + t] == lit@[t],
        decreases n - k,
    {
        if s[i + k] != cs[k] {
            proof {
                assert(s@.subrange(i as int, i + lit@.len())[k as int] == s@[i + k as int]);
                assert(s@.subrange(i as int, i + lit@.len()) != lit@);
            }
            return None;
        }
        k = k + 1;
    }
    proof {
        assert(s@.subrange(i as int, i + lit@.len()) =~= lit@);
    }
    Some(i + n)
}

/// Parse a quoted string body, as `spec_parse_string` states.
fn parse_string_at(s: &Vec<char>, i: usize) -> (r: Option<(Vec<char>, usize)>)
    requires
        i <= s@.len(),
    ensures
        match r {
            Some(p) => spec_parse_string(s@, i as int) == Some((p.0@, p.1 as int)) && i < p.1
                <= s@.len(),
            None => spec_parse_string(s@, i as int) is None,
        },
{
    let mut acc: Vec<char> = Vec::new();
    let mut p: usize = i;
    loop
        invariant
            i <= p <= s@.len(),
            (match spec_parse_string(s@, p as int) {
                None => spec_parse_string(s@, i as int) is None,
                Some((c, j)) => spec_parse_string(s@, i as int) == Some((acc@ + c, j)),
            }),
        decreases s@.len() - p,
    {
        if p == s.len() {
            return None;
        }
        let c = s[p];
        if c == '"' {
            proof {
                assert(acc@ + Seq::<char>::empty() =~= acc@);
            }
            return Some((acc, p + 1));
        } else if c == '\\' {
            if p + 1 < s.len() {
                match unescape_char(s[p + 1]) {
                    Some(u) => {
                        let ghost acc0 = acc@;
                        acc.push(u);
                        proof {
                            match spec_parse_string(s@, p + 2) {
                                None => {},
                                Some((c2, j2)) => {
                                    assert(acc0 + (seq![u] + c2) =~= acc@ + c2);
                                },
                            }
                        }
                        p = p + 2;
                    },
                    None => {
                        return None;
                    },
                }
            } else {
                return None;
            }
        } else {
            let ghost acc0 = acc@;
            acc.push(c);
            proof {
                match spec_parse_string(s@, p + 1) {
                    None => {},
                    Some((c2, j2)) => {
                        assert(acc0 + (seq![c] + c2) =~= acc@ + c2);
                    },
                }
            }
            p = p + 1;
        }
    }
}

/// Parse a signed decimal integer, as `spec_parse_int` states.
fn parse_int_at(s: &Vec<char>, i: usize) -> (r: Option<(i64, usize)>)
    requires
        i <= s@.len(),
    ensures
        match r {
            Some(p) => spec_parse_int(s@, i as int) == Some((p.0 as int, p.1 as int)) && i < p.1
                <= s@.len(),
            None => spec_parse_int(s@, i as int) is None,
        },
{
    let neg = i < s.len() && s[i] == '-';
    let start = if neg {
        i + 1
    } else {
        i
    };
    let mut e = start;
    while e < s.len() && is_digit_char(s[e])
        invariant
            start <= e <= s@.len(),
            spec_digit_run_end(s@, start as int) == spec_digit_run_end(s@, e as int),
            forall|t: int| start <= t < e ==> spec_is_digit(s@[t]),
        decreases s@.len() - e,
    {
        e = e + 1;
    }
    assert(spec_digit_run_end(s@, start as int) == e as int);
    if e == start {
        return None;
    }
    let mut acc: Option<u64> = Some(0);
    let mut k = start;
    proof {
        assert(spec_digits_val(s@, start as int, start as int) == 0);
    }
    while k < e
        invariant
            start <= k <= e <= s@.len(),
            forall|t: int| start <= t < e ==> spec_is_digit(s@[t]),
            spec_digits_val(s@, start as int, k as int) >= 0,
            (match acc {
                Some(a) => a as int == spec_digits_val(s@, start as int, k as int),
                None => spec_digits_val(s@, start as int, k as int) > u64::MAX as int,
            }),
        decreases e - k,
    {
        let ghost v0 = spec_digits_val(s@, start as int, k as int);
        let d: u64 = ((s[k] as u32) - 48) as u64;
        assert(spec_is_digit(s@[k as int]));
        acc = match acc {
            Some(a) => match a.checked_mul(10) {
                Some(x) => x.checked_add(d),
                None => None,
            },
            None => None,
        };
        proof {
            assert(spec_digits_val(s@, start as int, k + 1) == v0 * 10 + spec_digit_val(
                s@[k as int],
            ));
            assert(v0 * 10 >= v0) by (nonlinear_arith)
                requires
                    v0 >= 0,
            ;
        }
        k = k + 1;
    }
    match acc {
        None => {
            assert(spec_digits_val(s@, start as int, e as int) > i64::MAX);
            None
        },
        Some(a) => {
            if neg {
                if a <= 9223372036854775808u64 {
                    let v: i64 = if a == 9223372036854775808u64 {
                        i64::MIN
                    } else {
                        -(a as i64)
                    };
                    Some((v, e))
                } else {
                    None
                }
            } else {
                if a <= 9223372036854775807u64 {
                    Some((a as i64, e))
                } else {
                    None
                }
            }
        },
    }
}

/// Parse one message record, as `spec_parse_message` states.
fn parse_message_at(s: &Vec<char>, i: usize) -> (r: Option<(ConversationMessage, usize)>)
    requires
        i <= s@.len(),
    ensures
        match r {
            Some(p) => spec_parse_message(s@, i as int) == Some((p.0@, p.1 as int)) && i < p.1
                <= s@.len(),
            None => spec_parse_message(s@, i as int) is None,
        },
{
    let j1 = match expect_lit(s, i, "{\"role\":\"") {
        Some(j) => j,
        None => {
            return None;
        },
    };
    let (role_chars, j2) = match parse_string_at(s, j1) {
        Some(p) => p,
        None => {
            return None;
        },
    };
    let j3 = match expect_lit(s, j2, ",\"content\":\"") {
        Some(j) => j,
        None => {
            return None;
        },
    };
    let (content_chars, j4) = match parse_string_at(s, j3) {
        Some(p) => p,
        None => {
            return None;
        },
    };
    let j5 = match expect_lit(s, j4, ",\"timestamp\":") {
        Some(j) => j,
        None => {
            return None;
        },
    };
    let (ts, j6) = match parse_int_at(s, j5) {
        Some(p) => p,
        None => {
            return None;
        },
    };
    let j7 = match expect_lit(s, j6, "}") {
        Some(j) => j,
        None => {
            return None;
        },
    };
    let m = ConversationMessage {
        role: chars_to_string(&role_chars),
        content: chars_to_string(&content_chars),
        timestamp: ts,
    };
    Some((m, j7))
}

/// Parse the messages array body, as `spec_parse_messages` states.
fn parse_messages_at(s: &Vec<char>, i: usize) -> (r: Option<(Vec<ConversationMessage>, usize)>)
    requires
        i <= s@.len(),
    ensures
        match r {
            Some(p) => spec_parse_messages(s@, i as int) == Some(
                (p.0@.map_values(|m: ConversationMessage| m@), p.1 as int),
            ) && i <= p.1 <= s@.len(),
            None => spec_parse_messages(s@, i as int) is None,
        },
    decreases s@.len() - i,
{
    if i == s.len() {
        return None;
    }
    if s[i] == ']' {
        let empty: Vec<ConversationMessage> = Vec::new();
        proof {
            assert(empty@.map_values(|m: ConversationMessage| m@) =~= Seq::<MessageView>::empty());
        }
        return Some((empty, i));
    }
    match parse_message_at(s, i) {
        None => None,
        Some((m, j)) => {
            if j < s.len() && s[j] == ',' {
                match parse_messages_at(s, j + 1) {
                    None => None,
                    Some((ms, k)) => {
                        let ghost tail = ms@.map_values(|m: ConversationMessage| m@);
                        let mut ms = ms;
                        ms.insert(0, m);
                        proof {
                            assert(ms@.map_values(|m: ConversationMessage| m@) =~= seq![m@] + tail);
                        }
                        Some((ms, k))
                    },
                }
            } else {
                let mut v: Vec<ConversationMessage> = Vec::new();
                v.push(m);
                proof {
                    assert(v@.map_values(|m: ConversationMessage| m@) =~= seq![m@]);
                }
                Some((v, j))
            }
        },
    }
}

impl ConversationHistory {
    /// Parse a persisted record back into a history. `None` means the text is
    /// not a record this codec wrote: the record is corrupt.
    pub fn from_json(text: &str) -> (r: Option<ConversationHistory>)
        ensures
            match r {
                Some(h) => spec_parse_history(text@) == Some(h@),
                None => spec_parse_history(text@) is None,
            },
    {
        let s = str_chars(text);
        let j1 = match expect_lit(&s, 0, "{\"session_id\":\"") {
            Some(j) => j,
            None => {
                return None;
            },
        };
        let (sid, j2) = match parse_string_at(&s, j1) {
            Some(p) => p,
            None => {
                return None;
            },
        };
        let j3 = match expect_lit(&s, j2, ",\"messages\":[") {
            Some(j) => j,
            None => {
                return None;
            },
        };
        let (msgs, j4) = match parse_messages_at(&s, j3) {
            Some(p) => p,
            None => {
                return None;
            },
        };
        let j5 = match expect_lit(&s, j4, "],\"created_at\":") {
            Some(j) => j,
            None => {
                return None;
            },
        };
        let (ca, j6) = match parse_int_at(&s, j5) {
            Some(p) => p,
            None => {
                return None;
            },
        };
        let j7 = match expect_lit(&s, j6, ",\"updated_at\":") {
            Some(j) => j,
            None => {
                return None;
            },
        };
        let (ua, j8) = match parse_int_at(&s, j7) {
            Some(p) => p,
            None => {
                return None;
            },
        };
        let j9 = match expect_lit(&s, j8, "}") {
            Some(j) => j,
            None => {
                return None;
            },
        };
        if j9 != s.len() {
            return None;
        }
        Some(
            ConversationHistory {
                session_id: chars_to_string(&sid),
                messages: msgs,
                created_at: ca,
                updated_at: ua,
            },
        )
    }
}

} // verus!
