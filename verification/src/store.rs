//! The conversation store's decision logic around the persistence codec.
//!
//! The store keeps one record per session, keyed by the session id. Reading
//! the record is the caller's I/O; this module decides what a read outcome
//! means: a missing record yields a fresh empty history (not an error), a
//! record that fails to parse is corruption, distinct from not-found.

use vstd::prelude::*;
use crate::codec::spec_parse_history;
use crate::history::ConversationHistory;

verus! {

/// Why loading an existing record failed. A missing record is not an error.
#[derive(PartialEq, Eq, Structural, Clone, Copy, Debug)]
pub enum LoadError {
    /// The record exists but is not a record this codec wrote.
    Corruption,
}

/// The file name under which a session's record is kept.
pub open spec fn spec_storage_key(session_id: Seq<char>) -> Seq<char> {
    session_id + ".json"@
}

/// The storage key of a session, as `spec_storage_key` states.
pub fn storage_key(session_id: &str) -> (r: String)
    ensures
        r@ == spec_storage_key(session_id@),
{
    let mut k = session_id.to_owned();
    k.append(".json");
    k
}

/// Distinct session ids own distinct storage keys, so two concurrent turns
/// on distinct sessions never read or write each other's record.
pub proof fn lemma_storage_keys_distinct(a: Seq<char>, b: Seq<char>)
    requires
        a != b,
    ensures
        spec_storage_key(a) != spec_storage_key(b),
{
    if spec_storage_key(a) == spec_storage_key(b) {
        assert(spec_storage_key(a).len() == a.len() + ".json"@.len());
        assert(spec_storage_key(b).len() == b.len() + ".json"@.len());
        assert(a.len() == b.len());
        assert forall|i: int| 0 <= i < a.len() implies a[i] == b[i] by {
            assert(spec_storage_key(a)[i] == a[i]);
            assert(spec_storage_key(b)[i] == b[i]);
        }
        assert(a =~= b);
    }
}

/// Interpret the outcome of reading a session's record.
///
/// No stored text means no prior record: a fresh empty history for the
/// requested id, its creation and update stamps equal. Stored text that
/// parses to a well-formed history is the persisted history, re-keyed under
/// the requested id (the stored id should match, but the requested id is
/// authoritative). Stored text that does not parse, or whose update stamp is
/// behind its creation stamp, is corruption, surfaced as an error. Every
/// history this returns is well-formed.
pub fn load_record(session_id: &str, stored: Option<&str>) -> (r: Result<
    ConversationHistory,
    LoadError,
>)
    ensures
        r matches Ok(h) ==> h@.wf() && h@.session_id == session_id@,
        stored is None ==> (r matches Ok(h) && h@.messages.len() == 0 && h@.created_at
            == h@.updated_at),
        stored matches Some(text) ==> (match spec_parse_history(text@) {
            Some(hv) => if hv.created_at <= hv.updated_at {
                r matches Ok(h) && h@.messages == hv.messages && h@.created_at == hv.created_at
                    && h@.updated_at == hv.updated_at
            } else {
                r == Result::<ConversationHistory, LoadError>::Err(LoadError::Corruption)
            },
            None => r == Result::<ConversationHistory, LoadError>::Err(LoadError::Corruption),
        }),
{
    match stored {
        None => Ok(ConversationHistory::new(session_id.to_owned())),
        Some(text) => match ConversationHistory::from_json(text) {
            Some(h) => {
                if h.created_at <= h.updated_at {
                    let mut h = h;
                    h.session_id = session_id.to_owned();
                    Ok(h)
                } else {
                    Err(LoadError::Corruption)
                }
            },
            None => Err(LoadError::Corruption),
        },
    }
}

} // verus!
