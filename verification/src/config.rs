//! Pacing configuration for the flush scheduler.
//!
//! One tunable: the flush interval in milliseconds. It is resolved once at
//! startup from an ordered list of configuration sources (highest priority
//! first); the first source that supplies a value wins, and a documented
//! default applies when none does.

use vstd::prelude::*;

verus! {

/// Default flush interval in milliseconds, tuned for slow-refresh displays.
pub const DEFAULT_DELAY_MS: u64 = 300;

/// Streaming configuration, read-only after startup.
#[derive(Clone, Copy, PartialEq, Eq, Structural, Debug)]
pub struct StreamingConfig {
    /// Milliseconds between chunk flushes toward the display.
    pub delay_ms: u64,
}

impl Default for StreamingConfig {
    /// The configuration used when no source supplies a value.
    fn default() -> (r: Self)
        ensures
            r.delay_ms == DEFAULT_DELAY_MS,
    {
        StreamingConfig { delay_ms: DEFAULT_DELAY_MS }
    }
}

/// The value that an ordered list of configuration sources resolves to:
/// the first source holding a value wins; with none, the default applies.
pub open spec fn spec_resolved_delay(sources: Seq<Option<u64>>) -> u64
    decreases sources.len(),
{
    if sources.len() == 0 {
        DEFAULT_DELAY_MS
    } else if sources[0] is Some {
        sources[0]->0
    } else {
        spec_resolved_delay(sources.drop_first())
    }
}

impl StreamingConfig {
    /// Resolve the configuration from layered sources, highest priority first.
    pub fn resolve(sources: &Vec<Option<u64>>) -> (r: Self)
        ensures
            r.delay_ms == spec_resolved_delay(sources@),
    {
        let mut i: usize = 0;
        assert(sources@.skip(0) =~= sources@);
        while i < sources.len()
            invariant
                0 <= i <= sources@.len(),
                spec_resolved_delay(sources@) == spec_resolved_delay(sources@.skip(i as int)),
            decreases sources@.len() - i,
        {
            if let Some(d) = sources[i] {
                assert(sources@.skip(i as int)[0] == sources@[i as int]);
                return StreamingConfig { delay_ms: d };
            }
            assert(sources@.skip(i as int).drop_first() =~= sources@.skip(i + 1));
            i = i + 1;
        }
        assert(sources@.skip(i as int).len() == 0);
        StreamingConfig { delay_ms: DEFAULT_DELAY_MS }
    }
}

/// Diagnostic read-out of the active configuration.
pub fn config_debug(config: &StreamingConfig) -> (r: StreamingConfig)
    ensures
        r == *config,
{
    *config
}

} // verus!
