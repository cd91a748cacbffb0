//! One-shot matching through the pattern pool.

use crate::pattern::{
    key_groups, matcher_pattern, pcre2_accepts, ranges_model, ranges_within, regex_escape,
    CompileError, Engine, PatternKey,
};
use crate::pool::{with_released, without_first, PatternPool};
use vstd::prelude::*;

verus! {

/// The value of the result of a one-shot match.
pub open spec fn match_model(r: Result<Option<Vec<(usize, usize)>>, CompileError>) -> Result<
    Option<Seq<(usize, usize)>>,
    CompileError,
> {
    match r {
        Ok(v) => Ok(ranges_model(v)),
        Err(e) => Err(e),
    }
}

/// What a one-shot match of a PCRE2 pattern text yields: the capture ranges
/// of the leftmost match, or the error where PCRE2 rejects the text.
pub open spec fn match_spec(pattern: Seq<char>, text: Seq<u8>) -> Result<
    Option<Seq<(usize, usize)>>,
    CompileError,
> {
    if pcre2_accepts(pattern) {
        Ok(key_groups(PatternKey { engine: Engine::Pcre2, text: pattern }, text))
    } else {
        Err(CompileError::InvalidPattern)
    }
}

/// The idle handles of a pool after a one-shot match: the pattern is taken
/// from the pool, or compiled, and handed back after use.
pub open spec fn pool_after_match(idle: Seq<PatternKey>, pattern: Seq<char>) -> Seq<PatternKey> {
    let key = PatternKey { engine: Engine::Pcre2, text: pattern };
    if pcre2_accepts(pattern) {
        with_released(without_first(idle, key), key)
    } else {
        without_first(idle, key)
    }
}

/// Matches `text` with a pattern from the pool: `pattern` as a regular
/// expression where `is_regex` holds, else as literal text, every meta
/// character escaped.
pub fn match_text_pcre2(pool: &mut PatternPool, pattern: &str, text: &[u8], is_regex: bool) -> (r:
    Result<Option<Vec<(usize, usize)>>, CompileError>)
    ensures
        match_model(r) == match_spec(matcher_pattern(pattern@, is_regex), text@),
        final(pool)@ == pool_after_match(old(pool)@, matcher_pattern(pattern@, is_regex)),
        r matches Ok(Some(v)) ==> ranges_within(v@, text@.len()),
{
    let acquired = if is_regex {
        pool.acquire_pcre2(pattern)
    } else {
        let escaped = regex_escape(pattern);
        pool.acquire_pcre2(escaped.as_str())
    };
    match acquired {
        Ok(pat) => {
            let found = pat.captures_ranges(text);
            pool.release(pat);
            Ok(found)
        },
        Err(e) => Err(e),
    }
}

} // verus!
