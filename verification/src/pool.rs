//! A pool of compiled patterns, keyed by engine and pattern text.
//!
//! A pattern handed out by [`PatternPool::acquire`] is always one that was
//! compiled from the text asked for. Handles that come back through
//! [`PatternPool::release`] wait in the pool until the same text is asked for
//! again. One pool serves one worker: a search that runs on several workers
//! gives each its own.

use crate::pattern::{
    engine_accepts, share_pattern, CompileError, Engine, Pattern, PatternKey,
};
use crate::text::same_text;
use std::collections::VecDeque;
use std::sync::Arc;
use vstd::prelude::*;

verus! {

/// How many idle handles of one key the pool keeps.
pub const MAX_IDLE_PER_KEY: usize = 8;

/// The first position at or after `i` at which `idle` holds `key`, or the
/// length of `idle`.
pub open spec fn first_idle(idle: Seq<PatternKey>, key: PatternKey, i: int) -> int
    decreases idle.len() - i,
{
    if 0 <= i < idle.len() && idle[i] != key {
        first_idle(idle, key, i + 1)
    } else {
        i
    }
}

/// `idle` without its first handle of `key`, if it holds one.
pub open spec fn without_first(idle: Seq<PatternKey>, key: PatternKey) -> Seq<PatternKey> {
    let i = first_idle(idle, key, 0);
    if 0 <= i < idle.len() {
        idle.remove(i)
    } else {
        idle
    }
}

/// How many handles of `key` stand in `idle`.
pub open spec fn idle_count(idle: Seq<PatternKey>, key: PatternKey) -> nat
    decreases idle.len(),
{
    if idle.len() == 0 {
        0
    } else if idle.last() == key {
        idle_count(idle.drop_last(), key) + 1
    } else {
        idle_count(idle.drop_last(), key)
    }
}

/// `idle` with one more handle of `key`, unless it holds
/// [`MAX_IDLE_PER_KEY`] of them already.
pub open spec fn with_released(idle: Seq<PatternKey>, key: PatternKey) -> Seq<PatternKey> {
    if idle_count(idle, key) < MAX_IDLE_PER_KEY {
        idle.push(key)
    } else {
        idle
    }
}

/// The keys of a list of handles.
pub open spec fn keys_of(handles: Seq<Arc<Pattern>>) -> Seq<PatternKey> {
    Seq::new(handles.len(), |i: int| handles[i]@)
}

/// A pool of idle pattern handles.
pub struct PatternPool {
    idle: VecDeque<Arc<Pattern>>,
}

impl View for PatternPool {
    type V = Seq<PatternKey>;

    /// The keys of the idle handles, oldest first.
    closed spec fn view(&self) -> Seq<PatternKey> {
        keys_of(self.idle@)
    }
}

impl Default for PatternPool {
    fn default() -> (r: PatternPool)
        ensures
            r@ == Seq::<PatternKey>::empty(),
    {
        PatternPool::new()
    }
}

impl Clone for PatternPool {
    /// A pool with handles on the same idle patterns.
    fn clone(&self) -> (r: PatternPool)
        ensures
            r@ == self@,
    {
        let mut idle: VecDeque<Arc<Pattern>> = VecDeque::new();
        let mut i: usize = 0;
        while i < self.idle.len()
            invariant
                i <= self.idle.len(),
                idle@ == self.idle@.take(i as int),
            decreases self.idle.len() - i,
        {
            idle.push_back(share_pattern(&self.idle[i]));
            assert(idle@ =~= self.idle@.take(i + 1));
            i = i + 1;
        }
        assert(self.idle@.take(i as int) =~= self.idle@);
        PatternPool { idle }
    }
}

impl PatternPool {
    /// An empty pool.
    pub fn new() -> (r: PatternPool)
        ensures
            r@ == Seq::<PatternKey>::empty(),
    {
        let r = PatternPool { idle: VecDeque::new() };
        assert(r@ =~= Seq::<PatternKey>::empty());
        r
    }

    /// The number of idle handles.
    pub fn idle_len(&self) -> (n: usize)
        ensures
            n == self@.len(),
    {
        self.idle.len()
    }

    fn is_key(handle: &Arc<Pattern>, engine: Engine, pattern: &str) -> (r: bool)
        ensures
            r == (handle@ == (PatternKey { engine, text: pattern@ })),
            engine_accepts(handle@),
    {
        let text = handle.as_str();
        handle.engine() == engine && same_text(text, pattern)
    }

    /// Hands out a pattern compiled by `engine` from `pattern`: the oldest
    /// idle handle of that key where the pool holds one, else a pattern
    /// compiled now. It fails where the engine rejects the pattern text, and
    /// only there.
    pub fn acquire(&mut self, engine: Engine, pattern: &str) -> (r: Result<
        Arc<Pattern>,
        CompileError,
    >)
        ensures
            r is Ok <==> engine_accepts(PatternKey { engine, text: pattern@ }),
            r matches Ok(h) ==> h@ == (PatternKey { engine, text: pattern@ }),
            r matches Err(e) ==> e == CompileError::InvalidPattern,
            final(self)@ == without_first(old(self)@, PatternKey { engine, text: pattern@ }),
    {
        let ghost key = PatternKey { engine, text: pattern@ };
        let mut i: usize = 0;
        while i < self.idle.len()
            invariant
                i <= self.idle.len(),
                self.idle@ == old(self).idle@,
                key == (PatternKey { engine, text: pattern@ }),
                first_idle(self@, key, i as int) == first_idle(self@, key, 0),
            decreases self.idle.len() - i,
        {
            if Self::is_key(&self.idle[i], engine, pattern) {
                let ghost before = self@;
                match self.idle.remove(i) {
                    Some(h) => {
                        assert(self@ =~= before.remove(i as int));
                        return Ok(h);
                    },
                    None => {},
                }
            }
            i = i + 1;
        }
        match Pattern::compile(engine, pattern) {
            Ok(p) => Ok(Arc::new(p)),
            Err(e) => Err(e),
        }
    }

    /// Hands out a pattern compiled by PCRE2 from `pattern`.
    pub fn acquire_pcre2(&mut self, pattern: &str) -> (r: Result<Arc<Pattern>, CompileError>)
        ensures
            r is Ok <==> engine_accepts(PatternKey { engine: Engine::Pcre2, text: pattern@ }),
            r matches Ok(h) ==> h@ == (PatternKey { engine: Engine::Pcre2, text: pattern@ }),
            r matches Err(e) ==> e == CompileError::InvalidPattern,
            final(self)@ == without_first(
                old(self)@,
                PatternKey { engine: Engine::Pcre2, text: pattern@ },
            ),
    {
        self.acquire(Engine::Pcre2, pattern)
    }

    fn count(&self, key: &Arc<Pattern>) -> (n: usize)
        ensures
            n == idle_count(self@, key@),
    {
        let engine = key.engine();
        let text = key.as_str();
        let mut n: usize = 0;
        let mut i: usize = 0;
        while i < self.idle.len()
            invariant
                i <= self.idle.len(),
                n <= i,
                n == idle_count(self@.take(i as int), key@),
                key@ == (PatternKey { engine, text: text@ }),
            decreases self.idle.len() - i,
        {
            proof {
                assert(self@.take(i + 1).drop_last() =~= self@.take(i as int));
                assert(self@.take(i + 1).last() == self.idle@[i as int]@);
            }
            if Self::is_key(&self.idle[i], engine, text) {
                n = n + 1;
            }
            i = i + 1;
        }
        assert(self@.take(i as int) =~= self@);
        n
    }

    /// Takes a handle back for reuse. The pool keeps it unless it holds
    /// [`MAX_IDLE_PER_KEY`] idle handles of the same key already.
    pub fn release(&mut self, pat: Arc<Pattern>)
        ensures
            final(self)@ == with_released(old(self)@, pat@),
    {
        if self.count(&pat) < MAX_IDLE_PER_KEY {
            let ghost before = self@;
            self.idle.push_back(pat);
            assert(self@ =~= before.push(pat@));
        }
    }
}

} // verus!
