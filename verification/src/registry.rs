//! The registry of searches in flight.
//!
//! Every search gets a handle: a number that no search had before it and
//! none will have after it. Handle 0 is never given out; it stands for "no
//! search". The registry knows which handles are live and how each search
//! delivers its results. The threads, channels and callbacks of a search
//! belong to whoever runs it; the registry decides, and says what to do.

use crate::index::Index;
use crate::search::{results_model, ResultModel, SearchResult, Worker, initial_worker};
use std::collections::HashMap;
use vstd::prelude::*;
use vstd::std_specs::iter::IteratorSpec;

verus! {

/// How a search delivers its results.
#[derive(Debug, Clone, Copy, PartialEq, Eq, Structural)]
pub enum Delivery {
    /// Into a buffer that `poll_results` drains.
    Pull,
    /// By a call for each result as it is found.
    Push,
}

/// What the registry keeps of one search.
#[derive(Debug, Clone, Copy, PartialEq, Eq, Structural)]
pub struct SearchContext {
    pub id: u64,
    pub delivery: Delivery,
}

/// What a [`Registry`] stands for: the next handle, and the searches in
/// flight, each under its handle.
pub struct RegistryState {
    pub next_id: u64,
    pub contexts: Map<u64, SearchContext>,
}

/// Whether a search with handle `h` is in flight.
pub open spec fn has_handle(contexts: Map<u64, SearchContext>, h: u64) -> bool {
    contexts.dom().contains(h)
}

/// The searches without the one with handle `h`.
pub open spec fn without_handle(contexts: Map<u64, SearchContext>, h: u64) -> Map<
    u64,
    SearchContext,
> {
    contexts.remove(h)
}

/// `handles` lists the handles of the searches, each once, in some order.
pub open spec fn lists_handles(handles: Seq<u64>, contexts: Map<u64, SearchContext>) -> bool {
    handles.no_duplicates() && handles.to_set() == contexts.dom()
}

/// Every search stands under its own handle; the handles are 1 or above and
/// lie below the next handle.
pub open spec fn handles_below_next(s: RegistryState) -> bool {
    &&& s.next_id >= 1
    &&& forall|h: u64| #[trigger]
        s.contexts.dom().contains(h) ==> 1 <= h < s.next_id && s.contexts[h].id == h
}

/// The registry after a search is started, and its handle: the next handle,
/// or 0 and no change where the handles are used up.
pub open spec fn register_spec(s: RegistryState, delivery: Delivery) -> (RegistryState, u64) {
    if s.next_id < u64::MAX {
        (
            RegistryState {
                next_id: (s.next_id + 1) as u64,
                contexts: s.contexts.insert(s.next_id, SearchContext { id: s.next_id, delivery }),
            },
            s.next_id,
        )
    } else {
        (s, 0)
    }
}

/// The registry after a poll of handle `h` that found `drained` in the
/// buffer, and what the poll yields. `closed` says that the search has ended
/// and its buffer is empty for good. An unknown handle yields nothing, and so
/// does a search that delivers by calls. A search that has ended and is
/// drained leaves the registry.
pub open spec fn poll_spec(
    s: RegistryState,
    h: u64,
    drained: Seq<ResultModel>,
    closed: bool,
) -> (RegistryState, Seq<ResultModel>) {
    if has_handle(s.contexts, h) && s.contexts[h].delivery == Delivery::Pull {
        (
            if closed {
                RegistryState { next_id: s.next_id, contexts: without_handle(s.contexts, h) }
            } else {
                s
            },
            drained,
        )
    } else {
        (s, Seq::empty())
    }
}

/// The registry after the search with handle `h` is cancelled, and whether
/// there was such a search to stop.
pub open spec fn cancel_spec(s: RegistryState, h: u64) -> (RegistryState, bool) {
    (
        RegistryState { next_id: s.next_id, contexts: without_handle(s.contexts, h) },
        has_handle(s.contexts, h),
    )
}

/// The registry after all searches are cancelled.
pub open spec fn shutdown_spec(s: RegistryState) -> RegistryState {
    RegistryState { next_id: s.next_id, contexts: Map::empty() }
}

/// A handle that is cancelled is gone: no search with that handle is in
/// flight afterwards, and the other searches stay.
pub proof fn lemma_cancelled_handle_is_gone(s: RegistryState, h: u64)
    requires
        handles_below_next(s),
    ensures
        !has_handle(cancel_spec(s, h).0.contexts, h),
        handles_below_next(cancel_spec(s, h).0),
        forall|g: u64|
            g != h ==> has_handle(cancel_spec(s, h).0.contexts, g) == has_handle(s.contexts, g),
{
}

/// After a search is cancelled, a poll of its handle yields nothing,
/// whatever stands in its buffer.
pub proof fn lemma_poll_after_cancel_is_empty(
    s: RegistryState,
    h: u64,
    drained: Seq<ResultModel>,
    closed: bool,
)
    ensures
        poll_spec(cancel_spec(s, h).0, h, drained, closed).1 == Seq::<ResultModel>::empty(),
        poll_spec(cancel_spec(s, h).0, h, drained, closed).0 == cancel_spec(s, h).0,
{
}

/// A handle is never given out twice: the handle of a new search is greater
/// than every handle in flight and than every handle given out before, and
/// it is not 0 nor in flight before the search starts. While handles are
/// left, every start gets one.
pub proof fn lemma_new_handle_is_fresh(s: RegistryState, delivery: Delivery)
    requires
        handles_below_next(s),
    ensures
        handles_below_next(register_spec(s, delivery).0),
        register_spec(s, delivery).0.next_id >= s.next_id,
        s.next_id < u64::MAX <==> register_spec(s, delivery).1 != 0,
        register_spec(s, delivery).1 != 0 ==> {
            &&& register_spec(s, delivery).1 == s.next_id
            &&& register_spec(s, delivery).0.next_id > register_spec(s, delivery).1
            &&& !has_handle(s.contexts, register_spec(s, delivery).1)
            &&& has_handle(register_spec(s, delivery).0.contexts, register_spec(s, delivery).1)
            &&& forall|g: u64| has_handle(s.contexts, g) ==> g < register_spec(s, delivery).1
        },
{
    if s.contexts.dom().contains(s.next_id) {
        assert(s.next_id < s.next_id);
    }
}

/// Shutting down twice is shutting down once: the second shutdown finds no
/// search and changes nothing.
pub proof fn lemma_shutdown_is_idempotent(s: RegistryState, handles: Seq<u64>)
    requires
        lists_handles(handles, shutdown_spec(s).contexts),
    ensures
        shutdown_spec(shutdown_spec(s)) == shutdown_spec(s),
        handles.len() == 0,
{
    if handles.len() > 0 {
        assert(handles.to_set().contains(handles[0]));
    }
}

/// The registry of the searches in flight.
pub struct Registry {
    next_id: u64,
    contexts: HashMap<u64, SearchContext>,
}

impl View for Registry {
    type V = RegistryState;

    closed spec fn view(&self) -> RegistryState {
        RegistryState { next_id: self.next_id, contexts: self.contexts@ }
    }
}

impl Registry {
    /// A registry without searches, whose first handle is 1.
    pub fn new() -> (r: Registry)
        ensures
            r@ == (RegistryState { next_id: 1, contexts: Map::empty() }),
            handles_below_next(r@),
    {
        Registry { next_id: 1, contexts: HashMap::new() }
    }

    /// The number of searches in flight.
    pub fn len(&self) -> (n: usize)
        ensures
            n == self@.contexts.len(),
    {
        self.contexts.len()
    }

    /// Tests whether a search with handle `h` is in flight.
    pub fn contains(&self, h: u64) -> (r: bool)
        ensures
            r == has_handle(self@.contexts, h),
    {
        self.contexts.contains_key(&h)
    }

    /// Registers a new search and yields its handle, or 0 where the handles
    /// are used up.
    pub fn register(&mut self, delivery: Delivery) -> (h: u64)
        ensures
            (final(self)@, h) == register_spec(old(self)@, delivery),
            handles_below_next(old(self)@) ==> handles_below_next(final(self)@),
    {
        proof {
            if handles_below_next(self@) {
                lemma_new_handle_is_fresh(self@, delivery);
            }
        }
        if self.next_id < u64::MAX {
            let id = self.next_id;
            self.next_id = id + 1;
            self.contexts.insert(id, SearchContext { id, delivery });
            id
        } else {
            0
        }
    }

    fn remove(&mut self, h: u64) -> (r: bool)
        ensures
            (final(self)@, r) == cancel_spec(old(self)@, h),
            handles_below_next(old(self)@) ==> handles_below_next(final(self)@),
    {
        match self.contexts.remove(&h) {
            Some(_) => true,
            None => false,
        }
    }
}

/// Starts a search of `query` over `idx` whose results are polled. Yields
/// the handle and the worker to run, or 0 and no worker where the handles are
/// used up.
pub fn start_search_with_index(reg: &mut Registry, idx: &Index, query: &str) -> (r: (
    u64,
    Option<Worker>,
))
    ensures
        (final(reg)@, r.0) == register_spec(old(reg)@, Delivery::Pull),
        handles_below_next(old(reg)@) ==> handles_below_next(final(reg)@),
        r.0 == 0 <==> r.1 is None,
        r.1 matches Some(w) ==> w@ == initial_worker(query@, idx@.entries.len() > 0),
{
    let h = reg.register(Delivery::Pull);
    if h == 0 {
        (0, None)
    } else {
        (h, Some(Worker::new(query, idx.len() > 0)))
    }
}

/// Starts a search of `query` over `idx` whose results are delivered by a
/// call for each. The call may come from any thread that runs the worker, so
/// what is called must be safe to call from several threads.
pub fn start_search_with_index_and_cb(reg: &mut Registry, idx: &Index, query: &str) -> (r: (
    u64,
    Option<Worker>,
))
    ensures
        (final(reg)@, r.0) == register_spec(old(reg)@, Delivery::Push),
        handles_below_next(old(reg)@) ==> handles_below_next(final(reg)@),
        r.0 == 0 <==> r.1 is None,
        r.1 matches Some(w) ==> w@ == initial_worker(query@, idx@.entries.len() > 0),
{
    let h = reg.register(Delivery::Push);
    if h == 0 {
        (0, None)
    } else {
        (h, Some(Worker::new(query, idx.len() > 0)))
    }
}

/// Starts a search of `query` over the current index, if there is one.
/// Without an index there is no search, and the handle is 0.
pub fn start_search(reg: &mut Registry, current: Option<&Index>, query: &str) -> (r: (
    u64,
    Option<Worker>,
))
    ensures
        match current {
            Some(idx) => {
                &&& (final(reg)@, r.0) == register_spec(old(reg)@, Delivery::Pull)
                &&& r.1 matches Some(w) ==> w@ == initial_worker(query@, idx@.entries.len() > 0)
            },
            None => final(reg)@ == old(reg)@ && r.0 == 0,
        },
        handles_below_next(old(reg)@) ==> handles_below_next(final(reg)@),
        r.0 == 0 <==> r.1 is None,
{
    match current {
        Some(idx) => start_search_with_index(reg, idx, query),
        None => (0, None),
    }
}

/// Takes what a poll of handle `h` found in the buffer of its search.
/// `closed` says that the search has ended and its buffer is empty for good;
/// the handle then leaves the registry.
pub fn poll_results(reg: &mut Registry, h: u64, drained: Vec<SearchResult>, closed: bool) -> (out:
    Vec<SearchResult>)
    ensures
        (final(reg)@, results_model(out@)) == poll_spec(
            old(reg)@,
            h,
            results_model(drained@),
            closed,
        ),
        handles_below_next(old(reg)@) ==> handles_below_next(final(reg)@),
{
    let pulls = match reg.contexts.get(&h) {
        Some(c) => match c.delivery {
            Delivery::Pull => true,
            Delivery::Push => false,
        },
        None => false,
    };
    if pulls {
        if closed {
            reg.contexts.remove(&h);
        }
        drained
    } else {
        let out: Vec<SearchResult> = Vec::new();
        assert(results_model(out@) =~= Seq::<ResultModel>::empty());
        out
    }
}

/// Takes the search with handle `h` out of the registry. Where it yields
/// `true` there is a worker to stop: the caller sets its cancellation flag
/// and waits until it has ended before it goes on.
pub fn cancel_search(reg: &mut Registry, h: u64) -> (r: bool)
    ensures
        (final(reg)@, r) == cancel_spec(old(reg)@, h),
        handles_below_next(old(reg)@) ==> handles_below_next(final(reg)@),
{
    reg.remove(h)
}

/// Takes all searches out of the registry and yields their handles, each
/// once and in no particular order, for the caller to stop each worker.
pub fn shutdown_all(reg: &mut Registry) -> (r: Vec<u64>)
    ensures
        final(reg)@ == shutdown_spec(old(reg)@),
        lists_handles(r@, old(reg)@.contexts),
        handles_below_next(old(reg)@) ==> handles_below_next(final(reg)@),
{
    let mut out: Vec<u64> = Vec::new();
    let keys = reg.contexts.keys();
    let ghost all: Seq<u64> = IteratorSpec::remaining(&keys).unref();
    for k in it: keys
        invariant
            out@ == it.seq().unref().take(it.index() as int),
            all == it.seq().unref(),
            all.to_set() == reg.contexts@.dom(),
            it.seq().no_duplicates(),
    {
        out.push(*k);
    }
    assert(out@ =~= all);
    reg.contexts.clear();
    out
}

} // verus!
