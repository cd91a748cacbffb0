//! Searches over an index.
//!
//! A search is planned once and then judges the entries one by one. A query
//! that parses and compiles is evaluated as a compiled query; any other query
//! falls back to a plain search, by regular expression where it starts with
//! `re:` and the rest compiles, else by substring without regard to case. No
//! query is ever rejected.
//!
//! [`Worker`] is the state of one search. Whoever runs it calls
//! [`Worker::step`] until it says [`Action::Stop`], hands each delivered
//! result on, and tells each step whether the search has been cancelled.

use crate::entry::{Entry, EntryModel};
use crate::highlight::{cluster_starts, grapheme_starts, map_ranges, map_ranges_with};
use crate::index::{entries_model, Index};
use crate::json::{highlights_json, highlights_to_json};
use crate::pattern::{str_regex_accepts, str_regex_found, PatternKey, StrMatcher};
use crate::pool::PatternPool;
use crate::query::matcher::{
    compile_spec, copy_field, eval, field_model, metas_model, metas_spec, pool_after_compile,
    CompiledModel, CompiledNode, MatchMeta, MetaModel, QueryMatcher,
};
use crate::query::parser::{parse_query, Parser};
use crate::text::{
    chars_of, chars_start_with, contains_chars, contains_text, has_prefix, lowercase_text,
    lowercased, string_of,
};
use vstd::prelude::*;
use vstd::string::StringExecFns;
use vstd::utf8::encode_utf8;

verus! {

/// One matching entry, with its highlights in serialized form.
#[derive(Debug, Clone, PartialEq, Eq)]
pub struct SearchResult {
    pub id: u64,
    pub name: String,
    pub path: String,
    pub size: u64,
    pub mtime: u64,
    pub highlights: String,
}

/// The mathematical value of a [`SearchResult`].
pub struct ResultModel {
    pub id: u64,
    pub name: Seq<char>,
    pub path: Seq<char>,
    pub size: u64,
    pub mtime: u64,
    pub highlights: Seq<char>,
}

impl View for SearchResult {
    type V = ResultModel;

    open spec fn view(&self) -> ResultModel {
        ResultModel {
            id: self.id,
            name: self.name@,
            path: self.path@,
            size: self.size,
            mtime: self.mtime,
            highlights: self.highlights@,
        }
    }
}

/// The values of a list of results.
pub open spec fn results_model(v: Seq<SearchResult>) -> Seq<ResultModel> {
    Seq::new(v.len(), |i: int| v[i]@)
}

/// The result for an entry with the given highlights.
pub open spec fn result_of(e: EntryModel, highlights: Seq<char>) -> ResultModel {
    ResultModel { id: e.id, name: e.name, path: e.path, size: e.size, mtime: e.mtime, highlights }
}

/// How a search judges entries.
pub enum QueryPlan {
    /// By a compiled query.
    Compiled(CompiledNode),
    /// By a regular expression on path and name.
    FallbackRegex(StrMatcher),
    /// By a lower-case substring of the normalized name or the lower-case
    /// path.
    FallbackLiteral(String),
}

/// The mathematical value of a [`QueryPlan`].
pub enum PlanModel {
    Compiled(CompiledModel),
    FallbackRegex(Seq<char>),
    FallbackLiteral(Seq<char>),
}

impl View for QueryPlan {
    type V = PlanModel;

    open spec fn view(&self) -> PlanModel {
        match self {
            QueryPlan::Compiled(c) => PlanModel::Compiled(c@),
            QueryPlan::FallbackRegex(m) => PlanModel::FallbackRegex(m.source()),
            QueryPlan::FallbackLiteral(s) => PlanModel::FallbackLiteral(s@),
        }
    }
}

/// The pattern of a fallback search: the query without a leading `re:`.
pub open spec fn fallback_pattern(query: Seq<char>) -> Seq<char> {
    if has_prefix(query, "re:"@) {
        query.subrange("re:"@.len() as int, query.len() as int)
    } else {
        query
    }
}

/// The plan of a fallback search: a regular expression where the query
/// starts with `re:` and the rest compiles, else the lower-case form of the
/// pattern.
pub open spec fn fallback_plan(query: Seq<char>) -> PlanModel {
    if has_prefix(query, "re:"@) && str_regex_accepts(fallback_pattern(query)) {
        PlanModel::FallbackRegex(fallback_pattern(query))
    } else {
        PlanModel::FallbackLiteral(lowercased(fallback_pattern(query)))
    }
}

/// The plan of a query: its compiled form where it parses and compiles,
/// else the fallback plan.
pub open spec fn plan_spec(query: Seq<char>) -> PlanModel {
    match parse_query(query) {
        Some(node) => match compile_spec(node) {
            Ok(c) => PlanModel::Compiled(c),
            Err(_) => fallback_plan(query),
        },
        None => fallback_plan(query),
    }
}

/// The idle handles of a pool once a query is planned over it.
pub open spec fn pool_after_plan(query: Seq<char>, idle: Seq<PatternKey>) -> Seq<PatternKey> {
    match parse_query(query) {
        Some(node) => pool_after_compile(node, idle),
        None => idle,
    }
}

/// A malformed query is never an error: a query that does not parse, or
/// whose syntax tree does not compile, gets the fallback plan.
pub proof fn lemma_malformed_query_falls_back(query: Seq<char>)
    ensures
        parse_query(query) is None ==> plan_spec(query) == fallback_plan(query),
        parse_query(query) matches Some(node) && compile_spec(node) is Err ==> plan_spec(query)
            == fallback_plan(query),
        !(fallback_plan(query) is Compiled),
{
}

/// The text that a compiled query is evaluated against.
pub open spec fn combined_text(e: EntryModel) -> Seq<char> {
    e.name + "\n"@ + e.path
}

/// The field of a compiled query whose root is a leaf, a comparison or a
/// range.
pub open spec fn top_field(m: CompiledModel) -> Option<Seq<char>> {
    match m {
        CompiledModel::Leaf { pat, negated, field, mods } => field,
        CompiledModel::Compare { field, op, value } => field,
        CompiledModel::Range { field, low, high } => field,
        _ => None,
    }
}

/// One entry of highlights: under `field` where it has no field of its own,
/// its ranges mapped to UTF-16 code units.
pub open spec fn highlight_one(
    m: MetaModel,
    field: Option<Seq<char>>,
    chars: Seq<char>,
    starts: Seq<usize>,
) -> MetaModel {
    MetaModel {
        field: if m.field is None {
            field
        } else {
            m.field
        },
        ranges: map_ranges(chars, starts, m.ranges),
    }
}

/// The highlights for a list of metadata.
pub open spec fn highlight_all(
    ms: Seq<MetaModel>,
    field: Option<Seq<char>>,
    chars: Seq<char>,
    starts: Seq<usize>,
) -> Seq<MetaModel> {
    Seq::new(ms.len(), |i: int| highlight_one(ms[i], field, chars, starts))
}

/// The serialized highlights of an entry under a compiled query.
pub open spec fn entry_highlights(c: CompiledModel, e: EntryModel) -> Seq<char> {
    let text = combined_text(e);
    highlights_json(
        highlight_all(
            metas_spec(c, encode_utf8(text)),
            top_field(c),
            text,
            grapheme_starts(text),
        ),
    )
}

/// Whether an entry matches under a plan.
pub open spec fn plan_matches(plan: PlanModel, e: EntryModel) -> bool {
    match plan {
        PlanModel::Compiled(c) => eval(c, encode_utf8(combined_text(e))),
        PlanModel::FallbackRegex(p) => str_regex_found(p, e.path) || str_regex_found(p, e.name),
        PlanModel::FallbackLiteral(p) => contains_text(e.normalized, p) || contains_text(
            lowercased(e.path),
            p,
        ),
    }
}

/// The result that an entry yields under a plan: none where it does not
/// match; else its record, with highlights where the plan is a compiled
/// query.
pub open spec fn entry_result(plan: PlanModel, e: EntryModel) -> Option<ResultModel> {
    if plan_matches(plan, e) {
        Some(
            result_of(
                e,
                match plan {
                    PlanModel::Compiled(c) => entry_highlights(c, e),
                    _ => Seq::empty(),
                },
            ),
        )
    } else {
        None
    }
}

/// The value of an optional result.
pub open spec fn result_model(r: Option<SearchResult>) -> Option<ResultModel> {
    match r {
        Some(x) => Some(x@),
        None => None,
    }
}

fn fallback(query: &str) -> (r: QueryPlan)
    ensures
        r@ == fallback_plan(query@),
{
    let chars = chars_of(query);
    let prefix = chars_of("re:");
    let is_regex = chars_start_with(&chars, &prefix);
    let pattern = if is_regex {
        string_of(&chars, prefix.len(), chars.len())
    } else {
        assert(chars@.subrange(0, chars.len() as int) =~= chars@);
        string_of(&chars, 0, chars.len())
    };
    if is_regex {
        match StrMatcher::new(pattern.as_str()) {
            Ok(m) => {
                return QueryPlan::FallbackRegex(m);
            },
            Err(_) => {},
        }
    }
    QueryPlan::FallbackLiteral(lowercase_text(pattern.as_str()))
}

/// Plans a query. The patterns of a compiled plan come from the pool of
/// `matcher`.
pub fn plan_query(matcher: &mut QueryMatcher, query: &str) -> (r: QueryPlan)
    ensures
        r@ == plan_spec(query@),
        final(matcher)@ == pool_after_plan(query@, old(matcher)@),
{
    let mut parser = Parser::new(query);
    match parser.parse() {
        Some(node) => match matcher.compile(&node) {
            Ok(c) => QueryPlan::Compiled(c),
            Err(_) => fallback(query),
        },
        None => fallback(query),
    }
}

fn top_field_of(c: &CompiledNode) -> (r: Option<String>)
    ensures
        field_model(r) == top_field(c@),
{
    match c {
        CompiledNode::Leaf { pat, negated, field, mods } => copy_field(field),
        CompiledNode::Compare { field, op, value } => copy_field(field),
        CompiledNode::Range { field, low, high } => copy_field(field),
        _ => None,
    }
}

fn highlights_of(metas: &Vec<MatchMeta>, field: &Option<String>, text: &str) -> (out: Vec<MatchMeta>)
    ensures
        metas_model(out@) == highlight_all(
            metas_model(metas@),
            field_model(*field),
            text@,
            grapheme_starts(text@),
        ),
{
    let starts = cluster_starts(text);
    let mut out: Vec<MatchMeta> = Vec::new();
    let mut i: usize = 0;
    while i < metas.len()
        invariant
            i <= metas.len(),
            starts@ == grapheme_starts(text@),
            out.len() == i,
            forall|k: int|
                0 <= k < i ==> (#[trigger] out[k])@ == highlight_one(
                    metas[k]@,
                    field_model(*field),
                    text@,
                    starts@,
                ),
        decreases metas.len() - i,
    {
        let m = &metas[i];
        let own = match &m.field {
            Some(f) => Some(f.clone()),
            None => copy_field(field),
        };
        out.push(MatchMeta { field: own, ranges: map_ranges_with(text, &starts, &m.ranges) });
        i = i + 1;
    }
    assert(metas_model(out@) =~= highlight_all(
        metas_model(metas@),
        field_model(*field),
        text@,
        grapheme_starts(text@),
    ));
    out
}

fn record(e: &Entry, highlights: String) -> (r: SearchResult)
    ensures
        r@ == result_of(e@, highlights@),
{
    SearchResult {
        id: e.id,
        name: e.name.clone(),
        path: e.path.clone(),
        size: e.size,
        mtime: e.mtime,
        highlights,
    }
}

/// Judges one entry under a plan.
pub fn evaluate_entry(matcher: &QueryMatcher, plan: &QueryPlan, e: &Entry) -> (r: Option<
    SearchResult,
>)
    ensures
        result_model(r) == entry_result(plan@, e@),
{
    match plan {
        QueryPlan::Compiled(c) => {
            let mut text = e.name.clone();
            text.append("\n");
            text.append(e.path.as_str());
            assert(text@ =~= combined_text(e@));
            let bytes = text.as_str().as_bytes();
            if matcher.is_match(c, bytes) {
                let metas = matcher.captures_meta(c, bytes);
                let field = top_field_of(c);
                let marked = highlights_of(&metas, &field, text.as_str());
                Some(record(e, highlights_to_json(&marked)))
            } else {
                None
            }
        },
        QueryPlan::FallbackRegex(m) => {
            if m.is_match(e.path.as_str()) || m.is_match(e.name.as_str()) {
                Some(record(e, String::new()))
            } else {
                None
            }
        },
        QueryPlan::FallbackLiteral(p) => {
            let needle = chars_of(p.as_str());
            let lower_path = lowercase_text(e.path.as_str());
            if contains_chars(&chars_of(e.normalized.as_str()), &needle) || contains_chars(
                &chars_of(lower_path.as_str()),
                &needle,
            ) {
                Some(record(e, String::new()))
            } else {
                None
            }
        },
    }
}

/// The stages of a search.
#[derive(Debug, Clone, Copy, PartialEq, Eq, Structural)]
pub enum SearchPhase {
    Created,
    Parsing,
    Compiled,
    FallbackLiteral,
    Running,
    Completed,
    Cancelled,
}

/// A stage that a search never leaves.
pub open spec fn is_terminal(phase: SearchPhase) -> bool {
    phase == SearchPhase::Completed || phase == SearchPhase::Cancelled
}

/// What a [`Worker`] stands for.
pub struct WorkerState {
    pub phase: SearchPhase,
    pub query: Seq<char>,
    pub plan: Option<PlanModel>,
    /// The position of the next entry to judge.
    pub cursor: nat,
    /// The idle handles of the worker's pattern pool.
    pub pool: Seq<PatternKey>,
}

/// What the one who runs a search does after a step.
pub enum Action {
    /// Hand this result on, then step again.
    Deliver(SearchResult),
    /// Step again.
    Continue,
    /// The search has ended.
    Stop,
}

/// The mathematical value of an [`Action`].
pub enum ActionModel {
    Deliver(ResultModel),
    Continue,
    Stop,
}

impl View for Action {
    type V = ActionModel;

    open spec fn view(&self) -> ActionModel {
        match self {
            Action::Deliver(r) => ActionModel::Deliver(r@),
            Action::Continue => ActionModel::Continue,
            Action::Stop => ActionModel::Stop,
        }
    }
}

/// The state in which a search of `query` starts: `Created`, or `Completed`
/// at once where the index holds no entries.
pub open spec fn initial_worker(query: Seq<char>, has_entries: bool) -> WorkerState {
    WorkerState {
        phase: if has_entries {
            SearchPhase::Created
        } else {
            SearchPhase::Completed
        },
        query,
        plan: None,
        cursor: 0,
        pool: Seq::empty(),
    }
}

/// One step of a search over `entries`.
///
/// A search that has ended stays as it is. A search that learns of its
/// cancellation ends as `Cancelled`, whatever its stage. Else it moves from
/// `Created` to `Parsing`, from there to `Compiled` or `FallbackLiteral` with
/// its plan, from there to `Running`, and then judges one entry with each
/// step, in the order of the index, until it is `Completed`.
pub open spec fn step_spec(s: WorkerState, cancelled: bool, entries: Seq<EntryModel>) -> (
    WorkerState,
    ActionModel,
) {
    if is_terminal(s.phase) {
        (s, ActionModel::Stop)
    } else if cancelled {
        (WorkerState { phase: SearchPhase::Cancelled, ..s }, ActionModel::Stop)
    } else {
        match s.phase {
            SearchPhase::Created => (
                WorkerState { phase: SearchPhase::Parsing, ..s },
                ActionModel::Continue,
            ),
            SearchPhase::Parsing => (
                WorkerState {
                    phase: if plan_spec(s.query) is Compiled {
                        SearchPhase::Compiled
                    } else {
                        SearchPhase::FallbackLiteral
                    },
                    plan: Some(plan_spec(s.query)),
                    pool: pool_after_plan(s.query, s.pool),
                    ..s
                },
                ActionModel::Continue,
            ),
            SearchPhase::Compiled | SearchPhase::FallbackLiteral => (
                WorkerState { phase: SearchPhase::Running, cursor: 0, ..s },
                ActionModel::Continue,
            ),
            _ => match s.plan {
                Some(plan) if s.cursor < entries.len() => (
                    WorkerState { cursor: s.cursor + 1, ..s },
                    match entry_result(plan, entries[s.cursor as int]) {
                        Some(r) => ActionModel::Deliver(r),
                        None => ActionModel::Continue,
                    },
                ),
                _ => (WorkerState { phase: SearchPhase::Completed, ..s }, ActionModel::Stop),
            },
        }
    }
}

/// A search that has ended stays as it is and delivers nothing more.
pub proof fn lemma_ended_search_stays(s: WorkerState, cancelled: bool, entries: Seq<EntryModel>)
    requires
        is_terminal(s.phase),
    ensures
        step_spec(s, cancelled, entries) == (s, ActionModel::Stop),
{
}

/// Cancellation ends a search for good: the step that learns of it ends the
/// search without a delivery, and no later step delivers anything, whatever
/// it is told and whatever the entries are.
pub proof fn lemma_no_delivery_after_cancel(
    s: WorkerState,
    entries: Seq<EntryModel>,
    later_cancelled: bool,
    later_entries: Seq<EntryModel>,
)
    ensures
        step_spec(s, true, entries).1 == ActionModel::Stop,
        is_terminal(step_spec(s, true, entries).0.phase),
        step_spec(step_spec(s, true, entries).0, later_cancelled, later_entries) == (
            step_spec(s, true, entries).0,
            ActionModel::Stop,
        ),
{
}

/// Entries are judged in the order of the index: a step of a running search
/// that delivers, delivers the result of the entry at its cursor, and moves
/// the cursor on by one.
pub proof fn lemma_delivery_is_of_current_entry(s: WorkerState, entries: Seq<EntryModel>)
    ensures
        step_spec(s, false, entries).1 matches ActionModel::Deliver(r) ==> {
            &&& s.phase == SearchPhase::Running
            &&& s.plan is Some
            &&& s.cursor < entries.len()
            &&& entry_result(s.plan->0, entries[s.cursor as int]) == Some(r)
            &&& step_spec(s, false, entries).0.cursor == s.cursor + 1
        },
{
}

/// The state of one search.
pub struct Worker {
    phase: SearchPhase,
    query: String,
    plan: Option<QueryPlan>,
    cursor: usize,
    matcher: QueryMatcher,
}

/// The value of an optional plan.
pub open spec fn plan_model(p: Option<QueryPlan>) -> Option<PlanModel> {
    match p {
        Some(x) => Some(x@),
        None => None,
    }
}

impl View for Worker {
    type V = WorkerState;

    closed spec fn view(&self) -> WorkerState {
        WorkerState {
            phase: self.phase,
            query: self.query@,
            plan: plan_model(self.plan),
            cursor: self.cursor as nat,
            pool: self.matcher@,
        }
    }
}

impl Worker {
    /// The worker for a search of `query`, with a pattern pool of its own.
    pub fn new(query: &str, has_entries: bool) -> (r: Worker)
        ensures
            r@ == initial_worker(query@, has_entries),
    {
        Worker {
            phase: if has_entries {
                SearchPhase::Created
            } else {
                SearchPhase::Completed
            },
            query: String::from_str(query),
            plan: None,
            cursor: 0,
            matcher: QueryMatcher::new(PatternPool::new()),
        }
    }

    /// The stage of the search.
    pub fn phase(&self) -> (r: SearchPhase)
        ensures
            r == self@.phase,
    {
        self.phase
    }

    /// Whether the search has ended.
    pub fn is_finished(&self) -> (r: bool)
        ensures
            r == is_terminal(self@.phase),
    {
        match self.phase {
            SearchPhase::Completed => true,
            SearchPhase::Cancelled => true,
            _ => false,
        }
    }

    /// Takes one step of the search over `entries`. `cancelled` says whether
    /// the search has been cancelled.
    pub fn step(&mut self, cancelled: bool, entries: &Vec<Entry>) -> (r: Action)
        ensures
            (final(self)@, r@) == step_spec(old(self)@, cancelled, entries_model(entries@)),
    {
        if self.is_finished() {
            return Action::Stop;
        }
        if cancelled {
            self.phase = SearchPhase::Cancelled;
            return Action::Stop;
        }
        match self.phase {
            SearchPhase::Created => {
                self.phase = SearchPhase::Parsing;
                Action::Continue
            },
            SearchPhase::Parsing => {
                let plan = plan_query(&mut self.matcher, self.query.as_str());
                self.phase = match plan {
                    QueryPlan::Compiled(_) => SearchPhase::Compiled,
                    _ => SearchPhase::FallbackLiteral,
                };
                self.plan = Some(plan);
                Action::Continue
            },
            SearchPhase::Compiled | SearchPhase::FallbackLiteral => {
                self.phase = SearchPhase::Running;
                self.cursor = 0;
                Action::Continue
            },
            _ => {
                if self.cursor < entries.len() {
                    let found = match &self.plan {
                        Some(plan) => evaluate_entry(&self.matcher, plan, &entries[self.cursor]),
                        None => {
                            self.phase = SearchPhase::Completed;
                            return Action::Stop;
                        },
                    };
                    assert(entries_model(entries@)[self.cursor as int] == entries[
                        self.cursor as int
                    ]@);
                    self.cursor = self.cursor + 1;
                    match found {
                        Some(r) => Action::Deliver(r),
                        None => Action::Continue,
                    }
                } else {
                    self.phase = SearchPhase::Completed;
                    Action::Stop
                }
            },
        }
    }
}

/// The results of a whole search of `query` over `entries` that is never
/// cancelled: those of the entries that match, in the order of the index.
pub open spec fn all_results(plan: PlanModel, entries: Seq<EntryModel>) -> Seq<ResultModel>
    decreases entries.len(),
{
    if entries.len() == 0 {
        Seq::empty()
    } else {
        match entry_result(plan, entries.last()) {
            Some(r) => all_results(plan, entries.drop_last()).push(r),
            None => all_results(plan, entries.drop_last()),
        }
    }
}

/// The state of a search after `steps` steps without cancellation, and the
/// results delivered on the way, in the order of their delivery.
pub open spec fn run_spec(s: WorkerState, entries: Seq<EntryModel>, steps: nat) -> (
    WorkerState,
    Seq<ResultModel>,
)
    decreases steps,
{
    if steps == 0 {
        (s, Seq::empty())
    } else {
        let (before, found) = run_spec(s, entries, (steps - 1) as nat);
        let (after, action) = step_spec(before, false, entries);
        (
            after,
            match action {
                ActionModel::Deliver(r) => found.push(r),
                _ => found,
            },
        )
    }
}

proof fn lemma_run_in_two_parts(s: WorkerState, entries: Seq<EntryModel>, a: nat, b: nat)
    ensures
        run_spec(s, entries, a + b).0 == run_spec(run_spec(s, entries, a).0, entries, b).0,
        run_spec(s, entries, a + b).1 == run_spec(s, entries, a).1 + run_spec(
            run_spec(s, entries, a).0,
            entries,
            b,
        ).1,
    decreases b,
{
    let (mid, first) = run_spec(s, entries, a);
    if b == 0 {
        assert(first + Seq::<ResultModel>::empty() =~= first);
    } else {
        lemma_run_in_two_parts(s, entries, a, (b - 1) as nat);
        let (before, found) = run_spec(mid, entries, (b - 1) as nat);
        let (after, action) = step_spec(before, false, entries);
        match action {
            ActionModel::Deliver(r) => {
                assert((first + found).push(r) =~= first + found.push(r));
            },
            _ => {},
        }
    }
}

proof fn lemma_running_judges_in_order(s: WorkerState, entries: Seq<EntryModel>, j: nat)
    requires
        s.phase == SearchPhase::Running,
        s.plan is Some,
        s.cursor + j <= entries.len(),
    ensures
        run_spec(s, entries, j).0 == (WorkerState { cursor: (s.cursor + j) as nat, ..s }),
        run_spec(s, entries, j).1 == all_results(
            s.plan->0,
            entries.subrange(s.cursor as int, (s.cursor + j) as int),
        ),
    decreases j,
{
    if j == 0 {
        assert(entries.subrange(s.cursor as int, s.cursor as int) =~= Seq::<EntryModel>::empty());
    } else {
        lemma_running_judges_in_order(s, entries, (j - 1) as nat);
        let part = entries.subrange(s.cursor as int, (s.cursor + j) as int);
        assert(part.drop_last() =~= entries.subrange(s.cursor as int, s.cursor + j - 1));
        assert(part.last() == entries[s.cursor + j - 1]);
    }
}

/// A search that is not cancelled delivers the results of exactly the
/// entries that match, each once, in the order of the index, and then is
/// `Completed`: three steps to plan the query, one for each entry, and one to
/// find the end.
pub proof fn lemma_search_delivers_all_matches(query: Seq<char>, entries: Seq<EntryModel>)
    requires
        entries.len() > 0,
    ensures
        run_spec(initial_worker(query, true), entries, entries.len() + 4).1 == all_results(
            plan_spec(query),
            entries,
        ),
        run_spec(initial_worker(query, true), entries, entries.len() + 4).0.phase
            == SearchPhase::Completed,
{
    let start = initial_worker(query, true);
    let n = entries.len();
    reveal_with_fuel(run_spec, 4);
    let (ready, none) = run_spec(start, entries, 3);
    assert(none =~= Seq::<ResultModel>::empty());
    assert(ready.phase == SearchPhase::Running && ready.cursor == 0);
    assert(ready.plan == Some(plan_spec(query)));
    lemma_running_judges_in_order(ready, entries, n);
    assert(entries.subrange(0, n as int) =~= entries);
    lemma_run_in_two_parts(start, entries, 3, n);
    let (judged, found) = run_spec(start, entries, 3 + n);
    assert(found =~= all_results(plan_spec(query), entries));
    lemma_run_in_two_parts(start, entries, 3 + n, 1);
    assert(run_spec(judged, entries, 1).1 =~= Seq::<ResultModel>::empty());
    assert(found + Seq::<ResultModel>::empty() =~= found);
}

/// Runs a whole search of `query` over `entries`.
pub fn search_entries(query: &str, entries: &Vec<Entry>) -> (out: Vec<SearchResult>)
    ensures
        results_model(out@) == all_results(plan_spec(query@), entries_model(entries@)),
{
    let mut matcher = QueryMatcher::new(PatternPool::new());
    let plan = plan_query(&mut matcher, query);
    let ghost models = entries_model(entries@);
    let mut out: Vec<SearchResult> = Vec::new();
    let mut i: usize = 0;
    assert(models.take(0) =~= Seq::<EntryModel>::empty());
    assert(results_model(out@) =~= all_results(plan@, models.take(0)));
    while i < entries.len()
        invariant
            i <= entries.len(),
            models == entries_model(entries@),
            results_model(out@) == all_results(plan@, models.take(i as int)),
        decreases entries.len() - i,
    {
        proof {
            assert(models.take(i + 1).drop_last() =~= models.take(i as int));
            assert(models.take(i + 1).last() == entries[i as int]@);
        }
        let ghost before = out@;
        match evaluate_entry(&matcher, &plan, &entries[i]) {
            Some(r) => {
                out.push(r);
                assert(results_model(out@) =~= results_model(before).push(r@));
            },
            None => {},
        }
        i = i + 1;
    }
    assert(models.take(i as int) =~= models);
    out
}

/// The entries of an index as results without highlights.
pub open spec fn listed(entries: Seq<EntryModel>) -> Seq<ResultModel> {
    Seq::new(entries.len(), |i: int| result_of(entries[i], Seq::empty()))
}

/// Lists the entries of an index.
pub fn index_list_entries(index: &Index) -> (out: Vec<SearchResult>)
    ensures
        results_model(out@) == listed(index@.entries),
{
    let entries = index.entries();
    let mut out: Vec<SearchResult> = Vec::new();
    let mut i: usize = 0;
    while i < entries.len()
        invariant
            i <= entries.len(),
            out.len() == i,
            forall|k: int|
                0 <= k < i ==> (#[trigger] out[k])@ == result_of(entries[k]@, Seq::empty()),
        decreases entries.len() - i,
    {
        out.push(record(&entries[i], String::new()));
        i = i + 1;
    }
    assert(results_model(out@) =~= listed(entries_model(entries@)));
    out
}

} // verus!
