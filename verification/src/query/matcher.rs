//! Compiled queries and their evaluation.
//!
//! [`QueryMatcher::compile`] lowers a syntax tree into a [`CompiledNode`]
//! whose leaves hold pooled patterns. [`QueryMatcher::is_match`] evaluates a
//! compiled query against a text, [`QueryMatcher::captures`] yields the byte
//! ranges that its patterns capture, and [`QueryMatcher::captures_meta`]
//! attributes normalized ranges to fields.
//!
//! The text that a search hands in is `name + "\n" + path`. A leaf on the
//! field `extension` looks at what stands behind the last dot of the name
//! only.

use crate::pattern::{
    key_found, key_groups, pcre2_accepts, ranges_within, share_pattern, CompileError, Engine,
    Pattern, PatternKey,
};
use crate::pool::{without_first, PatternPool};
use crate::query::ast::{copy_strings, texts, Bound, BoundModel, CompareOp, Node, NodeModel};
use crate::query::pattern_text::{
    any_negation, build_pattern_for_literal, build_pattern_for_regex, build_pattern_for_term,
    expression_pattern, literal_pattern, term_pattern, wants_negation,
};
use crate::query::values::{
    compare_matches, compare_text, function_matches, function_text, is_contains_function,
    is_contains_name, range_matches, range_text,
};
use crate::ranges::{
    lemma_normalized_is_normal_form, lemma_normalized_within, normalize_ranges, normalized,
    separated, well_formed,
};
use crate::text::same_text;
use std::sync::Arc;
use vstd::prelude::*;
use vstd::slice::slice_subrange;
use vstd::string::StringExecFns;

verus! {

/// A compiled query.
#[allow(inconsistent_fields)]
pub enum CompiledNode {
    /// A pattern, the field it is scoped to, and the modifiers it was built
    /// under. Where `negated` holds, the leaf matches where the pattern does
    /// not.
    Leaf { pat: Arc<Pattern>, negated: bool, field: Option<String>, mods: Vec<String> },
    Compare { field: Option<String>, op: CompareOp, value: String },
    Range { field: Option<String>, low: Bound, high: Bound },
    /// A function call as written, and the pattern of its first argument
    /// where the function tests for a substring.
    Function { name: String, args: Vec<String>, pat: Option<Arc<Pattern>> },
    And(Box<CompiledNode>, Box<CompiledNode>),
    Or(Box<CompiledNode>, Box<CompiledNode>),
    Not(Box<CompiledNode>),
}

/// The mathematical value of a [`CompiledNode`].
#[allow(inconsistent_fields)]
pub enum CompiledModel {
    Leaf { pat: PatternKey, negated: bool, field: Option<Seq<char>>, mods: Seq<Seq<char>> },
    Compare { field: Option<Seq<char>>, op: CompareOp, value: Seq<char> },
    Range { field: Option<Seq<char>>, low: BoundModel, high: BoundModel },
    Function { name: Seq<char>, args: Seq<Seq<char>>, pat: Option<PatternKey> },
    And(Box<CompiledModel>, Box<CompiledModel>),
    Or(Box<CompiledModel>, Box<CompiledModel>),
    Not(Box<CompiledModel>),
}

/// The value of an optional string.
pub open spec fn field_model(f: Option<String>) -> Option<Seq<char>> {
    match f {
        Some(s) => Some(s@),
        None => None,
    }
}

/// The value of an optional pattern handle.
pub open spec fn handle_model(p: Option<Arc<Pattern>>) -> Option<PatternKey> {
    match p {
        Some(h) => Some(h@),
        None => None,
    }
}

/// The value of a compiled query.
pub open spec fn compiled_model(n: CompiledNode) -> CompiledModel
    decreases n,
{
    match n {
        CompiledNode::Leaf { pat, negated, field, mods } => CompiledModel::Leaf {
            pat: pat@,
            negated,
            field: field_model(field),
            mods: texts(mods@),
        },
        CompiledNode::Compare { field, op, value } => CompiledModel::Compare {
            field: field_model(field),
            op,
            value: value@,
        },
        CompiledNode::Range { field, low, high } => CompiledModel::Range {
            field: field_model(field),
            low: low@,
            high: high@,
        },
        CompiledNode::Function { name, args, pat } => CompiledModel::Function {
            name: name@,
            args: texts(args@),
            pat: handle_model(pat),
        },
        CompiledNode::And(a, b) => CompiledModel::And(
            Box::new(compiled_model(*a)),
            Box::new(compiled_model(*b)),
        ),
        CompiledNode::Or(a, b) => CompiledModel::Or(
            Box::new(compiled_model(*a)),
            Box::new(compiled_model(*b)),
        ),
        CompiledNode::Not(a) => CompiledModel::Not(Box::new(compiled_model(*a))),
    }
}

impl View for CompiledNode {
    type V = CompiledModel;

    open spec fn view(&self) -> CompiledModel {
        compiled_model(*self)
    }
}

/// A copy of a compiled query. The copy shares its patterns with `n`.
pub fn copy_compiled(n: &CompiledNode) -> (r: CompiledNode)
    ensures
        r@ == n@,
    decreases *n,
{
    match n {
        CompiledNode::Leaf { pat, negated, field, mods } => CompiledNode::Leaf {
            pat: share_pattern(pat),
            negated: *negated,
            field: copy_field(field),
            mods: copy_strings(mods),
        },
        CompiledNode::Compare { field, op, value } => CompiledNode::Compare {
            field: copy_field(field),
            op: *op,
            value: value.clone(),
        },
        CompiledNode::Range { field, low, high } => CompiledNode::Range {
            field: copy_field(field),
            low: low.clone(),
            high: high.clone(),
        },
        CompiledNode::Function { name, args, pat } => CompiledNode::Function {
            name: name.clone(),
            args: copy_strings(args),
            pat: match pat {
                Some(p) => Some(share_pattern(p)),
                None => None,
            },
        },
        CompiledNode::And(a, b) => CompiledNode::And(
            Box::new(copy_compiled(a)),
            Box::new(copy_compiled(b)),
        ),
        CompiledNode::Or(a, b) => CompiledNode::Or(
            Box::new(copy_compiled(a)),
            Box::new(copy_compiled(b)),
        ),
        CompiledNode::Not(a) => CompiledNode::Not(Box::new(copy_compiled(a))),
    }
}

impl Clone for CompiledNode {
    fn clone(&self) -> (r: CompiledNode)
        ensures
            r@ == self@,
    {
        copy_compiled(self)
    }
}

/// The PCRE2 pattern of a pattern text.
pub open spec fn pcre2_key(text: Seq<char>) -> PatternKey {
    PatternKey { engine: Engine::Pcre2, text }
}

/// The leaf for a pattern text, or the error where PCRE2 rejects the text.
pub open spec fn compile_leaf(
    text: Seq<char>,
    negated: bool,
    field: Option<Seq<char>>,
    mods: Seq<Seq<char>>,
) -> Result<CompiledModel, CompileError> {
    if pcre2_accepts(text) {
        Ok(CompiledModel::Leaf { pat: pcre2_key(text), negated, field, mods })
    } else {
        Err(CompileError::InvalidPattern)
    }
}

/// The pattern text of a term under modifiers, for the nodes that are terms:
/// words, regular expressions and fields.
pub open spec fn leaf_text(n: NodeModel, mods: Seq<Seq<char>>) -> Option<Seq<char>> {
    match n {
        NodeModel::Word(s) => Some(literal_pattern(s, mods)),
        NodeModel::Regex(p) => Some(expression_pattern(p, mods)),
        NodeModel::Field(_, term) => Some(term_pattern(term, mods)),
        _ => None,
    }
}

/// The field that a term is scoped to.
pub open spec fn leaf_field(n: NodeModel) -> Option<Seq<char>> {
    match n {
        NodeModel::Field(name, _) => Some(name),
        _ => None,
    }
}

/// The pattern text of the first argument of a function that tests for a
/// substring.
pub open spec fn function_text_of(name: Seq<char>, args: Seq<Seq<char>>) -> Option<Seq<char>> {
    if is_contains_function(name) && args.len() > 0 {
        Some(literal_pattern(args[0], Seq::empty()))
    } else {
        None
    }
}

/// What a syntax tree compiles to.
///
/// A term becomes a leaf with the pattern of [`leaf_text`]; modifiers fold
/// into the pattern of the term they stand on and set the leaf's negation,
/// and are an error on any other node. Comparisons, ranges and functions
/// are kept as they are. Groups are transparent. The first term that PCRE2
/// rejects, from left to right, fails the whole.
pub open spec fn compile_spec(n: NodeModel) -> Result<CompiledModel, CompileError>
    decreases n,
{
    match n {
        NodeModel::Word(_) | NodeModel::Regex(_) | NodeModel::Field(_, _) => compile_leaf(
            leaf_text(n, Seq::empty())->0,
            false,
            leaf_field(n),
            Seq::empty(),
        ),
        NodeModel::Modified(inner, mods) => match leaf_text(*inner, mods) {
            Some(text) => compile_leaf(text, wants_negation(mods), leaf_field(*inner), mods),
            None => Err(CompileError::UnsupportedModifier),
        },
        NodeModel::Compare(field, op, value) => Ok(
            CompiledModel::Compare { field: Some(field), op, value },
        ),
        NodeModel::Range(field, low, high) => Ok(
            CompiledModel::Range { field: Some(field), low, high },
        ),
        NodeModel::Function(name, args) => Ok(
            CompiledModel::Function {
                name,
                args,
                pat: match function_text_of(name, args) {
                    Some(text) if pcre2_accepts(text) => Some(pcre2_key(text)),
                    _ => None,
                },
            },
        ),
        NodeModel::Not(a) => match compile_spec(*a) {
            Ok(c) => Ok(CompiledModel::Not(Box::new(c))),
            Err(e) => Err(e),
        },
        NodeModel::And(a, b) => match compile_spec(*a) {
            Ok(ca) => match compile_spec(*b) {
                Ok(cb) => Ok(CompiledModel::And(Box::new(ca), Box::new(cb))),
                Err(e) => Err(e),
            },
            Err(e) => Err(e),
        },
        NodeModel::Or(a, b) => match compile_spec(*a) {
            Ok(ca) => match compile_spec(*b) {
                Ok(cb) => Ok(CompiledModel::Or(Box::new(ca), Box::new(cb))),
                Err(e) => Err(e),
            },
            Err(e) => Err(e),
        },
        NodeModel::Group(a) => compile_spec(*a),
    }
}

/// The idle handles of the pool once a syntax tree is compiled: each
/// pattern that the compilation asks for takes the oldest idle handle of its
/// key with it.
pub open spec fn pool_after_compile(n: NodeModel, idle: Seq<PatternKey>) -> Seq<PatternKey>
    decreases n,
{
    match n {
        NodeModel::Word(_) | NodeModel::Regex(_) | NodeModel::Field(_, _) => without_first(
            idle,
            pcre2_key(leaf_text(n, Seq::empty())->0),
        ),
        NodeModel::Modified(inner, mods) => match leaf_text(*inner, mods) {
            Some(text) => without_first(idle, pcre2_key(text)),
            None => idle,
        },
        NodeModel::Compare(_, _, _) | NodeModel::Range(_, _, _) => idle,
        NodeModel::Function(name, args) => match function_text_of(name, args) {
            Some(text) => without_first(idle, pcre2_key(text)),
            None => idle,
        },
        NodeModel::Not(a) | NodeModel::Group(a) => pool_after_compile(*a, idle),
        NodeModel::And(a, b) | NodeModel::Or(a, b) => if compile_spec(*a) is Ok {
            pool_after_compile(*b, pool_after_compile(*a, idle))
        } else {
            pool_after_compile(*a, idle)
        },
    }
}

/// The position of the first line feed at or after `i`, or the length of
/// the text.
pub open spec fn first_newline(text: Seq<u8>, i: int) -> int
    decreases text.len() - i,
{
    if 0 <= i < text.len() && text[i] != 10 {
        first_newline(text, i + 1)
    } else {
        i
    }
}

/// The position behind the last dot of `text[..j]`, or 0 where it holds no
/// dot.
pub open spec fn after_last_dot(text: Seq<u8>, j: int) -> int
    decreases j,
{
    if 0 < j <= text.len() && text[j - 1] != 46 {
        after_last_dot(text, j - 1)
    } else {
        j
    }
}

/// Where the extension of the name stands in a text of the form
/// `name + "\n" + path`: behind the last dot of the name, up to the end of
/// the name. `None` where the name holds no dot.
pub open spec fn extension_span(text: Seq<u8>) -> Option<(int, int)> {
    let end = first_newline(text, 0);
    let start = after_last_dot(text, end);
    if start > 0 {
        Some((start, end))
    } else {
        None
    }
}

/// The field `extension`.
pub open spec fn is_extension_field(field: Option<Seq<char>>) -> bool {
    field == Some("extension"@)
}

/// The part of the text that a leaf looks at: the extension of the name for
/// the field `extension`, else the whole text.
pub open spec fn leaf_span(field: Option<Seq<char>>, text: Seq<u8>) -> Option<(int, int)> {
    if is_extension_field(field) {
        extension_span(text)
    } else {
        Some((0, text.len() as int))
    }
}

/// Whether a pattern is found in the part of the text that a leaf on
/// `field` looks at. Without such a part nothing is found.
pub open spec fn leaf_found(pat: PatternKey, field: Option<Seq<char>>, text: Seq<u8>) -> bool {
    match leaf_span(field, text) {
        Some((a, b)) => key_found(pat, text.subrange(a, b)),
        None => false,
    }
}

/// Whether a compiled query matches a text.
pub open spec fn eval(m: CompiledModel, text: Seq<u8>) -> bool
    decreases m,
{
    match m {
        CompiledModel::Leaf { pat, negated, field, mods } => negated != leaf_found(
            pat,
            field,
            text,
        ),
        CompiledModel::Compare { field, op, value } => compare_matches(op, value, text),
        CompiledModel::Range { field, low, high } => range_matches(low, high, text),
        CompiledModel::Function { name, args, pat } => function_matches(name, args, text),
        CompiledModel::Not(a) => !eval(*a, text),
        CompiledModel::And(a, b) => eval(*a, text) && eval(*b, text),
        CompiledModel::Or(a, b) => eval(*a, text) || eval(*b, text),
    }
}

/// The ranges moved up by `off`.
pub open spec fn shifted(rs: Seq<(usize, usize)>, off: int) -> Seq<(usize, usize)> {
    Seq::new(rs.len(), |i: int| ((rs[i].0 + off) as usize, (rs[i].1 + off) as usize))
}

/// The ranges that a pattern captures in the part of the text that a leaf
/// on `field` looks at, as positions in the whole text.
pub open spec fn leaf_captures(pat: PatternKey, field: Option<Seq<char>>, text: Seq<u8>) -> Seq<
    (usize, usize),
> {
    match leaf_span(field, text) {
        Some((a, b)) => match key_groups(pat, text.subrange(a, b)) {
            Some(rs) => shifted(rs, a),
            None => Seq::empty(),
        },
        None => Seq::empty(),
    }
}

/// The ranges that a function captures in a text: those of the pattern of
/// its first argument, where the function tests for a substring, has an
/// argument, and holds the pattern of that argument; none else.
pub open spec fn function_captures(
    name: Seq<char>,
    args: Seq<Seq<char>>,
    pat: Option<PatternKey>,
    text: Seq<u8>,
) -> Seq<(usize, usize)> {
    match (function_text_of(name, args), pat) {
        (Some(pattern), Some(key)) if key == pcre2_key(pattern) => match key_groups(key, text) {
            Some(rs) => rs,
            None => Seq::empty(),
        },
        _ => Seq::empty(),
    }
}

/// The byte ranges that a compiled query captures in a text: those of its
/// pattern for a leaf or a function, none for a comparison or a range, those
/// of both sides for a conjunction, and those of the first side that has any
/// for a disjunction.
pub open spec fn captures_spec(m: CompiledModel, text: Seq<u8>) -> Seq<(usize, usize)>
    decreases m,
{
    match m {
        CompiledModel::Leaf { pat, negated, field, mods } => leaf_captures(pat, field, text),
        CompiledModel::Compare { field, op, value } => Seq::empty(),
        CompiledModel::Range { field, low, high } => Seq::empty(),
        CompiledModel::Function { name, args, pat } => function_captures(name, args, pat, text),
        CompiledModel::Not(a) => captures_spec(*a, text),
        CompiledModel::And(a, b) => captures_spec(*a, text) + captures_spec(*b, text),
        CompiledModel::Or(a, b) => if captures_spec(*a, text).len() > 0 {
            captures_spec(*a, text)
        } else {
            captures_spec(*b, text)
        },
    }
}

/// Metadata about a match: a field, and the ranges to highlight in it.
#[derive(Debug, Clone, PartialEq, Eq)]
pub struct MatchMeta {
    pub field: Option<String>,
    pub ranges: Vec<(usize, usize)>,
}

/// The mathematical value of a [`MatchMeta`].
pub struct MetaModel {
    pub field: Option<Seq<char>>,
    pub ranges: Seq<(usize, usize)>,
}

impl View for MatchMeta {
    type V = MetaModel;

    open spec fn view(&self) -> MetaModel {
        MetaModel { field: field_model(self.field), ranges: self.ranges@ }
    }
}

/// The values of a list of metadata.
pub open spec fn metas_model(v: Seq<MatchMeta>) -> Seq<MetaModel> {
    Seq::new(v.len(), |i: int| v[i]@)
}

/// The first field that stands in a compiled query, from left to right.
pub open spec fn first_field(m: CompiledModel) -> Option<Seq<char>>
    decreases m,
{
    match m {
        CompiledModel::Leaf { pat, negated, field, mods } => field,
        CompiledModel::Compare { field, op, value } => field,
        CompiledModel::Range { field, low, high } => field,
        CompiledModel::Function { name, args, pat } => None,
        CompiledModel::Not(a) => first_field(*a),
        CompiledModel::And(a, b) | CompiledModel::Or(a, b) => match first_field(*a) {
            Some(f) => Some(f),
            None => first_field(*b),
        },
    }
}

/// One entry with its ranges normalized, under `field` where it has no
/// field of its own.
pub open spec fn inherit_one(m: MetaModel, field: Option<Seq<char>>) -> MetaModel {
    MetaModel {
        field: if m.field is None {
            field
        } else {
            m.field
        },
        ranges: normalized(m.ranges),
    }
}

/// Each entry with its ranges normalized, under `field` where it has no
/// field of its own.
pub open spec fn inherit(ms: Seq<MetaModel>, field: Option<Seq<char>>) -> Seq<MetaModel> {
    Seq::new(ms.len(), |i: int| inherit_one(ms[i], field))
}

/// The metadata of a leaf or a function whose normalized ranges are `rs`:
/// nothing without ranges; for the field `extension` one entry for the
/// name, with the ranges, and one for the extension, without; else one entry
/// for the field.
pub open spec fn leaf_metas(field: Option<Seq<char>>, rs: Seq<(usize, usize)>) -> Seq<MetaModel> {
    if rs.len() == 0 {
        Seq::empty()
    } else if is_extension_field(field) {
        seq![
            MetaModel { field: Some("name"@), ranges: rs },
            MetaModel { field: Some("extension"@), ranges: Seq::empty() },
        ]
    } else {
        seq![MetaModel { field, ranges: rs }]
    }
}

/// The metadata of a compiled query on a text: the normalized ranges of a
/// leaf or a function under its field, a bare entry for a comparison or a
/// range, nothing for a negation, the entries of both sides for a
/// conjunction, and those of the first side that has any for a disjunction.
/// Under a conjunction or a disjunction an entry without a field takes the
/// first field of the whole subtree.
pub open spec fn metas_spec(m: CompiledModel, text: Seq<u8>) -> Seq<MetaModel>
    decreases m,
{
    match m {
        CompiledModel::Leaf { pat, negated, field, mods } => leaf_metas(
            field,
            normalized(captures_spec(m, text)),
        ),
        CompiledModel::Compare { field, op, value } => seq![
            MetaModel { field, ranges: Seq::empty() },
        ],
        CompiledModel::Range { field, low, high } => seq![
            MetaModel { field, ranges: Seq::empty() },
        ],
        CompiledModel::Function { name, args, pat } => leaf_metas(
            None,
            normalized(captures_spec(m, text)),
        ),
        CompiledModel::Not(a) => Seq::empty(),
        CompiledModel::And(a, b) => inherit(
            metas_spec(*a, text) + metas_spec(*b, text),
            first_field(m),
        ),
        CompiledModel::Or(a, b) => inherit(
            if metas_spec(*a, text).len() > 0 {
                metas_spec(*a, text)
            } else {
                metas_spec(*b, text)
            },
            first_field(m),
        ),
    }
}

/// Under a conjunction or a disjunction no entry stays without a field
/// while the subtree holds one: an entry without a field means that no field
/// stands anywhere in the subtree.
pub proof fn lemma_entries_inherit_first_field(m: CompiledModel, text: Seq<u8>)
    requires
        m is And || m is Or,
    ensures
        forall|i: int|
            0 <= i < metas_spec(m, text).len() && (#[trigger] metas_spec(m, text)[i]).field is None
                ==> first_field(m) is None,
{
}

/// Every range of every entry lies within a text of `len` bytes.
pub open spec fn metas_within(ms: Seq<MetaModel>, len: nat) -> bool {
    forall|i: int| 0 <= i < ms.len() ==> ranges_within((#[trigger] ms[i]).ranges, len)
}

/// The value of the result of a compilation.
pub open spec fn compiled_result(r: Result<CompiledNode, CompileError>) -> Result<
    CompiledModel,
    CompileError,
> {
    match r {
        Ok(c) => Ok(c@),
        Err(e) => Err(e),
    }
}

proof fn lemma_first_newline_bounds(text: Seq<u8>, i: int)
    requires
        0 <= i <= text.len(),
    ensures
        i <= first_newline(text, i) <= text.len(),
    decreases text.len() - i,
{
    if i < text.len() && text[i] != 10 {
        lemma_first_newline_bounds(text, i + 1);
    }
}

proof fn lemma_after_last_dot_bounds(text: Seq<u8>, j: int)
    requires
        0 <= j <= text.len(),
    ensures
        0 <= after_last_dot(text, j) <= j,
    decreases j,
{
    if 0 < j && text[j - 1] != 46 {
        lemma_after_last_dot_bounds(text, j - 1);
    }
}

/// The part of a text that a leaf looks at lies within the text.
pub proof fn lemma_leaf_span_bounds(field: Option<Seq<char>>, text: Seq<u8>)
    ensures
        leaf_span(field, text) matches Some((a, b)) ==> 0 <= a <= b <= text.len(),
{
    lemma_first_newline_bounds(text, 0);
    lemma_after_last_dot_bounds(text, first_newline(text, 0));
}

/// Capture ranges always lie within the text: whatever the compiled query
/// and the text, every range that [`captures_spec`] yields starts no later
/// than it ends and ends within the text.
pub proof fn lemma_captures_within(m: CompiledModel, text: Seq<u8>)
    requires
        text.len() <= usize::MAX,
    ensures
        ranges_within(captures_spec(m, text), text.len()),
    decreases m,
{
    match m {
        CompiledModel::Leaf { pat, negated, field, mods } => {
            lemma_leaf_span_bounds(field, text);
            match leaf_span(field, text) {
                Some((a, b)) => {
                    let sub = text.subrange(a, b);
                    match key_groups(pat, sub) {
                        Some(rs) => {
                            assert(ranges_within(rs, sub.len()));
                            let out = shifted(rs, a);
                            assert forall|i: int| 0 <= i < out.len() implies (#[trigger] out[i]).0
                                <= out[i].1 <= text.len() by {
                                assert(rs[i].0 <= rs[i].1 <= sub.len());
                            }
                        },
                        None => {},
                    }
                },
                None => {},
            }
        },
        CompiledModel::Compare { field, op, value } => {},
        CompiledModel::Range { field, low, high } => {},
        CompiledModel::Function { name, args, pat } => {},
        CompiledModel::Not(a) => {
            lemma_captures_within(*a, text);
        },
        CompiledModel::And(a, b) => {
            lemma_captures_within(*a, text);
            lemma_captures_within(*b, text);
        },
        CompiledModel::Or(a, b) => {
            lemma_captures_within(*a, text);
            lemma_captures_within(*b, text);
        },
    }
}

/// A leaf on the field `extension` captures within the extension of the
/// name only: every range lies between the last dot of the name and the end
/// of the name, so none reaches into the path.
pub proof fn lemma_extension_captures_lie_in_name(pat: PatternKey, text: Seq<u8>)
    requires
        text.len() <= usize::MAX,
    ensures
        ({
            let rs = leaf_captures(pat, Some("extension"@), text);
            match extension_span(text) {
                Some((a, b)) => {
                    &&& 0 < a <= b <= first_newline(text, 0) <= text.len()
                    &&& forall|i: int|
                        0 <= i < rs.len() ==> a <= (#[trigger] rs[i]).0 <= rs[i].1 <= b
                },
                None => rs.len() == 0,
            }
        }),
{
    let field = Some("extension"@);
    lemma_leaf_span_bounds(field, text);
    lemma_first_newline_bounds(text, 0);
    match extension_span(text) {
        Some((a, b)) => {
            let sub = text.subrange(a, b);
            match key_groups(pat, sub) {
                Some(groups) => {
                    assert(ranges_within(groups, sub.len()));
                    let rs = shifted(groups, a);
                    assert forall|i: int| 0 <= i < rs.len() implies a <= (#[trigger] rs[i]).0
                        <= rs[i].1 <= b by {
                        assert(groups[i].0 <= groups[i].1 <= sub.len());
                    }
                },
                None => {},
            }
        },
        None => {},
    }
}

/// The ranges of match metadata always lie within the text.
pub proof fn lemma_metas_within(m: CompiledModel, text: Seq<u8>)
    requires
        text.len() <= usize::MAX,
    ensures
        metas_within(metas_spec(m, text), text.len()),
    decreases m,
{
    lemma_captures_within(m, text);
    lemma_normalized_within(captures_spec(m, text), text.len());
    match m {
        CompiledModel::And(a, b) => {
            lemma_metas_within(*a, text);
            lemma_metas_within(*b, text);
            let joined = metas_spec(*a, text) + metas_spec(*b, text);
            assert forall|i: int| 0 <= i < joined.len() implies ranges_within(
                normalized((#[trigger] joined[i]).ranges),
                text.len(),
            ) by {
                if i < metas_spec(*a, text).len() {
                    assert(joined[i] == metas_spec(*a, text)[i]);
                } else {
                    assert(joined[i] == metas_spec(*b, text)[i - metas_spec(*a, text).len()]);
                }
                lemma_normalized_within(joined[i].ranges, text.len());
            }
        },
        CompiledModel::Or(a, b) => {
            lemma_metas_within(*a, text);
            lemma_metas_within(*b, text);
            let chosen = if metas_spec(*a, text).len() > 0 {
                metas_spec(*a, text)
            } else {
                metas_spec(*b, text)
            };
            assert forall|i: int| 0 <= i < chosen.len() implies ranges_within(
                normalized((#[trigger] chosen[i]).ranges),
                text.len(),
            ) by {
                lemma_normalized_within(chosen[i].ranges, text.len());
            }
        },
        _ => {},
    }
}

/// The ranges of every entry are well formed, in ascending order, and
/// neither overlap nor touch.
pub open spec fn metas_normal(ms: Seq<MetaModel>) -> bool {
    forall|i: int|
        0 <= i < ms.len() ==> well_formed((#[trigger] ms[i]).ranges) && separated(ms[i].ranges)
}

proof fn lemma_normalized_is_normal(rs: Seq<(usize, usize)>, len: nat)
    requires
        ranges_within(rs, len),
    ensures
        well_formed(normalized(rs)),
        separated(normalized(rs)),
{
    assert(well_formed(rs)) by {
        assert forall|i: int| 0 <= i < rs.len() implies (#[trigger] rs[i]).0 <= rs[i].1 by {
            assert(rs[i].0 <= rs[i].1 <= len);
        }
    }
    lemma_normalized_is_normal_form(rs);
}

/// The ranges of match metadata are always sorted and never overlap: every
/// list of ranges that [`metas_spec`] yields is in normal form.
pub proof fn lemma_metas_are_normalized(m: CompiledModel, text: Seq<u8>)
    requires
        text.len() <= usize::MAX,
    ensures
        metas_normal(metas_spec(m, text)),
    decreases m,
{
    lemma_captures_within(m, text);
    lemma_normalized_is_normal(captures_spec(m, text), text.len());
    match m {
        CompiledModel::And(a, b) => {
            lemma_metas_within(*a, text);
            lemma_metas_within(*b, text);
            let first = metas_spec(*a, text);
            let second = metas_spec(*b, text);
            let joined = first + second;
            assert forall|i: int| 0 <= i < joined.len() implies well_formed(
                normalized((#[trigger] joined[i]).ranges),
            ) && separated(normalized(joined[i].ranges)) by {
                if i < first.len() {
                    assert(joined[i] == first[i]);
                } else {
                    assert(joined[i] == second[i - first.len()]);
                }
                lemma_normalized_is_normal(joined[i].ranges, text.len());
            }
        },
        CompiledModel::Or(a, b) => {
            lemma_metas_within(*a, text);
            lemma_metas_within(*b, text);
            let chosen = if metas_spec(*a, text).len() > 0 {
                metas_spec(*a, text)
            } else {
                metas_spec(*b, text)
            };
            assert forall|i: int| 0 <= i < chosen.len() implies well_formed(
                normalized((#[trigger] chosen[i]).ranges),
            ) && separated(normalized(chosen[i].ranges)) by {
                lemma_normalized_is_normal(chosen[i].ranges, text.len());
            }
        },
        _ => {},
    }
}

/// A copy of an optional string.
pub fn copy_field(f: &Option<String>) -> (r: Option<String>)
    ensures
        field_model(r) == field_model(*f),
{
    match f {
        Some(s) => Some(s.clone()),
        None => None,
    }
}

/// The first field that stands in a compiled query, from left to right.
pub fn collect_field_from_compiled(node: &CompiledNode) -> (r: Option<String>)
    ensures
        field_model(r) == first_field(node@),
    decreases *node,
{
    match node {
        CompiledNode::Leaf { pat, negated, field, mods } => copy_field(field),
        CompiledNode::Compare { field, op, value } => copy_field(field),
        CompiledNode::Range { field, low, high } => copy_field(field),
        CompiledNode::Function { name, args, pat } => None,
        CompiledNode::Not(inner) => collect_field_from_compiled(inner),
        CompiledNode::Or(a, b) => match collect_field_from_compiled(a) {
            Some(f) => Some(f),
            None => collect_field_from_compiled(b),
        },
        CompiledNode::And(a, b) => match collect_field_from_compiled(a) {
            Some(f) => Some(f),
            None => collect_field_from_compiled(b),
        },
    }
}

fn is_extension(field: &Option<String>) -> (r: bool)
    ensures
        r == is_extension_field(field_model(*field)),
{
    match field {
        Some(f) => same_text(f.as_str(), "extension"),
        None => false,
    }
}

fn find_extension(text: &[u8]) -> (r: Option<(usize, usize)>)
    ensures
        match r {
            Some((a, b)) => extension_span(text@) == Some((a as int, b as int)) && a <= b
                <= text@.len(),
            None => extension_span(text@) is None,
        },
{
    let mut end: usize = 0;
    while end < text.len() && text[end] != 10
        invariant
            end <= text@.len(),
            first_newline(text@, end as int) == first_newline(text@, 0),
        decreases text@.len() - end,
    {
        end = end + 1;
    }
    let mut start: usize = end;
    while start > 0 && text[start - 1] != 46
        invariant
            start <= end <= text@.len(),
            after_last_dot(text@, start as int) == after_last_dot(text@, end as int),
        decreases start,
    {
        start = start - 1;
    }
    if start > 0 {
        Some((start, end))
    } else {
        None
    }
}

fn find_span(field: &Option<String>, text: &[u8]) -> (r: Option<(usize, usize)>)
    ensures
        match r {
            Some((a, b)) => leaf_span(field_model(*field), text@) == Some((a as int, b as int))
                && a <= b <= text@.len(),
            None => leaf_span(field_model(*field), text@) is None,
        },
{
    if is_extension(field) {
        find_extension(text)
    } else {
        Some((0, text.len()))
    }
}

fn shift_ranges(rs: &Vec<(usize, usize)>, off: usize, len: usize) -> (out: Vec<(usize, usize)>)
    requires
        ranges_within(rs@, (len - off) as nat),
        off <= len,
    ensures
        out@ == shifted(rs@, off as int),
        ranges_within(out@, len as nat),
{
    let mut out: Vec<(usize, usize)> = Vec::new();
    let mut i: usize = 0;
    while i < rs.len()
        invariant
            i <= rs.len(),
            off <= len,
            ranges_within(rs@, (len - off) as nat),
            out.len() == i,
            forall|k: int|
                0 <= k < i ==> #[trigger] out[k] == ((rs[k].0 + off) as usize, (rs[k].1
                    + off) as usize),
            forall|k: int| 0 <= k < i ==> (#[trigger] out[k]).0 <= out[k].1 <= len,
        decreases rs.len() - i,
    {
        let r = rs[i];
        assert(rs[i as int].0 <= rs[i as int].1 <= len - off);
        out.push((r.0 + off, r.1 + off));
        i = i + 1;
    }
    assert(out@ =~= shifted(rs@, off as int));
    out
}

fn copy_ranges(rs: &Vec<(usize, usize)>) -> (out: Vec<(usize, usize)>)
    ensures
        out@ == rs@,
{
    let mut out: Vec<(usize, usize)> = Vec::new();
    let mut i: usize = 0;
    while i < rs.len()
        invariant
            i <= rs.len(),
            out@ == rs@.take(i as int),
        decreases rs.len() - i,
    {
        out.push(rs[i]);
        assert(out@ =~= rs@.take(i + 1));
        i = i + 1;
    }
    assert(rs@.take(i as int) =~= rs@);
    out
}

fn metas_for(field: &Option<String>, ranges: Vec<(usize, usize)>) -> (out: Vec<MatchMeta>)
    ensures
        metas_model(out@) == leaf_metas(field_model(*field), ranges@),
{
    let mut out: Vec<MatchMeta> = Vec::new();
    if ranges.len() == 0 {
        assert(metas_model(out@) =~= leaf_metas(field_model(*field), ranges@));
        return out;
    }
    if is_extension(field) {
        out.push(MatchMeta { field: Some(String::from_str("name")), ranges });
        out.push(MatchMeta { field: Some(String::from_str("extension")), ranges: Vec::new() });
        assert(metas_model(out@) =~= leaf_metas(field_model(*field), ranges@));
    } else {
        out.push(MatchMeta { field: copy_field(field), ranges });
        assert(metas_model(out@) =~= leaf_metas(field_model(*field), ranges@));
    }
    out
}

fn inherit_field(metas: &Vec<MatchMeta>, field: &Option<String>) -> (out: Vec<MatchMeta>)
    ensures
        metas_model(out@) == inherit(metas_model(metas@), field_model(*field)),
{
    let mut out: Vec<MatchMeta> = Vec::new();
    let mut i: usize = 0;
    while i < metas.len()
        invariant
            i <= metas.len(),
            out.len() == i,
            forall|k: int|
                0 <= k < i ==> (#[trigger] out[k])@ == inherit_one(
                    metas[k]@,
                    field_model(*field),
                ),
        decreases metas.len() - i,
    {
        let m = &metas[i];
        let own = match &m.field {
            Some(f) => Some(f.clone()),
            None => copy_field(field),
        };
        out.push(MatchMeta { field: own, ranges: normalize_ranges(copy_ranges(&m.ranges)) });
        i = i + 1;
    }
    assert(metas_model(out@) =~= inherit(metas_model(metas@), field_model(*field)));
    out
}

fn join_metas(a: Vec<MatchMeta>, b: Vec<MatchMeta>) -> (out: Vec<MatchMeta>)
    ensures
        metas_model(out@) == metas_model(a@) + metas_model(b@),
{
    let ghost first = a@;
    let ghost second = b@;
    let mut out = a;
    let mut rest = b;
    out.append(&mut rest);
    assert(out@ =~= first + second);
    assert(metas_model(out@) =~= metas_model(first) + metas_model(second));
    out
}

/// Compiles and evaluates queries over the patterns of one pool.
pub struct QueryMatcher {
    pool: PatternPool,
}

impl View for QueryMatcher {
    type V = Seq<PatternKey>;

    /// The keys of the idle handles of the matcher's pool.
    closed spec fn view(&self) -> Seq<PatternKey> {
        self.pool@
    }
}

impl QueryMatcher {
    /// A matcher over `pool`.
    pub fn new(pool: PatternPool) -> (r: QueryMatcher)
        ensures
            r@ == pool@,
    {
        QueryMatcher { pool }
    }

    fn leaf(
        &mut self,
        pattern: String,
        negated: bool,
        field: Option<String>,
        mods: Vec<String>,
    ) -> (r: Result<CompiledNode, CompileError>)
        ensures
            compiled_result(r) == compile_leaf(
                pattern@,
                negated,
                field_model(field),
                texts(mods@),
            ),
            final(self)@ == without_first(old(self)@, pcre2_key(pattern@)),
    {
        match self.pool.acquire_pcre2(pattern.as_str()) {
            Ok(pat) => Ok(CompiledNode::Leaf { pat, negated, field, mods }),
            Err(e) => Err(e),
        }
    }

    /// Compiles a syntax tree. The patterns of its terms come from the pool.
    pub fn compile(&mut self, node: &Node) -> (r: Result<CompiledNode, CompileError>)
        ensures
            compiled_result(r) == compile_spec(node@),
            final(self)@ == pool_after_compile(node@, old(self)@),
        decreases *node,
    {
        proof {
            reveal_with_fuel(crate::query::ast::node_model, 2);
        }
        match node {
            Node::Word(s) => {
                let mods: Vec<String> = Vec::new();
                assert(texts(mods@) =~= Seq::<Seq<char>>::empty());
                let pattern = build_pattern_for_literal(s.as_str(), &mods);
                self.leaf(pattern, false, None, mods)
            },
            Node::Regex(p) => {
                let mods: Vec<String> = Vec::new();
                assert(texts(mods@) =~= Seq::<Seq<char>>::empty());
                let pattern = build_pattern_for_regex(p.as_str(), &mods);
                self.leaf(pattern, false, None, mods)
            },
            Node::Field(name, term) => {
                let mods: Vec<String> = Vec::new();
                assert(texts(mods@) =~= Seq::<Seq<char>>::empty());
                let pattern = build_pattern_for_term(term.as_str(), &mods);
                self.leaf(pattern, false, Some(name.clone()), mods)
            },
            Node::Modified(inner, mods) => {
                let negated = any_negation(mods);
                match &**inner {
                    Node::Word(s) => {
                        let pattern = build_pattern_for_literal(s.as_str(), mods);
                        self.leaf(pattern, negated, None, copy_strings(mods))
                    },
                    Node::Regex(p) => {
                        let pattern = build_pattern_for_regex(p.as_str(), mods);
                        self.leaf(pattern, negated, None, copy_strings(mods))
                    },
                    Node::Field(name, term) => {
                        let pattern = build_pattern_for_term(term.as_str(), mods);
                        self.leaf(pattern, negated, Some(name.clone()), copy_strings(mods))
                    },
                    _ => Err(CompileError::UnsupportedModifier),
                }
            },
            Node::Compare(field, op, value) => Ok(
                CompiledNode::Compare { field: Some(field.clone()), op: *op, value: value.clone() },
            ),
            Node::Range(field, low, high) => Ok(
                CompiledNode::Range {
                    field: Some(field.clone()),
                    low: low.clone(),
                    high: high.clone(),
                },
            ),
            Node::Function(name, args) => {
                let pat = if is_contains_name(name.as_str()) && args.len() > 0 {
                    assert(texts(args@)[0] == args[0]@);
                    let mods: Vec<String> = Vec::new();
                    assert(texts(mods@) =~= Seq::<Seq<char>>::empty());
                    let pattern = build_pattern_for_literal(args[0].as_str(), &mods);
                    match self.pool.acquire_pcre2(pattern.as_str()) {
                        Ok(p) => Some(p),
                        Err(_) => None,
                    }
                } else {
                    None
                };
                Ok(CompiledNode::Function { name: name.clone(), args: copy_strings(args), pat })
            },
            Node::Not(inner) => match self.compile(inner) {
                Ok(c) => Ok(CompiledNode::Not(Box::new(c))),
                Err(e) => Err(e),
            },
            Node::And(a, b) => {
                let ca = match self.compile(a) {
                    Ok(c) => c,
                    Err(e) => {
                        return Err(e);
                    },
                };
                match self.compile(b) {
                    Ok(cb) => Ok(CompiledNode::And(Box::new(ca), Box::new(cb))),
                    Err(e) => Err(e),
                }
            },
            Node::Or(a, b) => {
                let ca = match self.compile(a) {
                    Ok(c) => c,
                    Err(e) => {
                        return Err(e);
                    },
                };
                match self.compile(b) {
                    Ok(cb) => Ok(CompiledNode::Or(Box::new(ca), Box::new(cb))),
                    Err(e) => Err(e),
                }
            },
            Node::Group(inner) => self.compile(inner),
        }
    }

    /// Tests whether `compiled` matches `text`.
    pub fn is_match(&self, compiled: &CompiledNode, text: &[u8]) -> (r: bool)
        ensures
            r == eval(compiled@, text@),
        decreases *compiled,
    {
        match compiled {
            CompiledNode::Leaf { pat, negated, field, mods } => {
                let found = match find_span(field, text) {
                    Some((a, b)) => pat.is_match(slice_subrange(text, a, b)),
                    None => false,
                };
                *negated != found
            },
            CompiledNode::Compare { field, op, value } => compare_text(*op, value.as_str(), text),
            CompiledNode::Range { field, low, high } => range_text(low, high, text),
            CompiledNode::Function { name, args, pat } => function_text(name.as_str(), args, text),
            CompiledNode::Not(inner) => !self.is_match(inner, text),
            CompiledNode::And(a, b) => self.is_match(a, text) && self.is_match(b, text),
            CompiledNode::Or(a, b) => self.is_match(a, text) || self.is_match(b, text),
        }
    }

    /// The byte ranges that `compiled` captures in `text`. Every range lies
    /// within `text`. A leaf has ranges exactly where its pattern is found in
    /// the part of the text that it looks at.
    pub fn captures(&self, compiled: &CompiledNode, text: &[u8]) -> (r: Vec<(usize, usize)>)
        ensures
            r@ == captures_spec(compiled@, text@),
            ranges_within(r@, text@.len()),
            compiled@ matches CompiledModel::Leaf { pat, negated, field, mods } ==> (r@.len() > 0
                <==> leaf_found(pat, field, text@)),
        decreases *compiled,
    {
        let len = text.len();
        proof {
            lemma_captures_within(compiled@, text@);
        }
        match compiled {
            CompiledNode::Leaf { pat, negated, field, mods } => {
                match find_span(field, text) {
                    Some((a, b)) => match pat.captures_ranges(slice_subrange(text, a, b)) {
                        Some(rs) => shift_ranges(&rs, a, text.len()),
                        None => Vec::new(),
                    },
                    None => Vec::new(),
                }
            },
            CompiledNode::Compare { field, op, value } => Vec::new(),
            CompiledNode::Range { field, low, high } => Vec::new(),
            CompiledNode::Function { name, args, pat } => {
                match pat {
                    Some(p) => if is_contains_name(name.as_str()) && args.len() > 0 {
                        assert(texts(args@)[0] == args[0]@);
                        let mods: Vec<String> = Vec::new();
                        assert(texts(mods@) =~= Seq::<Seq<char>>::empty());
                        let pattern = build_pattern_for_literal(args[0].as_str(), &mods);
                        if p.engine() == Engine::Pcre2 && same_text(p.as_str(), pattern.as_str()) {
                            match p.captures_ranges(text) {
                                Some(rs) => rs,
                                None => Vec::new(),
                            }
                        } else {
                            Vec::new()
                        }
                    } else {
                        Vec::new()
                    },
                    None => Vec::new(),
                }
            },
            CompiledNode::Not(inner) => self.captures(inner, text),
            CompiledNode::And(a, b) => {
                let mut a_caps = self.captures(a, text);
                let mut b_caps = self.captures(b, text);
                a_caps.append(&mut b_caps);
                a_caps
            },
            CompiledNode::Or(a, b) => {
                let a_caps = self.captures(a, text);
                if a_caps.len() > 0 {
                    a_caps
                } else {
                    self.captures(b, text)
                }
            },
        }
    }

    /// Field-aware metadata of `compiled` on `text`: normalized capture
    /// ranges, each list under the field it belongs to.
    pub fn captures_meta(&self, compiled: &CompiledNode, text: &[u8]) -> (r: Vec<MatchMeta>)
        ensures
            metas_model(r@) == metas_spec(compiled@, text@),
            metas_within(metas_model(r@), text@.len()),
            metas_normal(metas_model(r@)),
        decreases *compiled,
    {
        let len = text.len();
        proof {
            lemma_metas_within(compiled@, text@);
            lemma_metas_are_normalized(compiled@, text@);
        }
        match compiled {
            CompiledNode::Leaf { pat, negated, field, mods } => {
                let ranges = normalize_ranges(self.captures(compiled, text));
                metas_for(field, ranges)
            },
            CompiledNode::Compare { field, op, value } => {
                let mut out: Vec<MatchMeta> = Vec::new();
                out.push(MatchMeta { field: copy_field(field), ranges: Vec::new() });
                assert(metas_model(out@) =~= metas_spec(compiled@, text@));
                out
            },
            CompiledNode::Range { field, low, high } => {
                let mut out: Vec<MatchMeta> = Vec::new();
                out.push(MatchMeta { field: copy_field(field), ranges: Vec::new() });
                assert(metas_model(out@) =~= metas_spec(compiled@, text@));
                out
            },
            CompiledNode::Function { name, args, pat } => {
                let ranges = normalize_ranges(self.captures(compiled, text));
                metas_for(&None, ranges)
            },
            CompiledNode::Not(inner) => {
                let out: Vec<MatchMeta> = Vec::new();
                assert(metas_model(out@) =~= metas_spec(compiled@, text@));
                out
            },
            CompiledNode::And(a, b) => {
                let a_m = self.captures_meta(a, text);
                let b_m = self.captures_meta(b, text);
                let joined = join_metas(a_m, b_m);
                let inherited = collect_field_from_compiled(compiled);
                inherit_field(&joined, &inherited)
            },
            CompiledNode::Or(a, b) => {
                let a_m = self.captures_meta(a, text);
                let chosen = if a_m.len() > 0 {
                    a_m
                } else {
                    self.captures_meta(b, text)
                };
                let inherited = collect_field_from_compiled(compiled);
                inherit_field(&chosen, &inherited)
            },
        }
    }
}

} // verus!
