//! The three tree shapes the pipeline moves between: the parsed source tree,
//! the JSON-shaped output tree, and the error taxonomy shared by every stage.
//!
//! Each executable tree type has a mathematical mirror (`SrcVal`, `JsonVal`,
//! `ErrVal`) built from `Seq`, and a recursive `view` that every contract in
//! the crate is stated over.

use vstd::prelude::*;

verus! {

/// A parsed source document node. Mappings keep their pairs in source order
/// and are not deduplicated at this layer; numbers carry their decimal text
/// so that every scalar is preserved exactly as the document gave it.
#[derive(Debug, PartialEq, Eq)]
pub enum SourceValue {
    Null,
    Bool(bool),
    Number(String),
    Str(String),
    Sequence(Vec<SourceValue>),
    Mapping(Vec<(SourceValue, SourceValue)>),
    Tagged(String, Box<SourceValue>),
}

/// A JSON-shaped output node. Objects keep insertion order; numbers carry
/// their decimal text verbatim.
#[derive(Debug, PartialEq, Eq)]
pub enum JsonValue {
    Null,
    Bool(bool),
    Number(String),
    Str(String),
    Array(Vec<JsonValue>),
    Object(Vec<(String, JsonValue)>),
}

/// Why a transformation run failed. Every stage fails fast with the first
/// error it meets.
#[derive(Debug, PartialEq, Eq)]
pub enum TransformError {
    /// A value had the wrong kind for its position (for example a folder
    /// key whose value is not a mapping, or a tag payload of the wrong shape).
    ShapeError,
    /// A mapping key was not a string scalar.
    KeyTypeError,
    /// A node carried a tag other than the one supported tag; holds the
    /// offending tag name.
    UnsupportedTagError(String),
}

/// Mathematical mirror of `SourceValue`.
pub enum SrcVal {
    Null,
    Bool(bool),
    Number(Seq<char>),
    Str(Seq<char>),
    Sequence(Seq<SrcVal>),
    Mapping(Seq<(SrcVal, SrcVal)>),
    Tagged(Seq<char>, Box<SrcVal>),
}

/// Mathematical mirror of `JsonValue`.
pub enum JsonVal {
    Null,
    Bool(bool),
    Number(Seq<char>),
    Str(Seq<char>),
    Array(Seq<JsonVal>),
    Object(Seq<(Seq<char>, JsonVal)>),
}

/// Mathematical mirror of `TransformError`.
pub enum ErrVal {
    ShapeError,
    KeyTypeError,
    UnsupportedTagError(Seq<char>),
}

/// The mathematical value of a source node.
pub open spec fn src_view(v: SourceValue) -> SrcVal
    decreases v,
{
    match v {
        SourceValue::Null => SrcVal::Null,
        SourceValue::Bool(b) => SrcVal::Bool(b),
        SourceValue::Number(s) => SrcVal::Number(s@),
        SourceValue::Str(s) => SrcVal::Str(s@),
        SourceValue::Sequence(items) => SrcVal::Sequence(src_seq_view(items@)),
        SourceValue::Mapping(pairs) => SrcVal::Mapping(src_pairs_view(pairs@)),
        SourceValue::Tagged(tag, payload) => SrcVal::Tagged(tag@, Box::new(src_view(*payload))),
    }
}

/// The views of a sequence of source nodes, in order.
pub open spec fn src_seq_view(s: Seq<SourceValue>) -> Seq<SrcVal>
    decreases s,
{
    if s.len() == 0 {
        Seq::empty()
    } else {
        src_seq_view(s.drop_last()).push(src_view(s.last()))
    }
}

/// The views of a sequence of source key/value pairs, in order.
pub open spec fn src_pairs_view(s: Seq<(SourceValue, SourceValue)>) -> Seq<(SrcVal, SrcVal)>
    decreases s,
{
    if s.len() == 0 {
        Seq::empty()
    } else {
        src_pairs_view(s.drop_last()).push((src_view(s.last().0), src_view(s.last().1)))
    }
}

/// The mathematical value of an output node.
pub open spec fn json_view(v: JsonValue) -> JsonVal
    decreases v,
{
    match v {
        JsonValue::Null => JsonVal::Null,
        JsonValue::Bool(b) => JsonVal::Bool(b),
        JsonValue::Number(s) => JsonVal::Number(s@),
        JsonValue::Str(s) => JsonVal::Str(s@),
        JsonValue::Array(items) => JsonVal::Array(json_seq_view(items@)),
        JsonValue::Object(pairs) => JsonVal::Object(json_pairs_view(pairs@)),
    }
}

/// The views of a sequence of output nodes, in order.
pub open spec fn json_seq_view(s: Seq<JsonValue>) -> Seq<JsonVal>
    decreases s,
{
    if s.len() == 0 {
        Seq::empty()
    } else {
        json_seq_view(s.drop_last()).push(json_view(s.last()))
    }
}

/// The views of a sequence of output key/value pairs, in order.
pub open spec fn json_pairs_view(s: Seq<(String, JsonValue)>) -> Seq<(Seq<char>, JsonVal)>
    decreases s,
{
    if s.len() == 0 {
        Seq::empty()
    } else {
        json_pairs_view(s.drop_last()).push((s.last().0@, json_view(s.last().1)))
    }
}

impl View for SourceValue {
    type V = SrcVal;

    open spec fn view(&self) -> SrcVal {
        src_view(*self)
    }
}

impl View for JsonValue {
    type V = JsonVal;

    open spec fn view(&self) -> JsonVal {
        json_view(*self)
    }
}

impl View for TransformError {
    type V = ErrVal;

    open spec fn view(&self) -> ErrVal {
        match self {
            TransformError::ShapeError => ErrVal::ShapeError,
            TransformError::KeyTypeError => ErrVal::KeyTypeError,
            TransformError::UnsupportedTagError(tag) => ErrVal::UnsupportedTagError(tag@),
        }
    }
}

/// A source node and its view are built from the same variant.
pub proof fn lemma_src_view_variant(x: SourceValue)
    ensures
        (src_view(x) is Null) <==> (x is Null),
        (src_view(x) is Bool) <==> (x is Bool),
        (src_view(x) is Number) <==> (x is Number),
        (src_view(x) is Str) <==> (x is Str),
        (src_view(x) is Sequence) <==> (x is Sequence),
        (src_view(x) is Mapping) <==> (x is Mapping),
        (src_view(x) is Tagged) <==> (x is Tagged),
{
    match x {
        SourceValue::Null => {},
        SourceValue::Bool(_) => {},
        SourceValue::Number(_) => {},
        SourceValue::Str(_) => {},
        SourceValue::Sequence(_) => {},
        SourceValue::Mapping(_) => {},
        SourceValue::Tagged(_, _) => {},
    }
}

/// Insertion into an order-preserving association sequence: a pair whose key
/// is already present replaces the value at the key's existing position; a
/// new key is appended at the end.
pub open spec fn assoc_insert<V>(m: Seq<(Seq<char>, V)>, k: Seq<char>, v: V) -> Seq<
    (Seq<char>, V),
>
    decreases m.len(),
{
    if m.len() == 0 {
        seq![(k, v)]
    } else if m[0].0 == k {
        seq![(k, v)] + m.drop_first()
    } else {
        seq![m[0]] + assoc_insert(m.drop_first(), k, v)
    }
}

/// `assoc_insert` appends when the key is absent and otherwise updates the
/// first (and, for maps built only by insertion, the only) entry of that key.
pub proof fn lemma_assoc_insert<V>(m: Seq<(Seq<char>, V)>, k: Seq<char>, v: V)
    ensures
        (forall|j: int| 0 <= j < m.len() ==> m[j].0 != k) ==> assoc_insert(m, k, v) == m.push(
            (k, v),
        ),
        forall|i: int|
            0 <= i < m.len() && m[i].0 == k && (forall|j: int| 0 <= j < i ==> m[j].0 != k)
                ==> assoc_insert(m, k, v) == m.update(i, (k, v)),
    decreases m.len(),
{
    if m.len() == 0 {
    } else if m[0].0 == k {
        assert(assoc_insert(m, k, v) =~= m.update(0, (k, v)));
    } else {
        let d = m.drop_first();
        lemma_assoc_insert(d, k, v);
        if forall|j: int| 0 <= j < m.len() ==> m[j].0 != k {
            assert(forall|j: int| 0 <= j < d.len() ==> d[j].0 != k);
            assert(assoc_insert(m, k, v) =~= m.push((k, v)));
        }
        assert forall|i: int|
            0 <= i < m.len() && m[i].0 == k && (forall|j: int| 0 <= j < i ==> m[j].0 != k)
            implies assoc_insert(m, k, v) == m.update(i, (k, v)) by {
            assert(i >= 1);
            assert(d[i - 1].0 == k);
            assert(forall|j: int| 0 <= j < i - 1 ==> d[j].0 != k);
            assert(assoc_insert(d, k, v) == d.update(i - 1, (k, v)));
            assert(assoc_insert(m, k, v) =~= m.update(i, (k, v)));
        }
    }
}

/// `src_seq_view` is the pointwise view of its input.
pub broadcast proof fn lemma_src_seq_view(s: Seq<SourceValue>)
    ensures
        (#[trigger] src_seq_view(s)).len() == s.len(),
        forall|i: int| 0 <= i < s.len() ==> src_seq_view(s)[i] == src_view(s[i]),
    decreases s.len(),
{
    if s.len() > 0 {
        lemma_src_seq_view(s.drop_last());
    }
}

/// `src_pairs_view` is the pointwise view of its input.
pub broadcast proof fn lemma_src_pairs_view(s: Seq<(SourceValue, SourceValue)>)
    ensures
        (#[trigger] src_pairs_view(s)).len() == s.len(),
        forall|i: int| 0 <= i < s.len() ==> src_pairs_view(s)[i] == (
            src_view(s[i].0),
            src_view(s[i].1),
        ),
    decreases s.len(),
{
    if s.len() > 0 {
        lemma_src_pairs_view(s.drop_last());
    }
}

/// `json_seq_view` is the pointwise view of its input.
pub broadcast proof fn lemma_json_seq_view(s: Seq<JsonValue>)
    ensures
        (#[trigger] json_seq_view(s)).len() == s.len(),
        forall|i: int| 0 <= i < s.len() ==> json_seq_view(s)[i] == json_view(s[i]),
    decreases s.len(),
{
    if s.len() > 0 {
        lemma_json_seq_view(s.drop_last());
    }
}

/// `json_pairs_view` is the pointwise view of its input.
pub broadcast proof fn lemma_json_pairs_view(s: Seq<(String, JsonValue)>)
    ensures
        (#[trigger] json_pairs_view(s)).len() == s.len(),
        forall|i: int| 0 <= i < s.len() ==> json_pairs_view(s)[i] == (
            s[i].0@,
            json_view(s[i].1),
        ),
    decreases s.len(),
{
    if s.len() > 0 {
        lemma_json_pairs_view(s.drop_last());
    }
}

} // verus!
