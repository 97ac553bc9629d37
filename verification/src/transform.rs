//! The value transformer and the tag expander.
//!
//! `yaml_to_json` turns a source tree into a JSON-shaped output tree.
//! Sequence elements go through `yaml_to_json_flattable`, which lets a tagged
//! element (or a one-entry mapping whose single key is tagged) expand to zero
//! or more output values that are spliced into the surrounding array. A tag
//! anywhere else is an error: only sequence elements take the expansion path,
//! which preserves the narrow behaviour this layer has always had.
//!
//! The one supported tag is `namespaced`: its payload must be a mapping from
//! namespace strings to sequences of entry strings, and it expands to one
//! `"namespace:entry"` string per entry, in source order (mapping order
//! first, then list order).

use vstd::prelude::*;

use crate::value::{
    ErrVal, JsonVal, JsonValue, SourceValue, SrcVal, TransformError, assoc_insert,
    json_pairs_view, json_seq_view, json_view, lemma_assoc_insert, lemma_json_pairs_view,
    lemma_json_seq_view, lemma_src_pairs_view, lemma_src_seq_view, lemma_src_view_variant,
    src_pairs_view, src_seq_view, src_view,
};

verus! {

broadcast use lemma_json_seq_view, lemma_json_pairs_view, lemma_src_seq_view,
    lemma_src_pairs_view;

/// The single tag name this layer understands.
pub open spec fn supported_tag() -> Seq<char> {
    "namespaced"@
}

/// Expands the entry list of one namespace: each entry must be a string
/// `e`, and contributes `"{ns}:{e}"`. `acc` holds what earlier entries
/// already produced.
pub open spec fn expand_entries(ns: Seq<char>, items: Seq<SrcVal>, acc: Seq<JsonVal>) -> Result<
    Seq<JsonVal>,
    ErrVal,
>
    decreases items.len(),
{
    if items.len() == 0 {
        Ok(acc)
    } else {
        match items[0] {
            SrcVal::Str(entry) => expand_entries(
                ns,
                items.drop_first(),
                acc.push(JsonVal::Str(ns + ":"@ + entry)),
            ),
            _ => Err(ErrVal::ShapeError),
        }
    }
}

/// Expands one `namespace: entries` pair of a `namespaced` payload.
pub open spec fn expand_pair(k: SrcVal, v: SrcVal) -> Result<Seq<JsonVal>, ErrVal> {
    match (k, v) {
        (SrcVal::Str(ns), SrcVal::Sequence(items)) => expand_entries(ns, items, Seq::empty()),
        _ => Err(ErrVal::ShapeError),
    }
}

/// Expands all pairs of a `namespaced` payload, in source order.
pub open spec fn expand_pairs(pairs: Seq<(SrcVal, SrcVal)>, acc: Seq<JsonVal>) -> Result<
    Seq<JsonVal>,
    ErrVal,
>
    decreases pairs.len(),
{
    if pairs.len() == 0 {
        Ok(acc)
    } else {
        match expand_pair(pairs[0].0, pairs[0].1) {
            Ok(xs) => expand_pairs(pairs.drop_first(), acc + xs),
            Err(e) => Err(e),
        }
    }
}

/// Expansion of a tagged node: the `namespaced` tag expands its payload;
/// any other tag fails with `UnsupportedTagError` naming it.
pub open spec fn expand_tag(tag: Seq<char>, payload: SrcVal) -> Result<Seq<JsonVal>, ErrVal> {
    if tag != supported_tag() {
        Err(ErrVal::UnsupportedTagError(tag))
    } else {
        match payload {
            SrcVal::Mapping(pairs) => expand_pairs(pairs, Seq::empty()),
            _ => Err(ErrVal::ShapeError),
        }
    }
}

/// The transformation of one source node into one output node. A tagged
/// node in this position is always an error: multi-value expansion only has
/// a place inside sequences (`flat_expand`).
pub open spec fn transform(v: SrcVal) -> Result<JsonVal, ErrVal>
    decreases v, 0int,
{
    match v {
        SrcVal::Null => Ok(JsonVal::Null),
        SrcVal::Bool(b) => Ok(JsonVal::Bool(b)),
        SrcVal::Number(s) => Ok(JsonVal::Number(s)),
        SrcVal::Str(s) => Ok(JsonVal::Str(s)),
        SrcVal::Sequence(items) => match transform_seq(items, Seq::empty()) {
            Ok(xs) => Ok(JsonVal::Array(xs)),
            Err(e) => Err(e),
        },
        SrcVal::Mapping(pairs) => match transform_pairs(pairs, Seq::empty()) {
            Ok(ps) => Ok(JsonVal::Object(ps)),
            Err(e) => Err(e),
        },
        SrcVal::Tagged(tag, _) => Err(ErrVal::UnsupportedTagError(tag)),
    }
}

/// The expansion of one sequence element into the zero or more output values
/// it splices into the surrounding array: a tagged element expands by its
/// tag; a one-entry mapping whose single key is tagged is rewritten so the
/// tag applies to the `payload: value` pair; everything else transforms to
/// exactly itself.
pub open spec fn flat_expand(v: SrcVal) -> Result<Seq<JsonVal>, ErrVal>
    decreases v, 1int,
{
    match v {
        SrcVal::Tagged(tag, payload) => expand_tag(tag, *payload),
        SrcVal::Mapping(pairs) => {
            if pairs.len() == 1 && pairs[0].0 is Tagged {
                expand_tag(
                    pairs[0].0->Tagged_0,
                    SrcVal::Mapping(seq![(*pairs[0].0->Tagged_1, pairs[0].1)]),
                )
            } else {
                match transform(v) {
                    Ok(j) => Ok(seq![j]),
                    Err(e) => Err(e),
                }
            }
        },
        _ => match transform(v) {
            Ok(j) => Ok(seq![j]),
            Err(e) => Err(e),
        },
    }
}

/// Transforms the elements of a sequence left to right, concatenating each
/// element's expansion onto `acc`; the first failure aborts the whole
/// sequence.
pub open spec fn transform_seq(items: Seq<SrcVal>, acc: Seq<JsonVal>) -> Result<
    Seq<JsonVal>,
    ErrVal,
>
    decreases items, 2int,
{
    if items.len() == 0 {
        Ok(acc)
    } else {
        match flat_expand(items[0]) {
            Ok(xs) => transform_seq(items.drop_first(), acc + xs),
            Err(e) => Err(e),
        }
    }
}

/// Transforms the pairs of a mapping left to right into an object held in
/// `acc`: every key must be a string scalar, values transform recursively,
/// and a repeated key replaces the earlier value in place.
pub open spec fn transform_pairs(
    pairs: Seq<(SrcVal, SrcVal)>,
    acc: Seq<(Seq<char>, JsonVal)>,
) -> Result<Seq<(Seq<char>, JsonVal)>, ErrVal>
    decreases pairs, 2int,
{
    if pairs.len() == 0 {
        Ok(acc)
    } else {
        match pairs[0].0 {
            SrcVal::Str(k) => match transform(pairs[0].1) {
                Ok(j) => transform_pairs(pairs.drop_first(), assoc_insert(acc, k, j)),
                Err(e) => Err(e),
            },
            _ => Err(ErrVal::KeyTypeError),
        }
    }
}

/// Expands one `namespace: entries` pair, as `expand_pair` describes it.
#[verifier::loop_isolation(false)]
fn expand_namespace_pair(key: &SourceValue, val: &SourceValue) -> (r: Result<
    Vec<JsonValue>,
    TransformError,
>)
    ensures
        match r {
            Ok(xs) => expand_pair(key@, val@) == Ok::<Seq<JsonVal>, ErrVal>(json_seq_view(xs@)),
            Err(e) => expand_pair(key@, val@) == Err::<Seq<JsonVal>, ErrVal>(e@),
        },
{
    match (key, val) {
        (SourceValue::Str(ns), SourceValue::Sequence(items)) => {
            let ghost iv = src_seq_view(items@);
            let mut out: Vec<JsonValue> = Vec::new();
            let mut j: usize = 0;
            proof {
                assert(iv.skip(0) =~= iv);
                assert(json_seq_view(out@) =~= Seq::<JsonVal>::empty());
            }
            while j < items.len()
                invariant
                    j <= items.len(),
                    iv == src_seq_view(items@),
                    expand_entries(ns@, iv, Seq::empty()) == expand_entries(
                        ns@,
                        iv.skip(j as int),
                        json_seq_view(out@),
                    ),
                decreases items.len() - j,
            {
                proof {
                    assert(iv.skip(j as int)[0] == iv[j as int]);
                }
                match &items[j] {
                    SourceValue::Str(entry) => {
                        let mut s = ns.clone();
                        s.append(":");
                        s.append(entry.as_str());
                        let ghost out0 = out@;
                        out.push(JsonValue::Str(s));
                        proof {
                            assert(json_seq_view(out@) =~= json_seq_view(out0).push(
                                JsonVal::Str(ns@ + ":"@ + entry@),
                            ));
                            assert(iv.skip(j as int).drop_first() =~= iv.skip(j + 1));
                        }
                    },
                    _ => {
                        proof {
                            lemma_src_view_variant(items@[j as int]);
                        }
                        return Err(TransformError::ShapeError);
                    },
                }
                j += 1;
            }
            proof {
                assert(iv.skip(items.len() as int) =~= Seq::<SrcVal>::empty());
            }
            Ok(out)
        },
        _ => {
            proof {
                lemma_src_view_variant(*key);
                lemma_src_view_variant(*val);
            }
            Err(TransformError::ShapeError)
        },
    }
}

/// Expands a tagged node, as `expand_tag` describes it: the payload of the
/// `namespaced` tag must be a mapping of namespaces to entry lists; any
/// other tag is reported back by name.
#[verifier::loop_isolation(false)]
pub fn parse_tag(tag: &String, payload: &SourceValue) -> (r: Result<Vec<JsonValue>, TransformError>)
    ensures
        match r {
            Ok(xs) => expand_tag(tag@, payload@) == Ok::<Seq<JsonVal>, ErrVal>(json_seq_view(xs@)),
            Err(e) => expand_tag(tag@, payload@) == Err::<Seq<JsonVal>, ErrVal>(e@),
        },
{
    let want: String = String::from_str("namespaced");
    if !(*tag == want) {
        return Err(TransformError::UnsupportedTagError(tag.clone()));
    }
    match payload {
        SourceValue::Mapping(pairs) => {
            let ghost pv = src_pairs_view(pairs@);
            let mut out: Vec<JsonValue> = Vec::new();
            let mut i: usize = 0;
            proof {
                assert(pv.skip(0) =~= pv);
                assert(json_seq_view(out@) =~= Seq::<JsonVal>::empty());
            }
            while i < pairs.len()
                invariant
                    i <= pairs.len(),
                    pv == src_pairs_view(pairs@),
                    expand_pairs(pv, Seq::empty()) == expand_pairs(
                        pv.skip(i as int),
                        json_seq_view(out@),
                    ),
                decreases pairs.len() - i,
            {
                proof {
                    assert(pv.skip(i as int)[0] == pv[i as int]);
                }
                match expand_namespace_pair(&pairs[i].0, &pairs[i].1) {
                    Ok(mut xs) => {
                        let ghost out0 = out@;
                        let ghost xs0 = xs@;
                        out.append(&mut xs);
                        proof {
                            assert(json_seq_view(out@) =~= json_seq_view(out0) + json_seq_view(
                                xs0,
                            ));
                            assert(pv.skip(i as int).drop_first() =~= pv.skip(i + 1));
                        }
                    },
                    Err(e) => {
                        return Err(e);
                    },
                }
                i += 1;
            }
            proof {
                assert(pv.skip(pairs.len() as int) =~= Seq::<(SrcVal, SrcVal)>::empty());
            }
            Ok(out)
        },
        _ => {
            proof {
                lemma_src_view_variant(*payload);
            }
            Err(TransformError::ShapeError)
        },
    }
}

/// Transforms one source node into one output node, as `transform`
/// describes it.
#[verifier::loop_isolation(false)]
pub fn yaml_to_json(v: &SourceValue) -> (r: Result<JsonValue, TransformError>)
    ensures
        match r {
            Ok(j) => transform(v@) == Ok::<JsonVal, ErrVal>(j@),
            Err(e) => transform(v@) == Err::<JsonVal, ErrVal>(e@),
        },
    decreases *v, 0int,
{
    match v {
        SourceValue::Null => Ok(JsonValue::Null),
        SourceValue::Bool(b) => Ok(JsonValue::Bool(*b)),
        SourceValue::Number(s) => Ok(JsonValue::Number(s.clone())),
        SourceValue::Str(s) => Ok(JsonValue::Str(s.clone())),
        SourceValue::Sequence(items) => {
            let ghost iv = src_seq_view(items@);
            let mut out: Vec<JsonValue> = Vec::new();
            let mut i: usize = 0;
            proof {
                assert(iv.skip(0) =~= iv);
                assert(json_seq_view(out@) =~= Seq::<JsonVal>::empty());
            }
            while i < items.len()
                invariant
                    i <= items.len(),
                    iv == src_seq_view(items@),
                    transform_seq(iv, Seq::empty()) == transform_seq(
                        iv.skip(i as int),
                        json_seq_view(out@),
                    ),
                decreases items.len() - i,
            {
                proof {
                    assert(iv.skip(i as int)[0] == iv[i as int]);
                    assert(*v == SourceValue::Sequence(*items));
                    assert(decreases_to!(*v => *items));
                    assert(decreases_to!(*items => items@));
                    assert(decreases_to!(items@ => items@[i as int]));
                }
                match yaml_to_json_flattable(&items[i]) {
                    Ok(mut xs) => {
                        let ghost out0 = out@;
                        let ghost xs0 = xs@;
                        out.append(&mut xs);
                        proof {
                            assert(json_seq_view(out@) =~= json_seq_view(out0) + json_seq_view(
                                xs0,
                            ));
                            assert(iv.skip(i as int).drop_first() =~= iv.skip(i + 1));
                        }
                    },
                    Err(e) => {
                        return Err(e);
                    },
                }
                i += 1;
            }
            proof {
                assert(iv.skip(items.len() as int) =~= Seq::<SrcVal>::empty());
            }
            Ok(JsonValue::Array(out))
        },
        SourceValue::Mapping(pairs) => {
            let ghost pv = src_pairs_view(pairs@);
            let mut out: Vec<(String, JsonValue)> = Vec::new();
            let mut i: usize = 0;
            proof {
                assert(pv.skip(0) =~= pv);
                assert(json_pairs_view(out@) =~= Seq::<(Seq<char>, JsonVal)>::empty());
            }
            while i < pairs.len()
                invariant
                    i <= pairs.len(),
                    pv == src_pairs_view(pairs@),
                    transform_pairs(pv, Seq::empty()) == transform_pairs(
                        pv.skip(i as int),
                        json_pairs_view(out@),
                    ),
                decreases pairs.len() - i,
            {
                proof {
                    assert(pv.skip(i as int)[0] == pv[i as int]);
                }
                match &pairs[i].0 {
                    SourceValue::Str(k) => {
                        proof {
                            assert(*v == SourceValue::Mapping(*pairs));
                            assert(decreases_to!(*v => *pairs));
                            assert(decreases_to!(*pairs => pairs@));
                            assert(decreases_to!(pairs@ => pairs@[i as int]));
                            assert(decreases_to!(pairs@[i as int] => pairs@[i as int].1));
                        }
                        match yaml_to_json(&pairs[i].1) {
                            Ok(j) => {
                                obj_insert(&mut out, k.clone(), j);
                                proof {
                                    assert(pv.skip(i as int).drop_first() =~= pv.skip(i + 1));
                                }
                            },
                            Err(e) => {
                                return Err(e);
                            },
                        }
                    },
                    _ => {
                        proof {
                            lemma_src_view_variant(pairs@[i as int].0);
                        }
                        return Err(TransformError::KeyTypeError);
                    },
                }
                i += 1;
            }
            proof {
                assert(pv.skip(pairs.len() as int) =~= Seq::<(SrcVal, SrcVal)>::empty());
            }
            Ok(JsonValue::Object(out))
        },
        SourceValue::Tagged(tag, _) => Err(TransformError::UnsupportedTagError(tag.clone())),
    }
}

/// Transforms one node that expands to exactly itself: the single-element
/// case of `flat_expand`.
fn transform_single(v: &SourceValue) -> (r: Result<Vec<JsonValue>, TransformError>)
    ensures
        match r {
            Ok(xs) => transform(v@) matches Ok(j) && json_seq_view(xs@) == seq![j],
            Err(e) => transform(v@) == Err::<JsonVal, ErrVal>(e@),
        },
    decreases *v, 1int,
{
    match yaml_to_json(v) {
        Ok(j) => {
            let mut out: Vec<JsonValue> = Vec::new();
            out.push(j);
            proof {
                assert(json_seq_view(out@) =~= seq![json_view(out@[0])]);
            }
            Ok(out)
        },
        Err(e) => Err(e),
    }
}

/// Expands one sequence element into the output values it splices into the
/// surrounding array, as `flat_expand` describes it.
pub fn yaml_to_json_flattable(v: &SourceValue) -> (r: Result<Vec<JsonValue>, TransformError>)
    ensures
        match r {
            Ok(xs) => flat_expand(v@) == Ok::<Seq<JsonVal>, ErrVal>(json_seq_view(xs@)),
            Err(e) => flat_expand(v@) == Err::<Seq<JsonVal>, ErrVal>(e@),
        },
    decreases *v, 2int,
{
    match v {
        SourceValue::Tagged(tag, payload) => {
            proof {
                assert(v@ == SrcVal::Tagged(tag@, Box::new((**payload)@)));
                assert(*Box::new((**payload)@) == (**payload)@);
                assert(flat_expand(v@) == expand_tag(tag@, (**payload)@));
            }
            parse_tag(tag, &**payload)
        },
        SourceValue::Mapping(pairs) => {
            let ghost pv = src_pairs_view(pairs@);
            if pairs.len() == 1 {
                proof {
                    assert(pv[0] == (src_view(pairs@[0].0), src_view(pairs@[0].1)));
                }
                match &pairs[0].0 {
                    SourceValue::Tagged(tag, kp) => {
                        let ghost rewritten = seq![((**kp)@, pv[0].1)];
                        proof {
                            assert(flat_expand(v@) == expand_tag(
                                tag@,
                                SrcVal::Mapping(rewritten),
                            ));
                        }
                        let want: String = String::from_str("namespaced");
                        if !(*tag == want) {
                            return Err(TransformError::UnsupportedTagError(tag.clone()));
                        }
                        proof {
                            assert(rewritten[0] == ((**kp)@, pv[0].1));
                            assert(rewritten.drop_first() =~= Seq::<(SrcVal, SrcVal)>::empty());
                        }
                        let r = expand_namespace_pair(&**kp, &pairs[0].1);
                        proof {
                            match &r {
                                Ok(xs) => {
                                    assert(expand_pairs(
                                        rewritten.drop_first(),
                                        Seq::<JsonVal>::empty() + json_seq_view(xs@),
                                    ) == Ok::<Seq<JsonVal>, ErrVal>(
                                        Seq::<JsonVal>::empty() + json_seq_view(xs@),
                                    ));
                                    assert(Seq::<JsonVal>::empty() + json_seq_view(xs@)
                                        =~= json_seq_view(xs@));
                                    assert(flat_expand(v@) == Ok::<Seq<JsonVal>, ErrVal>(
                                        json_seq_view(xs@),
                                    ));
                                },
                                Err(e) => {
                                    assert(flat_expand(v@) == Err::<Seq<JsonVal>, ErrVal>(e@));
                                },
                            }
                        }
                        r
                    },
                    _ => {
                        proof {
                            lemma_src_view_variant(pairs@[0].0);
                        }
                        transform_single(v)
                    },
                }
            } else {
                transform_single(v)
            }
        },
        _ => {
            proof {
                lemma_src_view_variant(*v);
            }
            transform_single(v)
        },
    }
}

/// Inserts into an insertion-ordered object, as `assoc_insert` describes
/// it: a repeated key replaces the value at its existing position, a new
/// key is appended.
#[verifier::loop_isolation(false)]
fn obj_insert(m: &mut Vec<(String, JsonValue)>, k: String, v: JsonValue)
    ensures
        json_pairs_view(final(m)@) == assoc_insert(json_pairs_view(old(m)@), k@, v@),
{
    let ghost m0 = m@;
    let ghost kk = k@;
    let ghost vv = json_view(v);
    proof {
        lemma_assoc_insert(json_pairs_view(m0), kk, vv);
    }
    let mut i: usize = 0;
    while i < m.len()
        invariant
            i <= m.len(),
            m@ == m0,
            forall|j: int| 0 <= j < i ==> m0[j].0@ != kk,
        decreases m.len() - i,
    {
        if m[i].0 == k {
            m[i] = (k, v);
            proof {
                assert(m@[i as int].0@ == kk);
                assert(json_view(m@[i as int].1) == vv);
                assert(json_pairs_view(m@) =~= json_pairs_view(m0).update(i as int, (kk, vv)));
                assert(json_pairs_view(m0)[i as int].0 == kk);
                assert(forall|j: int|
                    0 <= j < i ==> json_pairs_view(m0)[j].0 != kk);
            }
            return;
        }
        proof {
            assert(m0[i as int].0@ != kk);
        }
        i += 1;
    }
    m.push((k, v));
    proof {
        assert(m@ =~= m0.push(m@[m0.len() as int]));
        assert(json_pairs_view(m@) =~= json_pairs_view(m0).push((kk, vv)));
        assert(forall|j: int|
            0 <= j < json_pairs_view(m0).len() ==> json_pairs_view(m0)[j].0 != kk);
    }
}

} // verus!
