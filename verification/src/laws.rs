//! The laws the pipeline obeys, stated and proved over the same spec
//! functions that the executable functions' contracts use.

use vstd::prelude::*;

use crate::keypath::is_file_key;
use crate::serialize::json_bytes;
use crate::transform::{flat_expand, supported_tag, transform, transform_pairs, transform_seq};
use crate::tree::{DirView, build_entry, build_tree, entry_data, wrap_dirs};
use crate::value::{ErrVal, JsonVal, SrcVal, assoc_insert};

verus! {

/// Every successfully resolved top-level entry stands for exactly one
/// thing before path wrapping: a file when its key is a file key, and a
/// folder otherwise — never both, never neither.
pub proof fn lemma_entry_file_or_folder(k: Seq<char>, val: SrcVal)
    requires
        entry_data(k, val) is Ok,
    ensures
        is_file_key(k) <==> entry_data(k, val)->Ok_0 is File,
        !is_file_key(k) <==> entry_data(k, val)->Ok_0 is Folder,
{
    if !is_file_key(k) {
        match val {
            SrcVal::Null => {},
            SrcVal::Bool(_) => {},
            SrcVal::Number(_) => {},
            SrcVal::Str(_) => {},
            SrcVal::Sequence(_) => {},
            SrcVal::Mapping(_) => {},
            SrcVal::Tagged(_, _) => {},
        }
    }
}

/// The folders that leading path segments wrap around an entry form a
/// chain of single-child folders.
pub proof fn lemma_wrap_single_child(subs: Seq<char>, d: DirView)
    ensures
        wrap_dirs(subs, d) is Folder,
        wrap_dirs(subs, d)->Folder_0.len() == 1,
{
}

/// Path decomposition: the key `"a/b/c.json"` with any transformable value
/// `v` resolves to the top name `"a"` holding
/// `Folder{b: File(serialized transform of v)}` — the terminal segment
/// holds the file even though the key has leading folder segments.
pub proof fn lemma_path_decomposition(v: SrcVal, j: JsonVal)
    requires
        transform(v) == Ok::<JsonVal, ErrVal>(j),
    ensures
        build_entry("a/b/c.json"@, v) == Ok::<(Seq<char>, DirView), ErrVal>(
            (
                "a"@,
                DirView::Folder(
                    seq![
                        (
                            "b"@,
                            DirView::Folder(
                                seq![("c.json"@, DirView::File(json_bytes(j, Seq::empty())))],
                            ),
                        ),
                    ],
                ),
            ),
        ),
{
    reveal_strlit("a/b/c.json");
    reveal_strlit("a");
    reveal_strlit("b");
    reveal_strlit("c.json");
    reveal_strlit("b/c.json");
    let k = "a/b/c.json"@;
    assert(k.len() == 10);
    reveal_with_fuel(is_file_key, 12);
    assert(is_file_key(k));
    reveal_with_fuel(crate::keypath::find_sep, 12);
    assert(crate::keypath::find_sep(k) == Some(1int));
    assert(entry_data(k, v) == Ok::<DirView, ErrVal>(DirView::File(json_bytes(j, Seq::empty()))));
    let subs = k.skip(2);
    assert(subs =~= "b/c.json"@);
    assert(crate::keypath::find_sep(subs) == Some(1int));
    let rest = subs.skip(2);
    assert(rest =~= "c.json"@);
    assert(crate::keypath::find_sep(rest) is None);
    let d = DirView::File(json_bytes(j, Seq::empty()));
    assert(wrap_dirs(rest, d) == DirView::Folder(seq![("c.json"@, d)]));
    assert(subs.take(1) =~= "b"@);
    assert(wrap_dirs(subs, d) == DirView::Folder(seq![("b"@, wrap_dirs(rest, d))]));
    assert(k.take(1) =~= "a"@);
}

/// Fan-out in sequences: a three-element sequence transforms to the
/// concatenation of its elements' expansions, in order — an element may
/// vanish, stay singular, or fan out into several array entries.
pub proof fn lemma_fanout(
    a: SrcVal,
    t: SrcVal,
    b: SrcVal,
    sa: Seq<JsonVal>,
    st: Seq<JsonVal>,
    sb: Seq<JsonVal>,
)
    requires
        flat_expand(a) == Ok::<Seq<JsonVal>, ErrVal>(sa),
        flat_expand(t) == Ok::<Seq<JsonVal>, ErrVal>(st),
        flat_expand(b) == Ok::<Seq<JsonVal>, ErrVal>(sb),
    ensures
        transform(SrcVal::Sequence(seq![a, t, b])) == Ok::<JsonVal, ErrVal>(
            JsonVal::Array(sa + st + sb),
        ),
{
    let s = seq![a, t, b];
    assert(s.drop_first() =~= seq![t, b]);
    assert(seq![t, b].drop_first() =~= seq![b]);
    assert(seq![b].drop_first() =~= Seq::<SrcVal>::empty());
    assert(Seq::<JsonVal>::empty() + sa =~= sa);
    assert(transform_seq(Seq::<SrcVal>::empty(), sa + st + sb) == Ok::<Seq<JsonVal>, ErrVal>(
        sa + st + sb,
    ));
    assert(transform_seq(seq![b], sa + st) == Ok::<Seq<JsonVal>, ErrVal>(sa + st + sb));
    assert(transform_seq(seq![t, b], sa) == Ok::<Seq<JsonVal>, ErrVal>(sa + st + sb));
    assert(transform_seq(s, Seq::empty()) == Ok::<Seq<JsonVal>, ErrVal>(sa + st + sb));
}

/// An unsupported tag fails, naming the tag: a tagged node outside a
/// sequence always fails this way, and inside a sequence every tag but the
/// supported one does.
pub proof fn lemma_unknown_tag(tag: Seq<char>, payload: SrcVal)
    ensures
        transform(SrcVal::Tagged(tag, Box::new(payload))) == Err::<JsonVal, ErrVal>(
            ErrVal::UnsupportedTagError(tag),
        ),
        tag != supported_tag() ==> flat_expand(SrcVal::Tagged(tag, Box::new(payload)))
            == Err::<Seq<JsonVal>, ErrVal>(ErrVal::UnsupportedTagError(tag)),
{
}

/// The first failing element fails the whole sequence transform with
/// exactly its error.
pub proof fn lemma_seq_error_propagates(items: Seq<SrcVal>, i: int, e: ErrVal)
    requires
        0 <= i < items.len(),
        flat_expand(items[i]) == Err::<Seq<JsonVal>, ErrVal>(e),
        forall|j: int| 0 <= j < i ==> flat_expand(items[j]) is Ok,
    ensures
        transform(SrcVal::Sequence(items)) == Err::<JsonVal, ErrVal>(e),
{
    lemma_seq_error_propagates_from(items, i, e, Seq::empty());
}

proof fn lemma_seq_error_propagates_from(items: Seq<SrcVal>, i: int, e: ErrVal, acc: Seq<JsonVal>)
    requires
        0 <= i < items.len(),
        flat_expand(items[i]) == Err::<Seq<JsonVal>, ErrVal>(e),
        forall|j: int| 0 <= j < i ==> flat_expand(items[j]) is Ok,
    ensures
        transform_seq(items, acc) == Err::<Seq<JsonVal>, ErrVal>(e),
    decreases i,
{
    if i > 0 {
        let rest = items.drop_first();
        assert(forall|j: int| 0 <= j < i - 1 ==> rest[j] == items[j + 1]);
        lemma_seq_error_propagates_from(
            rest,
            i - 1,
            e,
            acc + flat_expand(items[0])->Ok_0,
        );
    }
}

/// The first failing entry value fails the whole mapping transform with
/// exactly its error, when every earlier entry transformed.
pub proof fn lemma_map_error_propagates(pairs: Seq<(SrcVal, SrcVal)>, i: int, e: ErrVal)
    requires
        0 <= i < pairs.len(),
        pairs[i].0 is Str,
        transform(pairs[i].1) == Err::<JsonVal, ErrVal>(e),
        forall|j: int|
            0 <= j < i ==> (#[trigger] pairs[j].0) is Str && transform(pairs[j].1) is Ok,
    ensures
        transform(SrcVal::Mapping(pairs)) == Err::<JsonVal, ErrVal>(e),
{
    lemma_map_error_propagates_from(pairs, i, e, Seq::empty());
}

proof fn lemma_map_error_propagates_from(
    pairs: Seq<(SrcVal, SrcVal)>,
    i: int,
    e: ErrVal,
    acc: Seq<(Seq<char>, JsonVal)>,
)
    requires
        0 <= i < pairs.len(),
        pairs[i].0 is Str,
        transform(pairs[i].1) == Err::<JsonVal, ErrVal>(e),
        forall|j: int|
            0 <= j < i ==> (#[trigger] pairs[j].0) is Str && transform(pairs[j].1) is Ok,
    ensures
        transform_pairs(pairs, acc) == Err::<Seq<(Seq<char>, JsonVal)>, ErrVal>(e),
    decreases i,
{
    if i > 0 {
        let rest = pairs.drop_first();
        assert(forall|j: int| 0 <= j < i - 1 ==> rest[j] == pairs[j + 1]);
        lemma_map_error_propagates_from(
            rest,
            i - 1,
            e,
            assoc_insert(acc, pairs[0].0->Str_0, transform(pairs[0].1)->Ok_0),
        );
    }
}

/// Building twice from equal sources yields equal trees: the whole
/// pipeline, serialization included, is a pure function of the source
/// value, so an unchanged source always produces byte-identical output.
pub proof fn lemma_build_deterministic(v1: SrcVal, v2: SrcVal)
    requires
        v1 == v2,
    ensures
        build_tree(v1) == build_tree(v2),
{
}

/// A non-mapping top level — a bare scalar, sequence or tagged node —
/// fails the whole build with `ShapeError`.
pub proof fn lemma_top_level_shape(v: SrcVal)
    requires
        !(v is Mapping),
    ensures
        build_tree(v) == Err::<DirView, ErrVal>(ErrVal::ShapeError),
{
    match v {
        SrcVal::Null => {},
        SrcVal::Bool(_) => {},
        SrcVal::Number(_) => {},
        SrcVal::Str(_) => {},
        SrcVal::Sequence(_) => {},
        SrcVal::Mapping(_) => {},
        SrcVal::Tagged(_, _) => {},
    }
}

} // verus!
