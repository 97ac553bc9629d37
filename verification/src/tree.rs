//! The tree builder: from the top-level source mapping to the in-memory
//! directory tree.
//!
//! Every key of the top-level mapping is resolved as a path (`keypath`): a
//! file key's value is transformed and serialized into one file, a folder
//! key's value must itself be a mapping and is built recursively. Path
//! segments before the terminal one become a chain of single-child folders.
//! Children are kept in insertion order; when two keys lead to the same
//! child name, the later entry replaces the earlier subtree in full rather
//! than merging with it.

use vstd::prelude::*;

use crate::keypath::{KeyPath, find_sep, find_sep_str, is_file_key, lemma_find_sep};
use crate::serialize::{json_bytes, to_pretty_bytes};
use crate::transform::{transform, yaml_to_json};
use crate::value::{
    ErrVal, SourceValue, SrcVal, TransformError, assoc_insert, lemma_assoc_insert,
    lemma_src_pairs_view, lemma_src_seq_view, lemma_src_view_variant, src_pairs_view,
};

verus! {

broadcast use lemma_src_seq_view, lemma_src_pairs_view;

/// The in-memory picture of what will stand on disk: folders hold their
/// children in insertion order, files hold their encoded bytes.
#[derive(Debug, PartialEq, Eq)]
pub enum DiskData {
    Folder(Vec<(String, DiskData)>),
    File(Vec<u8>),
}

/// Mathematical mirror of `DiskData`.
pub enum DirView {
    Folder(Seq<(Seq<char>, DirView)>),
    File(Seq<u8>),
}

/// The mathematical value of a directory entry.
pub open spec fn dir_view(d: DiskData) -> DirView
    decreases d,
{
    match d {
        DiskData::Folder(entries) => DirView::Folder(dir_pairs_view(entries@)),
        DiskData::File(bytes) => DirView::File(bytes@),
    }
}

/// The views of a folder's children, in order.
pub open spec fn dir_pairs_view(s: Seq<(String, DiskData)>) -> Seq<(Seq<char>, DirView)>
    decreases s,
{
    if s.len() == 0 {
        Seq::empty()
    } else {
        dir_pairs_view(s.drop_last()).push((s.last().0@, dir_view(s.last().1)))
    }
}

impl View for DiskData {
    type V = DirView;

    open spec fn view(&self) -> DirView {
        dir_view(*self)
    }
}

/// `dir_pairs_view` is the pointwise view of its input.
pub broadcast proof fn lemma_dir_pairs_view(s: Seq<(String, DiskData)>)
    ensures
        (#[trigger] dir_pairs_view(s)).len() == s.len(),
        forall|i: int| 0 <= i < s.len() ==> dir_pairs_view(s)[i] == (
            s[i].0@,
            dir_view(s[i].1),
        ),
    decreases s.len(),
{
    if s.len() > 0 {
        lemma_dir_pairs_view(s.drop_last());
    }
}

/// The chain of single-child folders that the path segments of `subs` wrap
/// around `d`: `"b/c"` around `d` gives `Folder{b: Folder{c: d}}`.
pub open spec fn wrap_dirs(subs: Seq<char>, d: DirView) -> DirView
    decreases subs.len(),
    via wrap_dirs_decreases
{
    match find_sep(subs) {
        Option::None => DirView::Folder(seq![(subs, d)]),
        Option::Some(i) => DirView::Folder(
            seq![(subs.take(i), wrap_dirs(subs.skip(i + 1), d))],
        ),
    }
}

#[via_fn]
proof fn wrap_dirs_decreases(subs: Seq<char>, d: DirView) {
    lemma_find_sep(subs);
}

/// What one entry's value becomes before path wrapping: a file key's value
/// transforms and serializes into file bytes, a folder key's value builds a
/// folder recursively.
pub open spec fn entry_data(k: Seq<char>, val: SrcVal) -> Result<DirView, ErrVal>
    decreases val, 1int,
{
    if is_file_key(k) {
        match transform(val) {
            Ok(j) => Ok(DirView::File(json_bytes(j, Seq::empty()))),
            Err(e) => Err(e),
        }
    } else {
        build_tree(val)
    }
}

/// One resolved top-level entry: the child name directly under the current
/// folder, and the (possibly folder-wrapped) entry that stands there.
pub open spec fn build_entry(k: Seq<char>, val: SrcVal) -> Result<(Seq<char>, DirView), ErrVal>
    decreases val, 2int,
{
    match entry_data(k, val) {
        Err(e) => Err(e),
        Ok(d) => match find_sep(k) {
            Option::None => Ok((k, d)),
            Option::Some(i) => {
                let subs = k.skip(i + 1);
                Ok(
                    (
                        k.take(i),
                        if subs.len() == 0 {
                            d
                        } else {
                            wrap_dirs(subs, d)
                        },
                    ),
                )
            },
        },
    }
}

/// Builds a folder's children from mapping pairs left to right, inserting
/// each resolved entry into `acc`; every key must be a string scalar, and
/// the first failure aborts the whole build.
pub open spec fn build_entries(
    pairs: Seq<(SrcVal, SrcVal)>,
    acc: Seq<(Seq<char>, DirView)>,
) -> Result<Seq<(Seq<char>, DirView)>, ErrVal>
    decreases pairs, 3int,
{
    if pairs.len() == 0 {
        Ok(acc)
    } else {
        match pairs[0].0 {
            SrcVal::Str(k) => match build_entry(k, pairs[0].1) {
                Ok(e) => build_entries(pairs.drop_first(), assoc_insert(acc, e.0, e.1)),
                Err(err) => Err(err),
            },
            _ => Err(ErrVal::KeyTypeError),
        }
    }
}

/// The whole build: the top-level value must be a mapping, whose entries
/// become the root folder's children.
pub open spec fn build_tree(v: SrcVal) -> Result<DirView, ErrVal>
    decreases v, 0int,
{
    match v {
        SrcVal::Mapping(pairs) => match build_entries(pairs, Seq::empty()) {
            Ok(m) => Ok(DirView::Folder(m)),
            Err(e) => Err(e),
        },
        _ => Err(ErrVal::ShapeError),
    }
}

/// Inserts into a folder's children, as `assoc_insert` describes it: a
/// repeated name replaces the entry at its existing position, a new name is
/// appended.
#[verifier::loop_isolation(false)]
fn dir_insert(m: &mut Vec<(String, DiskData)>, k: String, d: DiskData)
    ensures
        dir_pairs_view(final(m)@) == assoc_insert(dir_pairs_view(old(m)@), k@, dir_view(d)),
{
    broadcast use lemma_dir_pairs_view;

    let ghost m0 = m@;
    let ghost kk = k@;
    let ghost dv = dir_view(d);
    proof {
        lemma_assoc_insert(dir_pairs_view(m0), kk, dv);
    }
    let mut i: usize = 0;
    while i < m.len()
        invariant
            i <= m.len(),
            m@ == m0,
            forall|j: int| 0 <= j < i ==> m0[j].0@ != kk,
        decreases m.len() - i,
    {
        if m[i].0 == k {
            m[i] = (k, d);
            proof {
                assert(m@[i as int].0@ == kk);
                assert(dir_view(m@[i as int].1) == dv);
                assert(dir_pairs_view(m@) =~= dir_pairs_view(m0).update(i as int, (kk, dv)));
                assert(dir_pairs_view(m0)[i as int].0 == kk);
                assert(forall|j: int| 0 <= j < i ==> dir_pairs_view(m0)[j].0 != kk);
            }
            return;
        }
        proof {
            assert(m0[i as int].0@ != kk);
        }
        i += 1;
    }
    m.push((k, d));
    proof {
        assert(dir_pairs_view(m@) =~= dir_pairs_view(m0).push((kk, dv)));
        assert(forall|j: int|
            0 <= j < dir_pairs_view(m0).len() ==> dir_pairs_view(m0)[j].0 != kk);
    }
}

/// Wraps the remaining path segments of a key around an entry, as
/// `wrap_dirs` describes it.
#[verifier::loop_isolation(false)]
fn wrap_entry(subs: &str, d: DiskData) -> (r: DiskData)
    ensures
        r@ == wrap_dirs(subs@, d@),
    decreases subs@.len(),
{
    broadcast use lemma_dir_pairs_view;

    let ghost dv = dir_view(d);
    proof {
        lemma_find_sep(subs@);
    }
    match find_sep_str(subs) {
        None => {
            let mut entries: Vec<(String, DiskData)> = Vec::new();
            entries.push((subs.to_owned(), d));
            proof {
                assert(dir_pairs_view(entries@) =~= seq![(subs@, dv)]);
            }
            DiskData::Folder(entries)
        },
        Some(i) => {
            let n = subs.unicode_len();
            let head = subs.substring_char(0, i);
            let tail = subs.substring_char(i + 1, n);
            proof {
                assert(head@ =~= subs@.take(i as int));
                assert(tail@ =~= subs@.skip(i + 1));
            }
            let inner = wrap_entry(tail, d);
            let ghost iv = dir_view(inner);
            let mut entries: Vec<(String, DiskData)> = Vec::new();
            entries.push((head.to_owned(), inner));
            proof {
                assert(dir_pairs_view(entries@) =~= seq![(subs@.take(i as int), iv)]);
            }
            DiskData::Folder(entries)
        },
    }
}

impl DiskData {
    /// Resolves one top-level entry: classifies the key, builds the file or
    /// folder it names, and wraps it in the folders of its leading path
    /// segments, as `build_entry` describes it.
    fn build_one(key: &String, val: &SourceValue) -> (r: Result<(String, DiskData), TransformError>)
        ensures
            match r {
                Ok(e) => build_entry(key@, val@) == Ok::<(Seq<char>, DirView), ErrVal>(
                    (e.0@, e.1@),
                ),
                Err(err) => build_entry(key@, val@) == Err::<(Seq<char>, DirView), ErrVal>(err@),
            },
        decreases *val, 1int,
    {
        let kp = KeyPath::new(key.as_str());
        let data: DiskData = if kp.is_file() {
            match yaml_to_json(val) {
                Ok(j) => DiskData::File(to_pretty_bytes(&j)),
                Err(e) => {
                    return Err(e);
                },
            }
        } else {
            match Self::from_yaml(val) {
                Ok(d) => d,
                Err(e) => {
                    return Err(e);
                },
            }
        };
        let ghost dv = dir_view(data);
        proof {
            assert(entry_data(key@, val@) == Ok::<DirView, ErrVal>(dv));
            lemma_find_sep(key@);
        }
        let n = key.as_str().unicode_len();
        match find_sep_str(key.as_str()) {
            None => Ok((key.clone(), data)),
            Some(i) => {
                let top = key.as_str().substring_char(0, i);
                let tail = key.as_str().substring_char(i + 1, n);
                proof {
                    assert(top@ =~= key@.take(i as int));
                    assert(tail@ =~= key@.skip(i + 1));
                }
                if tail.unicode_len() == 0 {
                    Ok((top.to_owned(), data))
                } else {
                    Ok((top.to_owned(), wrap_entry(tail, data)))
                }
            },
        }
    }

    /// Builds the in-memory directory tree from the top-level source value,
    /// as `build_tree` describes it: the value must be a mapping, every key
    /// a string, and each entry becomes one file or folder child.
    #[verifier::loop_isolation(false)]
    #[verifier::rlimit(50)]
    pub fn from_yaml(v: &SourceValue) -> (r: Result<DiskData, TransformError>)
        ensures
            match r {
                Ok(d) => build_tree(v@) == Ok::<DirView, ErrVal>(d@),
                Err(e) => build_tree(v@) == Err::<DirView, ErrVal>(e@),
            },
        decreases *v, 0int,
    {
        broadcast use lemma_dir_pairs_view;

        match v {
            SourceValue::Mapping(pairs) => {
                let ghost pv = src_pairs_view(pairs@);
                let mut out: Vec<(String, DiskData)> = Vec::new();
                let mut i: usize = 0;
                proof {
                    assert(pv.skip(0) =~= pv);
                    assert(dir_pairs_view(out@) =~= Seq::<(Seq<char>, DirView)>::empty());
                }
                while i < pairs.len()
                    invariant
                        i <= pairs.len(),
                        pv == src_pairs_view(pairs@),
                        build_entries(pv, Seq::empty()) == build_entries(
                            pv.skip(i as int),
                            dir_pairs_view(out@),
                        ),
                    decreases pairs.len() - i,
                {
                    proof {
                        assert(pv.skip(i as int)[0] == pv[i as int]);
                    }
                    match &pairs[i].0 {
                        SourceValue::Str(k) => {
                            proof {
                                assert(*v == SourceValue::Mapping(*pairs));
                                assert(decreases_to!(*v => *pairs));
                                assert(decreases_to!(*pairs => pairs@));
                                assert(decreases_to!(pairs@ => pairs@[i as int]));
                                assert(decreases_to!(pairs@[i as int] => pairs@[i as int].1));
                            }
                            match Self::build_one(k, &pairs[i].1) {
                                Ok((top, d)) => {
                                    dir_insert(&mut out, top, d);
                                    proof {
                                        assert(pv.skip(i as int).drop_first() =~= pv.skip(i + 1));
                                    }
                                },
                                Err(e) => {
                                    return Err(e);
                                },
                            }
                        },
                        _ => {
                            proof {
                                lemma_src_view_variant(pairs@[i as int].0);
                            }
                            return Err(TransformError::KeyTypeError);
                        },
                    }
                    i += 1;
                }
                proof {
                    assert(pv.skip(pairs.len() as int) =~= Seq::<(SrcVal, SrcVal)>::empty());
                }
                Ok(DiskData::Folder(out))
            },
            _ => {
                proof {
                    lemma_src_view_variant(*v);
                }
                Err(TransformError::ShapeError)
            },
        }
    }
}

} // verus!
