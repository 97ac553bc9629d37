//! Pretty-printed JSON encoding of the output tree.
//!
//! The encoding is fixed byte for byte by `json_bytes`: two-space
//! indentation, `": "` after object keys, one element per line, empty
//! arrays and objects printed as `[]` and `{}`. String content is emitted
//! as printable ASCII, with `"` and `\` backslash-escaped and every other
//! character outside `0x20..=0x7e` written as a `\u` escape (a surrogate
//! pair above `0xffff`), so every produced file is plain ASCII and parses
//! back to the value it was made from.

use vstd::prelude::*;

use crate::value::{
    JsonVal, JsonValue, json_pairs_view, json_seq_view, lemma_json_pairs_view,
    lemma_json_seq_view,
};

verus! {

broadcast use lemma_json_seq_view, lemma_json_pairs_view;

/// The lower-case hex digit for a value below 16.
pub open spec fn hex_digit(n: int) -> u8 {
    if n < 10 {
        (0x30 + n) as u8
    } else {
        (0x57 + n) as u8
    }
}

/// The four hex digits of a 16-bit code unit, after `\u`.
pub open spec fn hex4(u: int) -> Seq<u8> {
    seq![
        ('\\' as u8),
        ('u' as u8),
        hex_digit(u / 0x1000 % 0x10),
        hex_digit(u / 0x100 % 0x10),
        hex_digit(u / 0x10 % 0x10),
        hex_digit(u % 0x10),
    ]
}

/// The bytes one string character contributes: printable ASCII stands for
/// itself, `"` and `\` are backslash-escaped, everything else becomes a
/// `\u` escape (as a surrogate pair beyond the basic plane).
pub open spec fn esc_char(c: char) -> Seq<u8> {
    let u = c as int;
    if c == '"' {
        seq![('\\' as u8), ('"' as u8)]
    } else if c == '\\' {
        seq![('\\' as u8), ('\\' as u8)]
    } else if 0x20 <= u && u <= 0x7e {
        seq![c as u8]
    } else if u <= 0xffff {
        hex4(u)
    } else {
        hex4(0xd800 + (u - 0x10000) / 0x400) + hex4(0xdc00 + (u - 0x10000) % 0x400)
    }
}

/// The escaped bytes of a whole string, character by character.
pub open spec fn esc_str(s: Seq<char>) -> Seq<u8>
    decreases s.len(),
{
    if s.len() == 0 {
        Seq::empty()
    } else {
        esc_char(s[0]) + esc_str(s.drop_first())
    }
}

/// A character sequence taken as bytes one for one; number texts are
/// emitted this way, unescaped and unquoted.
pub open spec fn ascii_bytes(s: Seq<char>) -> Seq<u8>
    decreases s.len(),
{
    if s.len() == 0 {
        Seq::empty()
    } else {
        seq![s[0] as u8] + ascii_bytes(s.drop_first())
    }
}

/// The two spaces one nesting level adds to the indentation.
pub open spec fn two_spaces() -> Seq<u8> {
    seq![(' ' as u8), (' ' as u8)]
}

/// The pretty-printed bytes of a value whose closing bracket sits at
/// indentation `ind`.
pub open spec fn json_bytes(v: JsonVal, ind: Seq<u8>) -> Seq<u8>
    decreases v, 0int,
{
    match v {
        JsonVal::Null => seq![('n' as u8), ('u' as u8), ('l' as u8), ('l' as u8)],
        JsonVal::Bool(b) => if b {
            seq![('t' as u8), ('r' as u8), ('u' as u8), ('e' as u8)]
        } else {
            seq![('f' as u8), ('a' as u8), ('l' as u8), ('s' as u8), ('e' as u8)]
        },
        JsonVal::Number(s) => ascii_bytes(s),
        JsonVal::Str(s) => seq![('"' as u8)] + esc_str(s) + seq![('"' as u8)],
        JsonVal::Array(items) => if items.len() == 0 {
            seq![('[' as u8), (']' as u8)]
        } else {
            seq![('[' as u8), ('\n' as u8)] + arr_items(items, ind + two_spaces(), true) + seq![('\n' as u8)] + ind
                + seq![(']' as u8)]
        },
        JsonVal::Object(pairs) => if pairs.len() == 0 {
            seq![('{' as u8), ('}' as u8)]
        } else {
            seq![('{' as u8), ('\n' as u8)] + obj_items(pairs, ind + two_spaces(), true) + seq![('\n' as u8)] + ind
                + seq![('}' as u8)]
        },
    }
}

/// The lines of a non-empty array body: each element indented on a line of
/// its own, with `,` and a newline before every element but the first.
pub open spec fn arr_items(items: Seq<JsonVal>, ind: Seq<u8>, first: bool) -> Seq<u8>
    decreases items, 1int,
{
    if items.len() == 0 {
        Seq::empty()
    } else {
        (if first {
            Seq::empty()
        } else {
            seq![(',' as u8), ('\n' as u8)]
        }) + ind + json_bytes(items[0], ind) + arr_items(items.drop_first(), ind, false)
    }
}

/// The lines of a non-empty object body: each `"key": value` indented on a
/// line of its own, with `,` and a newline before every entry but the first.
pub open spec fn obj_items(pairs: Seq<(Seq<char>, JsonVal)>, ind: Seq<u8>, first: bool) -> Seq<u8>
    decreases pairs, 1int,
{
    if pairs.len() == 0 {
        Seq::empty()
    } else {
        (if first {
            Seq::empty()
        } else {
            seq![(',' as u8), ('\n' as u8)]
        }) + ind + seq![('"' as u8)] + esc_str(pairs[0].0) + seq![('"' as u8), (':' as u8), (' ' as u8)] + json_bytes(
            pairs[0].1,
            ind,
        ) + obj_items(pairs.drop_first(), ind, false)
    }
}

/// The lower-case hex digit of a value below 16.
fn hex_digit_byte(n: u32) -> (r: u8)
    requires
        n < 16,
    ensures
        r == hex_digit(n as int),
{
    if n < 10 {
        (0x30 + n) as u8
    } else {
        (0x57 + n) as u8
    }
}

/// Appends `\u` and the four hex digits of a 16-bit code unit.
#[verifier::loop_isolation(false)]
fn push_hex4(u: u32, out: &mut Vec<u8>)
    ensures
        final(out)@ == old(out)@ + hex4(u as int),
{
    out.push(('\\' as u8));
    out.push(('u' as u8));
    out.push(hex_digit_byte(u / 0x1000 % 0x10));
    out.push(hex_digit_byte(u / 0x100 % 0x10));
    out.push(hex_digit_byte(u / 0x10 % 0x10));
    out.push(hex_digit_byte(u % 0x10));
    proof {
        assert(final(out)@ =~= old(out)@ + hex4(u as int));
    }
}

/// Appends a whole byte vector.
#[verifier::loop_isolation(false)]
fn push_bytes(out: &mut Vec<u8>, b: &Vec<u8>)
    ensures
        final(out)@ == old(out)@ + b@,
{
    let mut j: usize = 0;
    while j < b.len()
        invariant
            j <= b.len(),
            out@ == old(out)@ + b@.take(j as int),
        decreases b.len() - j,
    {
        out.push(b[j]);
        proof {
            assert(out@ =~= old(out)@ + b@.take(j + 1));
        }
        j += 1;
    }
    proof {
        assert(b@.take(b@.len() as int) =~= b@);
    }
}

/// Appends the escaped bytes of a string, as `esc_str` describes them.
#[verifier::loop_isolation(false)]
fn push_escaped(s: &str, out: &mut Vec<u8>)
    ensures
        final(out)@ == old(out)@ + esc_str(s@),
{
    let n = s.unicode_len();
    let mut i: usize = 0;
    proof {
        assert(s@.skip(0) =~= s@);
    }
    while i < n
        invariant
            i <= n,
            n == s@.len(),
            old(out)@ + esc_str(s@) == out@ + esc_str(s@.skip(i as int)),
        decreases n - i,
    {
        let ghost out0 = out@;
        let c = s.get_char(i);
        proof {
            assert(s@.skip(i as int)[0] == c);
            assert(s@.skip(i as int).drop_first() =~= s@.skip(i + 1));
        }
        if c == '"' {
            out.push(('\\' as u8));
            out.push(('"' as u8));
        } else if c == '\\' {
            out.push(('\\' as u8));
            out.push(('\\' as u8));
        } else {
            let u = c as u32;
            if 0x20 <= u && u <= 0x7e {
                out.push(c as u8);
            } else if u <= 0xffff {
                push_hex4(u, out);
            } else {
                push_hex4(0xd800 + (u - 0x10000) / 0x400, out);
                push_hex4(0xdc00 + (u - 0x10000) % 0x400, out);
            }
        }
        proof {
            assert(out@ =~= out0 + esc_char(c));
            assert(out0 + (esc_char(c) + esc_str(s@.skip(i + 1))) =~= (out0 + esc_char(c))
                + esc_str(s@.skip(i + 1)));
        }
        i += 1;
    }
    proof {
        assert(esc_str(s@.skip(n as int)) =~= Seq::<u8>::empty());
        assert(out@ + Seq::<u8>::empty() =~= out@);
    }
}

/// Appends a character sequence as bytes one for one.
#[verifier::loop_isolation(false)]
fn push_ascii(s: &str, out: &mut Vec<u8>)
    ensures
        final(out)@ == old(out)@ + ascii_bytes(s@),
{
    let n = s.unicode_len();
    let mut i: usize = 0;
    proof {
        assert(s@.skip(0) =~= s@);
    }
    while i < n
        invariant
            i <= n,
            n == s@.len(),
            old(out)@ + ascii_bytes(s@) == out@ + ascii_bytes(s@.skip(i as int)),
        decreases n - i,
    {
        let ghost out0 = out@;
        let c = s.get_char(i);
        proof {
            assert(s@.skip(i as int)[0] == c);
            assert(s@.skip(i as int).drop_first() =~= s@.skip(i + 1));
        }
        out.push(#[verifier::truncate] (c as u8));
        proof {
            assert(out@ =~= out0 + seq![c as u8]);
            assert(out0 + (seq![c as u8] + ascii_bytes(s@.skip(i + 1))) =~= (out0 + seq![c as u8])
                + ascii_bytes(s@.skip(i + 1)));
        }
        i += 1;
    }
    proof {
        assert(ascii_bytes(s@.skip(n as int)) =~= Seq::<u8>::empty());
        assert(out@ + Seq::<u8>::empty() =~= out@);
    }
}

/// Appends the pretty-printed bytes of `v`, whose closing bracket sits at
/// indentation `ind`, as `json_bytes` describes them.
#[verifier::loop_isolation(false)]
#[verifier::rlimit(50)]
fn write_json(v: &JsonValue, ind: &Vec<u8>, out: &mut Vec<u8>)
    ensures
        final(out)@ == old(out)@ + json_bytes(v@, ind@),
    decreases *v, 0int,
{
    let ghost pre = out@;
    match v {
        JsonValue::Null => {
            out.push(('n' as u8));
            out.push(('u' as u8));
            out.push(('l' as u8));
            out.push(('l' as u8));
            proof {
                assert(out@ =~= pre + json_bytes(v@, ind@));
            }
        },
        JsonValue::Bool(b) => {
            if *b {
                out.push(('t' as u8));
                out.push(('r' as u8));
                out.push(('u' as u8));
                out.push(('e' as u8));
            } else {
                out.push(('f' as u8));
                out.push(('a' as u8));
                out.push(('l' as u8));
                out.push(('s' as u8));
                out.push(('e' as u8));
            }
            proof {
                assert(out@ =~= pre + json_bytes(v@, ind@));
            }
        },
        JsonValue::Number(s) => {
            push_ascii(s.as_str(), out);
        },
        JsonValue::Str(s) => {
            out.push(('"' as u8));
            push_escaped(s.as_str(), out);
            out.push(('"' as u8));
            proof {
                assert(out@ =~= pre + json_bytes(v@, ind@));
            }
        },
        JsonValue::Array(items) => {
            proof {
                assert(*v == JsonValue::Array(*items));
                assert(decreases_to!(*v => *items));
            }
            write_array(items, ind, out);
        },
        JsonValue::Object(pairs) => {
            proof {
                assert(*v == JsonValue::Object(*pairs));
                assert(decreases_to!(*v => *pairs));
            }
            write_object(pairs, ind, out);
        },
    }
}

/// Appends the pretty-printed bytes of an array, whose closing bracket
/// sits at indentation `ind`.
#[verifier::loop_isolation(false)]
#[verifier::rlimit(50)]
fn write_array(items: &Vec<JsonValue>, ind: &Vec<u8>, out: &mut Vec<u8>)
    ensures
        final(out)@ == old(out)@ + json_bytes(JsonVal::Array(json_seq_view(items@)), ind@),
    decreases *items, 1int,
{
    let ghost pre = out@;
    let ghost iv = json_seq_view(items@);
    if items.len() == 0 {
        out.push(('[' as u8));
        out.push((']' as u8));
        proof {
            assert(out@ =~= pre + json_bytes(JsonVal::Array(iv), ind@));
        }
    } else {
        out.push(('[' as u8));
        out.push(('\n' as u8));
        let mut ind2 = ind.clone();
        ind2.push((' ' as u8));
        ind2.push((' ' as u8));
        proof {
            assert(ind2@ =~= ind@ + two_spaces());
        }
        let ghost base = out@;
        let mut i: usize = 0;
        proof {
            assert(iv.skip(0) =~= iv);
        }
        while i < items.len()
            invariant
                i <= items.len(),
                iv == json_seq_view(items@),
                ind2@ == ind@ + two_spaces(),
                base + arr_items(iv, ind2@, true) == out@ + arr_items(
                    iv.skip(i as int),
                    ind2@,
                    i == 0,
                ),
            decreases items.len() - i,
        {
            let ghost out0 = out@;
            proof {
                assert(iv.skip(i as int)[0] == iv[i as int]);
                assert(iv.skip(i as int).drop_first() =~= iv.skip(i + 1));
                assert(decreases_to!(*items => items@));
                assert(decreases_to!(items@ => items@[i as int]));
            }
            if i > 0 {
                out.push((',' as u8));
                out.push(('\n' as u8));
            }
            push_bytes(out, &ind2);
            write_json(&items[i], &ind2, out);
            proof {
                let sep: Seq<u8> = if i == 0 {
                    Seq::empty()
                } else {
                    seq![(',' as u8), ('\n' as u8)]
                };
                assert(out@ =~= out0 + sep + ind2@ + json_bytes(iv[i as int], ind2@));
                assert(out0 + (sep + ind2@ + json_bytes(iv[i as int], ind2@) + arr_items(
                    iv.skip(i + 1),
                    ind2@,
                    false,
                )) =~= (out0 + sep + ind2@ + json_bytes(iv[i as int], ind2@)) + arr_items(
                    iv.skip(i + 1),
                    ind2@,
                    false,
                ));
            }
            i += 1;
        }
        proof {
            assert(arr_items(iv.skip(items.len() as int), ind2@, false) =~= Seq::<u8>::empty());
            assert(out@ + Seq::<u8>::empty() =~= out@);
        }
        out.push(('\n' as u8));
        push_bytes(out, ind);
        out.push((']' as u8));
        proof {
            assert(out@ =~= pre + json_bytes(JsonVal::Array(iv), ind@));
        }
    }
}

/// Appends the pretty-printed bytes of an object, whose closing bracket
/// sits at indentation `ind`.
#[verifier::loop_isolation(false)]
#[verifier::rlimit(100)]
fn write_object(pairs: &Vec<(String, JsonValue)>, ind: &Vec<u8>, out: &mut Vec<u8>)
    ensures
        final(out)@ == old(out)@ + json_bytes(JsonVal::Object(json_pairs_view(pairs@)), ind@),
    decreases *pairs, 1int,
{
    let ghost pre = out@;
    let ghost pv = json_pairs_view(pairs@);
    if pairs.len() == 0 {
        out.push(('{' as u8));
        out.push(('}' as u8));
        proof {
            assert(out@ =~= pre + json_bytes(JsonVal::Object(pv), ind@));
        }
    } else {
        out.push(('{' as u8));
        out.push(('\n' as u8));
        let mut ind2 = ind.clone();
        ind2.push((' ' as u8));
        ind2.push((' ' as u8));
        proof {
            assert(ind2@ =~= ind@ + two_spaces());
        }
        let ghost base = out@;
        let mut i: usize = 0;
        proof {
            assert(pv.skip(0) =~= pv);
        }
        while i < pairs.len()
            invariant
                i <= pairs.len(),
                pv == json_pairs_view(pairs@),
                ind2@ == ind@ + two_spaces(),
                base + obj_items(pv, ind2@, true) == out@ + obj_items(
                    pv.skip(i as int),
                    ind2@,
                    i == 0,
                ),
            decreases pairs.len() - i,
        {
            let ghost out0 = out@;
            proof {
                assert(pv.skip(i as int)[0] == pv[i as int]);
                assert(pv.skip(i as int).drop_first() =~= pv.skip(i + 1));
                assert(decreases_to!(*pairs => pairs@));
                assert(decreases_to!(pairs@ => pairs@[i as int]));
                assert(decreases_to!(pairs@[i as int] => pairs@[i as int].1));
            }
            if i > 0 {
                out.push((',' as u8));
                out.push(('\n' as u8));
            }
            push_bytes(out, &ind2);
            out.push(('"' as u8));
            push_escaped(pairs[i].0.as_str(), out);
            out.push(('"' as u8));
            out.push((':' as u8));
            out.push((' ' as u8));
            write_json(&pairs[i].1, &ind2, out);
            proof {
                let sep: Seq<u8> = if i == 0 {
                    Seq::empty()
                } else {
                    seq![(',' as u8), ('\n' as u8)]
                };
                let entry = ind2@ + seq![('"' as u8)] + esc_str(pv[i as int].0) + seq![
                    ('"' as u8),
                    (':' as u8),
                    (' ' as u8),
                ] + json_bytes(pv[i as int].1, ind2@);
                assert(out@ =~= out0 + sep + entry);
                assert(out0 + (sep + entry + obj_items(pv.skip(i + 1), ind2@, false)) =~= (out0
                    + sep + entry) + obj_items(pv.skip(i + 1), ind2@, false));
            }
            i += 1;
        }
        proof {
            assert(obj_items(pv.skip(pairs.len() as int), ind2@, false) =~= Seq::<u8>::empty());
            assert(out@ + Seq::<u8>::empty() =~= out@);
        }
        out.push(('\n' as u8));
        push_bytes(out, ind);
        out.push(('}' as u8));
        proof {
            assert(out@ =~= pre + json_bytes(JsonVal::Object(pv), ind@));
        }
    }
}

/// The pretty-printed bytes of a whole value, starting at indentation zero.
pub fn to_pretty_bytes(v: &JsonValue) -> (out: Vec<u8>)
    ensures
        out@ == json_bytes(v@, Seq::empty()),
{
    let ind: Vec<u8> = Vec::new();
    let mut out: Vec<u8> = Vec::new();
    write_json(v, &ind, &mut out);
    proof {
        assert(Seq::<u8>::empty() + json_bytes(v@, Seq::empty()) =~= json_bytes(
            v@,
            Seq::empty(),
        ));
    }
    out
}

} // verus!
