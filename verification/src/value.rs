//! The value model: the tagged union that variables and expression results
//! hold, its mathematical model, and its canonical text rendering.
//!
//! A float value is carried as its IEEE 754 bit pattern (see `crate::float`).
//! Dictionaries are association lists in insertion order with unique keys,
//! which is what repeated `insert` into a hash map observably leaves behind.

use vstd::prelude::*;

use crate::float::{float_dec_of, float_display};
use crate::numtext::{int_text, int_to_chars};

verus! {

/// A value of the command language.
pub enum ParsedValue {
    Int(i32),
    Float(u64),
    Str(String),
    Array(Vec<ParsedValue>),
    Dict(Vec<(String, ParsedValue)>),
}

/// The mathematical model of a `ParsedValue`.
pub enum ValSpec {
    Int(int),
    Float(u64),
    Str(Seq<char>),
    Array(Seq<ValSpec>),
    Dict(Seq<(Seq<char>, ValSpec)>),
}

/// The model of a value: integers as `int`, text as character sequences,
/// collections as sequences of models.
pub open spec fn vmodel(v: ParsedValue) -> ValSpec
    decreases v,
{
    match v {
        ParsedValue::Int(i) => ValSpec::Int(i as int),
        ParsedValue::Float(bits) => ValSpec::Float(bits),
        ParsedValue::Str(s) => ValSpec::Str(s@),
        ParsedValue::Array(a) => ValSpec::Array(vmodel_seq(a@)),
        ParsedValue::Dict(d) => ValSpec::Dict(vmodel_pairs(d@)),
    }
}

pub open spec fn vmodel_seq(elems: Seq<ParsedValue>) -> Seq<ValSpec>
    decreases elems,
{
    if elems.len() == 0 {
        Seq::empty()
    } else {
        seq![vmodel(elems[0])] + vmodel_seq(elems.subrange(1, elems.len() as int))
    }
}

pub open spec fn vmodel_pairs(pairs: Seq<(String, ParsedValue)>) -> Seq<(Seq<char>, ValSpec)>
    decreases pairs,
{
    if pairs.len() == 0 {
        Seq::empty()
    } else {
        seq![(pairs[0].0@, vmodel(pairs[0].1))] + vmodel_pairs(
            pairs.subrange(1, pairs.len() as int),
        )
    }
}

pub broadcast proof fn lemma_vmodel_seq_len(elems: Seq<ParsedValue>)
    ensures
        (#[trigger] vmodel_seq(elems)).len() == elems.len(),
        forall|i: int| 0 <= i < elems.len() ==> vmodel_seq(elems)[i] == vmodel(#[trigger] elems[i]),
    decreases elems,
{
    if elems.len() > 0 {
        let rest = elems.subrange(1, elems.len() as int);
        lemma_vmodel_seq_len(rest);
        assert forall|i: int| 0 <= i < elems.len() implies vmodel_seq(elems)[i] == vmodel(
            #[trigger] elems[i],
        ) by {
            if i >= 1 {
                assert(rest[i - 1] == elems[i]);
            }
        }
    }
}

pub broadcast proof fn lemma_vmodel_pairs_len(pairs: Seq<(String, ParsedValue)>)
    ensures
        (#[trigger] vmodel_pairs(pairs)).len() == pairs.len(),
        forall|i: int|
            0 <= i < pairs.len() ==> vmodel_pairs(pairs)[i] == ((#[trigger] pairs[i]).0@, vmodel(
                pairs[i].1,
            )),
    decreases pairs,
{
    if pairs.len() > 0 {
        let rest = pairs.subrange(1, pairs.len() as int);
        lemma_vmodel_pairs_len(rest);
        assert forall|i: int| 0 <= i < pairs.len() implies vmodel_pairs(pairs)[i] == ((
        #[trigger] pairs[i]).0@, vmodel(pairs[i].1)) by {
            if i >= 1 {
                assert(rest[i - 1] == pairs[i]);
            }
        }
    }
}

/// The nested rendering of a value: what `value_to_string` prints, with
/// strings quoted, arrays as `[a, b]` and dictionaries as `{k: v}`.
pub open spec fn spec_value_text(m: ValSpec) -> Seq<char>
    decreases m, 0int,
{
    match m {
        ValSpec::Int(i) => int_text(i),
        ValSpec::Float(bits) => float_dec_of(bits),
        ValSpec::Str(s) => seq!['"'] + s + seq!['"'],
        ValSpec::Array(elems) => seq!['['] + spec_items_text(elems, 0) + seq![']'],
        ValSpec::Dict(pairs) => seq!['{'] + spec_pairs_text(pairs, 0) + seq!['}'],
    }
}

/// The elements from index i on, rendered and joined with ", ".
pub open spec fn spec_items_text(elems: Seq<ValSpec>, i: int) -> Seq<char>
    decreases elems, elems.len() - i,
{
    if i < 0 || i >= elems.len() {
        Seq::empty()
    } else if i == elems.len() - 1 {
        spec_value_text(elems[i])
    } else {
        spec_value_text(elems[i]) + seq![',', ' '] + spec_items_text(elems, i + 1)
    }
}

/// The pairs from index i on, rendered `key: value` and joined with ", ".
pub open spec fn spec_pairs_text(pairs: Seq<(Seq<char>, ValSpec)>, i: int) -> Seq<char>
    decreases pairs, pairs.len() - i,
{
    if i < 0 || i >= pairs.len() {
        Seq::empty()
    } else if i == pairs.len() - 1 {
        pairs[i].0 + seq![':', ' '] + spec_value_text(pairs[i].1)
    } else {
        pairs[i].0 + seq![':', ' '] + spec_value_text(pairs[i].1) + seq![',', ' ']
            + spec_pairs_text(pairs, i + 1)
    }
}

/// The top-level rendering: as the nested one, except that a string prints
/// its characters without quotes.
pub open spec fn spec_display_text(m: ValSpec) -> Seq<char> {
    match m {
        ValSpec::Str(s) => s,
        _ => spec_value_text(m),
    }
}

/// Renders a value in its nested form.
#[verifier::loop_isolation(false)]
pub fn value_chars(v: &ParsedValue) -> (r: Vec<char>)
    ensures
        r@ == spec_value_text(vmodel(*v)),
    decreases *v,
{
    match v {
        ParsedValue::Int(i) => int_to_chars(*i),
        ParsedValue::Float(bits) => float_display(*bits),
        ParsedValue::Str(s) => {
            let mut r: Vec<char> = Vec::new();
            r.push('"');
            let mut inner = crate::text::chars_of(s.as_str());
            r.append(&mut inner);
            r.push('"');
            assert(r@ =~= seq!['"'] + s@ + seq!['"']);
            r
        },
        ParsedValue::Array(elems) => {
            let ghost m = vmodel_seq(elems@);
            proof {
                lemma_vmodel_seq_len(elems@);
            }
            let mut r: Vec<char> = Vec::new();
            r.push('[');
            let n = elems.len();
            let mut i: usize = 0;
            let ghost mut done: Seq<char> = Seq::empty();
            while i < n
                invariant
                    0 <= i <= n,
                    r@ == seq!['['] + done,
                    spec_items_text(m, 0) == done + spec_items_text(m, i as int),
                decreases n - i,
            {
                proof {
                    assert(decreases_to!(*v => v->Array_0));
                    assert(decreases_to!(v->Array_0 => elems@));
                    assert(decreases_to!(elems@ => elems@[i as int]));
                }
                let mut piece = value_chars(&elems[i]);
                let ghost piece_text = piece@;
                r.append(&mut piece);
                if i + 1 < n {
                    r.push(',');
                    r.push(' ');
                    proof {
                        done = done + piece_text + seq![',', ' '];
                        assert(r@ =~= seq!['['] + done);
                        assert(spec_items_text(m, i as int) == spec_value_text(m[i as int]) + seq![
                            ',',
                            ' ',
                        ] + spec_items_text(m, i + 1));
                        assert(spec_items_text(m, 0) =~= done + spec_items_text(m, i + 1));
                    }
                } else {
                    proof {
                        done = done + piece_text;
                        assert(r@ =~= seq!['['] + done);
                        assert(spec_items_text(m, i as int) == spec_value_text(m[i as int]));
                        assert(spec_items_text(m, i + 1) =~= Seq::<char>::empty());
                        assert(spec_items_text(m, 0) =~= done + spec_items_text(m, i + 1));
                    }
                }
                i = i + 1;
            }
            r.push(']');
            proof {
                assert(spec_items_text(m, i as int) =~= Seq::<char>::empty());
                assert(spec_items_text(m, 0) =~= done);
                assert(r@ =~= seq!['['] + spec_items_text(m, 0) + seq![']']);
            }
            r
        },
        ParsedValue::Dict(pairs) => {
            let ghost m = vmodel_pairs(pairs@);
            proof {
                lemma_vmodel_pairs_len(pairs@);
            }
            let mut r: Vec<char> = Vec::new();
            r.push('{');
            let n = pairs.len();
            let mut i: usize = 0;
            let ghost mut done: Seq<char> = Seq::empty();
            while i < n
                invariant
                    0 <= i <= n,
                    r@ == seq!['{'] + done,
                    spec_pairs_text(m, 0) == done + spec_pairs_text(m, i as int),
                decreases n - i,
            {
                let pair = &pairs[i];
                let mut key = crate::text::chars_of(pair.0.as_str());
                r.append(&mut key);
                r.push(':');
                r.push(' ');
                proof {
                    assert(decreases_to!(*v => v->Dict_0));
                    assert(decreases_to!(v->Dict_0 => pairs@));
                    assert(decreases_to!(pairs@ => pairs@[i as int]));
                    assert(decreases_to!(pairs@[i as int] => pairs@[i as int].1));
                }
                let mut piece = value_chars(&pair.1);
                let ghost piece_text = piece@;
                r.append(&mut piece);
                let ghost rendered = m[i as int].0 + seq![':', ' '] + spec_value_text(
                    m[i as int].1,
                );
                if i + 1 < n {
                    r.push(',');
                    r.push(' ');
                    proof {
                        done = done + rendered + seq![',', ' '];
                        assert(r@ =~= seq!['{'] + done);
                        assert(spec_pairs_text(m, i as int) == rendered + seq![',', ' ']
                            + spec_pairs_text(m, i + 1));
                        assert(spec_pairs_text(m, 0) =~= done + spec_pairs_text(m, i + 1));
                    }
                } else {
                    proof {
                        done = done + rendered;
                        assert(r@ =~= seq!['{'] + done);
                        assert(spec_pairs_text(m, i as int) == rendered);
                        assert(spec_pairs_text(m, i + 1) =~= Seq::<char>::empty());
                        assert(spec_pairs_text(m, 0) =~= done + spec_pairs_text(m, i + 1));
                    }
                }
                i = i + 1;
            }
            r.push('}');
            proof {
                assert(spec_pairs_text(m, i as int) =~= Seq::<char>::empty());
                assert(spec_pairs_text(m, 0) =~= done);
                assert(r@ =~= seq!['{'] + spec_pairs_text(m, 0) + seq!['}']);
            }
            r
        },
    }
}

/// Renders a value in its nested form, strings quoted.
pub fn value_to_string(v: &ParsedValue) -> (r: String)
    ensures
        r@ == spec_value_text(vmodel(*v)),
{
    let chars = value_chars(v);
    crate::text::string_of(chars.as_slice())
}

/// Deep copy with the same model.
#[verifier::loop_isolation(false)]
pub fn clone_value(v: &ParsedValue) -> (r: ParsedValue)
    ensures
        vmodel(r) == vmodel(*v),
    decreases *v,
{
    match v {
        ParsedValue::Int(i) => ParsedValue::Int(*i),
        ParsedValue::Float(bits) => ParsedValue::Float(*bits),
        ParsedValue::Str(s) => ParsedValue::Str(clone_string(s)),
        ParsedValue::Array(elems) => {
            let mut out: Vec<ParsedValue> = Vec::new();
            let mut i: usize = 0;
            proof {
                lemma_vmodel_seq_len(elems@);
            }
            while i < elems.len()
                invariant
                    0 <= i <= elems@.len(),
                    vmodel_seq(out@) =~= vmodel_seq(elems@).subrange(0, i as int),
                    out@.len() == i,
                    vmodel_seq(elems@).len() == elems@.len(),
                    forall|j: int|
                        0 <= j < elems@.len() ==> vmodel_seq(elems@)[j] == vmodel(
                            #[trigger] elems@[j],
                        ),
                decreases elems@.len() - i,
            {
                let ghost out0 = out@;
                proof {
                    assert(decreases_to!(*v => v->Array_0));
                    assert(decreases_to!(v->Array_0 => elems@));
                    assert(decreases_to!(elems@ => elems@[i as int]));
                }
                let c = clone_value(&elems[i]);
                out.push(c);
                proof {
                    lemma_vmodel_seq_snoc(out0, c);
                    lemma_vmodel_seq_len(out@);
                    assert(vmodel_seq(out@) =~= vmodel_seq(elems@).subrange(0, i + 1));
                }
                i = i + 1;
            }
            proof {
                assert(vmodel_seq(elems@).subrange(0, elems@.len() as int) =~= vmodel_seq(elems@));
            }
            ParsedValue::Array(out)
        },
        ParsedValue::Dict(pairs) => {
            let mut out: Vec<(String, ParsedValue)> = Vec::new();
            let mut i: usize = 0;
            proof {
                lemma_vmodel_pairs_len(pairs@);
            }
            while i < pairs.len()
                invariant
                    0 <= i <= pairs@.len(),
                    vmodel_pairs(out@) =~= vmodel_pairs(pairs@).subrange(0, i as int),
                    out@.len() == i,
                    vmodel_pairs(pairs@).len() == pairs@.len(),
                    forall|j: int|
                        0 <= j < pairs@.len() ==> vmodel_pairs(pairs@)[j] == ((
                        #[trigger] pairs@[j]).0@, vmodel(pairs@[j].1)),
                decreases pairs@.len() - i,
            {
                let ghost out0 = out@;
                let pair = &pairs[i];
                let k = clone_string(&pair.0);
                proof {
                    assert(decreases_to!(*v => v->Dict_0));
                    assert(decreases_to!(v->Dict_0 => pairs@));
                    assert(decreases_to!(pairs@ => pairs@[i as int]));
                    assert(decreases_to!(pairs@[i as int] => pairs@[i as int].1));
                }
                let c = clone_value(&pair.1);
                out.push((k, c));
                proof {
                    lemma_vmodel_pairs_snoc(out0, (k, c));
                    lemma_vmodel_pairs_len(out@);
                    assert(vmodel_pairs(out@) =~= vmodel_pairs(pairs@).subrange(0, i + 1));
                }
                i = i + 1;
            }
            proof {
                assert(vmodel_pairs(pairs@).subrange(0, pairs@.len() as int) =~= vmodel_pairs(
                    pairs@,
                ));
            }
            ParsedValue::Dict(out)
        },
    }
}

pub fn clone_string(s: &String) -> (r: String)
    ensures
        r@ == s@,
{
    s.clone()
}

pub proof fn lemma_vmodel_seq_snoc(elems: Seq<ParsedValue>, v: ParsedValue)
    ensures
        vmodel_seq(elems.push(v)) == vmodel_seq(elems) + seq![vmodel(v)],
{
    lemma_vmodel_seq_len(elems.push(v));
    lemma_vmodel_seq_len(elems);
    assert forall|i: int| 0 <= i < elems.len() + 1 implies #[trigger] vmodel_seq(elems.push(v))[i]
        == (vmodel_seq(elems) + seq![vmodel(v)])[i] by {
        if i < elems.len() {
            assert(elems.push(v)[i] == elems[i]);
        } else {
            assert(elems.push(v)[i] == v);
        }
    }
    assert(vmodel_seq(elems.push(v)) =~= vmodel_seq(elems) + seq![vmodel(v)]);
}

pub proof fn lemma_vmodel_pairs_snoc(pairs: Seq<(String, ParsedValue)>, p: (String, ParsedValue))
    ensures
        vmodel_pairs(pairs.push(p)) == vmodel_pairs(pairs) + seq![(p.0@, vmodel(p.1))],
{
    lemma_vmodel_pairs_len(pairs.push(p));
    lemma_vmodel_pairs_len(pairs);
    assert forall|i: int| 0 <= i < pairs.len() + 1 implies #[trigger] vmodel_pairs(pairs.push(p))[i]
        == (vmodel_pairs(pairs) + seq![(p.0@, vmodel(p.1))])[i] by {
        if i < pairs.len() {
            assert(pairs.push(p)[i] == pairs[i]);
        } else {
            assert(pairs.push(p)[i] == p);
        }
    }
    assert(vmodel_pairs(pairs.push(p)) =~= vmodel_pairs(pairs) + seq![(p.0@, vmodel(p.1))]);
}

} // verus!
