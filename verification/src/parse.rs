//! Literal parsing: the total function from raw text to a value.
//!
//! The trimmed text is read as an array `[...]`, a dictionary `{...}`, an
//! integer, a quoted string (which keeps its text, loses one layer of quotes
//! and is never read as a number), a float, or a plain string, in that order. Splitting a bracketed body into
//! elements honours nested brackets and quoted spans, so commas inside them
//! do not separate elements.

use vstd::prelude::*;

use crate::float::{float_from_dec, float_parse};
use crate::numtext::{parse_i32_chars, parse_i32_spec};
use crate::text::{chars_of, lemma_trim_len, spec_trim, string_of, trim_chars};
use crate::value::{
    lemma_vmodel_pairs_len, lemma_vmodel_seq_len, vmodel, vmodel_pairs, vmodel_seq, ParsedValue,
    ValSpec,
};

verus! {

/// The pieces of s from index i on, split at top-level commas: a comma
/// separates only where the bracket depth is zero and no quote is open.
/// `start` marks where the piece in progress began.
pub open spec fn spec_split_raw(
    s: Seq<char>,
    i: int,
    start: int,
    depth: int,
    inq: bool,
    qc: char,
) -> Seq<Seq<char>>
    decreases s.len() - i,
{
    if i >= s.len() {
        if start < s.len() {
            seq![s.subrange(start, s.len() as int)]
        } else {
            Seq::empty()
        }
    } else {
        let c = s[i];
        if inq {
            if c == qc {
                spec_split_raw(s, i + 1, start, depth, false, qc)
            } else {
                spec_split_raw(s, i + 1, start, depth, true, qc)
            }
        } else if c == '"' || c == '\'' {
            spec_split_raw(s, i + 1, start, depth, true, c)
        } else if c == '[' || c == '{' {
            spec_split_raw(s, i + 1, start, depth + 1, false, qc)
        } else if c == ']' || c == '}' {
            spec_split_raw(s, i + 1, start, depth - 1, false, qc)
        } else if c == ',' && depth == 0 {
            seq![s.subrange(start, i)] + spec_split_raw(s, i + 1, i + 1, depth, false, qc)
        } else {
            spec_split_raw(s, i + 1, start, depth, false, qc)
        }
    }
}

/// The top-level pieces of s, each trimmed.
pub open spec fn spec_split_elements(s: Seq<char>) -> Seq<Seq<char>> {
    spec_split_raw(s, 0, 0, 0, false, '\u{0}').map_values(|p: Seq<char>| spec_trim(p))
}

proof fn lemma_split_raw_len(s: Seq<char>, i: int, start: int, depth: int, inq: bool, qc: char)
    requires
        0 <= start <= i <= s.len(),
    ensures
        forall|k: int|
            0 <= k < spec_split_raw(s, i, start, depth, inq, qc).len() ==> (#[trigger] spec_split_raw(
                s,
                i,
                start,
                depth,
                inq,
                qc,
            )[k]).len() <= s.len() - start,
    decreases s.len() - i,
{
    if i < s.len() {
        let c = s[i];
        let r0 = spec_split_raw(s, i, start, depth, inq, qc);
        if !inq && c == ',' && depth == 0 {
            lemma_split_raw_len(s, i + 1, i + 1, depth, false, qc);
            let tail = spec_split_raw(s, i + 1, i + 1, depth, false, qc);
            assert(r0 == seq![s.subrange(start, i)] + tail);
            assert forall|k: int| 0 <= k < r0.len() implies (#[trigger] r0[k]).len() <= s.len()
                - start by {
                if k == 0 {
                    assert(r0[k] == s.subrange(start, i));
                } else {
                    assert(r0[k] == tail[k - 1]);
                    assert(tail[k - 1].len() <= s.len() - (i + 1));
                }
            }
        } else {
            let d2 = if inq {
                depth
            } else if c == '[' || c == '{' {
                depth + 1
            } else if c == ']' || c == '}' {
                depth - 1
            } else {
                depth
            };
            let q2 = if inq {
                !(c == qc)
            } else {
                c == '"' || c == '\''
            };
            let c2 = if !inq && (c == '"' || c == '\'') {
                c
            } else {
                qc
            };
            lemma_split_raw_len(s, i + 1, start, d2, q2, c2);
            let r1 = spec_split_raw(s, i + 1, start, d2, q2, c2);
            assert(r0 == r1);
            assert forall|k: int| 0 <= k < r0.len() implies (#[trigger] r0[k]).len() <= s.len()
                - start by {
                assert(r0[k] == r1[k]);
            }
        }
    }
}

/// Every split element is no longer than the text that was split.
pub proof fn lemma_split_elements_len(s: Seq<char>)
    ensures
        forall|k: int|
            0 <= k < spec_split_elements(s).len() ==> (#[trigger] spec_split_elements(
                s,
            )[k]).len() <= s.len(),
{
    lemma_split_raw_len(s, 0, 0, 0, false, '\u{0}');
    let raw = spec_split_raw(s, 0, 0, 0, false, '\u{0}');
    assert forall|k: int| 0 <= k < spec_split_elements(s).len() implies (
    #[trigger] spec_split_elements(s)[k]).len() <= s.len() by {
        assert(spec_split_elements(s)[k] == spec_trim(raw[k]));
        lemma_trim_len(raw[k]);
    }
}

/// Copies v[a..b].
pub fn vec_subrange(v: &Vec<char>, a: usize, b: usize) -> (r: Vec<char>)
    requires
        a <= b <= v@.len(),
    ensures
        r@ == v@.subrange(a as int, b as int),
{
    let mut r: Vec<char> = Vec::new();
    let mut i: usize = a;
    while i < b
        invariant
            a <= i <= b <= v@.len(),
            r@ == v@.subrange(a as int, i as int),
        decreases b - i,
    {
        let ghost r0 = r@;
        r.push(v[i]);
        proof {
            assert(r0.push(v@[i as int]) =~= v@.subrange(a as int, i + 1));
        }
        i = i + 1;
    }
    r
}

/// Splits at top-level commas and trims each piece, as the elements of an
/// array literal or the pairs of a dictionary literal are found.
fn split_top_level(s: &Vec<char>) -> (r: Vec<Vec<char>>)
    ensures
        r@.map_values(|p: Vec<char>| p@) == spec_split_elements(s@),
{
    let ghost whole = spec_split_raw(s@, 0, 0, 0, false, '\u{0}');
    let mut out: Vec<Vec<char>> = Vec::new();
    let ghost mut done: Seq<Seq<char>> = Seq::empty();
    let mut cur: Vec<char> = Vec::new();
    let ghost mut start: int = 0;
    let mut depth: i128 = 0;
    let mut inq: bool = false;
    let mut qc: char = '\u{0}';
    let mut i: usize = 0;
    while i < s.len()
        invariant
            0 <= start <= i <= s@.len(),
            -(i as int) <= depth <= i as int,
            cur@ == s@.subrange(start, i as int),
            whole == done + spec_split_raw(s@, i as int, start, depth as int, inq, qc),
            out@.map_values(|p: Vec<char>| p@) == done.map_values(|p: Seq<char>| spec_trim(p)),
        decreases s@.len() - i,
    {
        let c = s[i];
        let ghost done0 = done;
        let ghost out0 = out@;
        if inq {
            if c == qc {
                inq = false;
            }
            cur.push(c);
        } else if c == '"' || c == '\'' {
            inq = true;
            qc = c;
            cur.push(c);
        } else if c == '[' || c == '{' {
            depth = depth + 1;
            cur.push(c);
        } else if c == ']' || c == '}' {
            depth = depth - 1;
            cur.push(c);
        } else if c == ',' && depth == 0 {
            let piece = trim_chars(&cur);
            out.push(piece);
            cur = Vec::new();
            proof {
                let start0 = start;
                done = done0.push(s@.subrange(start0, i as int));
                start = i + 1;
                assert(done.map_values(|p: Seq<char>| spec_trim(p)) =~= done0.map_values(
                    |p: Seq<char>| spec_trim(p),
                ).push(spec_trim(s@.subrange(start0, i as int))));
                assert(out@.map_values(|p: Vec<char>| p@) =~= out0.map_values(|p: Vec<char>| p@)
                    .push(spec_trim(s@.subrange(start0, i as int))));
                assert(spec_split_raw(s@, i as int, start0, depth as int, inq, qc) == seq![
                    s@.subrange(start0, i as int),
                ] + spec_split_raw(s@, i + 1, i + 1, depth as int, inq, qc));
                assert(whole =~= done + spec_split_raw(s@, i + 1, i + 1, depth as int, inq, qc));
            }
        } else {
            cur.push(c);
        }
        proof {
            assert(cur@ =~= s@.subrange(start, i + 1));
        }
        i = i + 1;
    }
    if cur.len() > 0 {
        let piece = trim_chars(&cur);
        let ghost out0 = out@;
        out.push(piece);
        proof {
            let ghost done0 = done;
            done = done.push(s@.subrange(start, s@.len() as int));
            assert(done.map_values(|p: Seq<char>| spec_trim(p)) =~= done0.map_values(
                |p: Seq<char>| spec_trim(p),
            ).push(spec_trim(s@.subrange(start, s@.len() as int))));
            assert(out@.map_values(|p: Vec<char>| p@) =~= out0.map_values(|p: Vec<char>| p@).push(
                spec_trim(s@.subrange(start, s@.len() as int)),
            ));
            assert(spec_split_raw(s@, s@.len() as int, start, depth as int, inq, qc) =~= seq![
                s@.subrange(start, s@.len() as int),
            ]);
            assert(whole =~= done);
            assert(out@.map_values(|p: Vec<char>| p@) =~= done.map_values(
                |p: Seq<char>| spec_trim(p),
            ));
        }
    } else {
        proof {
            assert(start == s@.len() as int);
            assert(spec_split_raw(s@, s@.len() as int, start, depth as int, inq, qc)
                =~= Seq::<Seq<char>>::empty());
            assert(whole =~= done);
        }
    }
    proof {
        assert(out@.map_values(|p: Vec<char>| p@) =~= spec_split_elements(s@));
    }
    out
}

/// Splits an array literal's body into its element texts.
pub fn split_array_elements(s: &str) -> (r: Vec<String>)
    ensures
        r@.map_values(|t: String| t@) == spec_split_elements(s@),
{
    split_pieces_to_strings(s)
}

/// Splits a dictionary literal's body into its pair texts; the splitting
/// rule is the same one that array elements use.
pub fn split_dict_pairs(s: &str) -> (r: Vec<String>)
    ensures
        r@.map_values(|t: String| t@) == spec_split_elements(s@),
{
    split_pieces_to_strings(s)
}

fn split_pieces_to_strings(s: &str) -> (r: Vec<String>)
    ensures
        r@.map_values(|t: String| t@) == spec_split_elements(s@),
{
    let cs = chars_of(s);
    let pieces = split_top_level(&cs);
    let mut r: Vec<String> = Vec::new();
    let mut i: usize = 0;
    let ghost m = spec_split_elements(s@);
    while i < pieces.len()
        invariant
            0 <= i <= pieces@.len(),
            pieces@.map_values(|p: Vec<char>| p@) == m,
            r@.len() == i,
            m.len() == pieces@.len(),
            r@.map_values(|t: String| t@) == m.subrange(0, i as int),
        decreases pieces@.len() - i,
    {
        let ghost r0 = r@;
        let t = string_of(pieces[i].as_slice());
        r.push(t);
        proof {
            assert(pieces@.map_values(|p: Vec<char>| p@)[i as int] == pieces@[i as int]@);
            assert forall|k: int| 0 <= k < i + 1 implies (#[trigger] r@[k])@ == m[k] by {
                if k < i {
                    assert(r@[k] == r0[k]);
                    assert(r0.map_values(|t: String| t@)[k] == m.subrange(0, i as int)[k]);
                } else {
                    assert(r@[k] == t);
                }
            }
            assert(r@.map_values(|t: String| t@) =~= m.subrange(0, i + 1));
        }
        i = i + 1;
    }
    proof {
        assert(m.subrange(0, m.len() as int) =~= m);
        assert(pieces@.map_values(|p: Vec<char>| p@).len() == pieces@.len());
    }
    r
}

/// The first index of a colon in s at or after i, or -1.
pub open spec fn spec_find_colon(s: Seq<char>, i: int) -> int
    decreases s.len() - i,
{
    if i < 0 || i >= s.len() {
        -1
    } else if s[i] == ':' {
        i
    } else {
        spec_find_colon(s, i + 1)
    }
}

pub proof fn lemma_find_colon(s: Seq<char>, i: int)
    requires
        0 <= i <= s.len(),
    ensures
        ({
            let j = spec_find_colon(s, i);
            &&& (j == -1 ==> forall|n: int| i <= n < s.len() ==> s[n] != ':')
            &&& (j != -1 ==> i <= j < s.len() && s[j] == ':' && (forall|n: int|
                i <= n < j ==> s[n] != ':'))
        }),
    decreases s.len() - i,
{
    if i < s.len() && s[i] != ':' {
        lemma_find_colon(s, i + 1);
    }
}

/// The first index in d whose key is k, or -1.
pub open spec fn spec_key_at(d: Seq<(Seq<char>, ValSpec)>, k: Seq<char>) -> int
    decreases d.len(),
{
    if d.len() == 0 {
        -1
    } else if d[0].0 == k {
        0
    } else {
        let r = spec_key_at(d.subrange(1, d.len() as int), k);
        if r < 0 {
            -1
        } else {
            r + 1
        }
    }
}

pub proof fn lemma_key_at(d: Seq<(Seq<char>, ValSpec)>, k: Seq<char>)
    ensures
        ({
            let j = spec_key_at(d, k);
            &&& (j == -1 ==> forall|n: int| 0 <= n < d.len() ==> (#[trigger] d[n]).0 != k)
            &&& (j != -1 ==> 0 <= j < d.len() && d[j].0 == k && forall|n: int|
                0 <= n < j ==> (#[trigger] d[n]).0 != k)
        }),
    decreases d.len(),
{
    if d.len() > 0 && d[0].0 != k {
        let rest = d.subrange(1, d.len() as int);
        lemma_key_at(rest, k);
        assert(forall|n: int| 1 <= n < d.len() ==> d[n] == #[trigger] rest[n - 1]);
        let j = spec_key_at(d, k);
        if j == -1 {
            assert forall|n: int| 0 <= n < d.len() implies (#[trigger] d[n]).0 != k by {
                if n >= 1 {
                    assert(rest[n - 1].0 != k);
                }
            }
        } else {
            assert forall|n: int| 0 <= n < j implies (#[trigger] d[n]).0 != k by {
                if n >= 1 {
                    assert(rest[n - 1].0 != k);
                }
            }
        }
    }
}

/// What inserting into a dictionary does: replaces the value at the first
/// occurrence of the key, or appends a new pair.
pub open spec fn spec_dict_update(
    d: Seq<(Seq<char>, ValSpec)>,
    k: Seq<char>,
    v: ValSpec,
) -> Seq<(Seq<char>, ValSpec)> {
    let j = spec_key_at(d, k);
    if j < 0 {
        d.push((k, v))
    } else {
        d.update(j, (k, v))
    }
}

/// Inserts a pair, overwriting the value where the key is already present,
/// as a hash map's `insert` would.
pub fn dict_update(d: &mut Vec<(String, ParsedValue)>, k: String, v: ParsedValue)
    ensures
        vmodel_pairs(final(d)@) == spec_dict_update(vmodel_pairs(old(d)@), k@, vmodel(v)),
{
    let ghost m = vmodel_pairs(d@);
    proof {
        lemma_vmodel_pairs_len(d@);
        lemma_key_at(m, k@);
    }
    let mut i: usize = 0;
    while i < d.len()
        invariant
            0 <= i <= d@.len(),
            m == vmodel_pairs(d@),
            d@ == old(d)@,
            m.len() == d@.len(),
            forall|j: int| 0 <= j < d@.len() ==> m[j] == ((#[trigger] d@[j]).0@, vmodel(d@[j].1)),
            forall|n: int| 0 <= n < i ==> (#[trigger] m[n]).0 != k@,
        decreases d@.len() - i,
    {
        if substr_eq(&d[i].0, &k) {
            proof {
                lemma_key_at(m, k@);
                assert(m[i as int].0 == k@);
                let j = spec_key_at(m, k@);
                if j == -1 {
                    assert(m[i as int].0 != k@);
                } else {
                    if j < i as int {
                        assert(m[j].0 != k@);
                    }
                    if j > i as int {
                        assert(m[i as int].0 != k@);
                    }
                }
                assert(spec_key_at(m, k@) == i as int);
            }
            let ghost d_before = d@;
            d[i] = (k, v);
            proof {
                assert(d@ =~= d_before.update(i as int, (k, v)));
                lemma_vmodel_pairs_len(d@);
                assert forall|n: int| 0 <= n < m.len() implies #[trigger] vmodel_pairs(d@)[n]
                    == spec_dict_update(m, k@, vmodel(v))[n] by {
                    if n != i as int {
                        assert(d@[n] == d_before[n]);
                        assert(m[n] == ((d_before[n]).0@, vmodel(d_before[n].1)));
                        assert(spec_dict_update(m, k@, vmodel(v))[n] == m[n]);
                    } else {
                        assert(d@[n] == (k, v));
                        assert(spec_dict_update(m, k@, vmodel(v))[n] == (k@, vmodel(v)));
                    }
                    assert(vmodel_pairs(d@)[n] == ((d@[n]).0@, vmodel(d@[n].1)));
                }
                assert(vmodel_pairs(d@) =~= spec_dict_update(m, k@, vmodel(v)));
            }
            return ;
        }
        i = i + 1;
    }
    proof {
        lemma_key_at(m, k@);
        let j = spec_key_at(m, k@);
        if j != -1 {
            assert(m[j].0 != k@);
        }
        assert(spec_key_at(m, k@) == -1);
    }
    let ghost d0 = d@;
    d.push((k, v));
    proof {
        crate::value::lemma_vmodel_pairs_snoc(d0, (k, v));
        assert(vmodel_pairs(d@) =~= spec_dict_update(m, k@, vmodel(v)));
    }
}

/// Whether two strings hold the same text.
pub fn substr_eq(a: &String, b: &String) -> (r: bool)
    ensures
        r == (a@ == b@),
{
    a.eq(b)
}

/// The value of the literal text, parsed as `parse_value` parses it. Never
/// fails: text that is no array, dictionary or number is a string.
pub open spec fn spec_parse_value(s: Seq<char>) -> ValSpec
    decreases s.len(), 1int,
    via spec_parse_value_dec
{
    let t = spec_trim(s);
    if t.len() >= 2 && t[0] == '[' && t[t.len() - 1] == ']' {
        let inner = t.subrange(1, t.len() - 1);
        ValSpec::Array(spec_parse_items(spec_split_elements(inner), 0, inner.len() as int + 1))
    } else if t.len() >= 2 && t[0] == '{' && t[t.len() - 1] == '}' {
        let inner = t.subrange(1, t.len() - 1);
        ValSpec::Dict(
            spec_parse_pairs(spec_split_elements(inner), 0, inner.len() as int + 1, Seq::empty()),
        )
    } else if parse_i32_spec(t) is Some {
        ValSpec::Int(parse_i32_spec(t)->0 as int)
    } else if t.len() >= 2 && t[0] == '"' && t[t.len() - 1] == '"' {
        ValSpec::Str(t.subrange(1, t.len() - 1))
    } else if t.len() >= 2 && t[0] == '\'' && t[t.len() - 1] == '\'' {
        ValSpec::Str(t.subrange(1, t.len() - 1))
    } else if float_from_dec(t) is Some {
        ValSpec::Float(float_from_dec(t)->0)
    } else {
        ValSpec::Str(t)
    }
}

#[via_fn]
proof fn spec_parse_value_dec(s: Seq<char>) {
    lemma_trim_len(s);
}

/// The parsed non-empty elements from index i on. `bound` exceeds every
/// element's length, which bounds the recursion into `spec_parse_value`.
pub open spec fn spec_parse_items(pieces: Seq<Seq<char>>, i: int, bound: int) -> Seq<ValSpec>
    decreases bound, pieces.len() - i,
    when forall|k: int| 0 <= k < pieces.len() ==> (#[trigger] pieces[k]).len() < bound
{
    if i < 0 || i >= pieces.len() {
        Seq::empty()
    } else if pieces[i].len() == 0 {
        spec_parse_items(pieces, i + 1, bound)
    } else {
        seq![spec_parse_value(pieces[i])] + spec_parse_items(pieces, i + 1, bound)
    }
}

/// The dictionary built from the pair texts from index i on, over the pairs
/// already in acc: a pair without a colon is skipped, the rest are split at
/// the first colon and inserted in order.
pub open spec fn spec_parse_pairs(
    pieces: Seq<Seq<char>>,
    i: int,
    bound: int,
    acc: Seq<(Seq<char>, ValSpec)>,
) -> Seq<(Seq<char>, ValSpec)>
    decreases bound, pieces.len() - i,
    when forall|k: int| 0 <= k < pieces.len() ==> (#[trigger] pieces[k]).len() < bound
    via spec_parse_pairs_dec
{
    if i < 0 || i >= pieces.len() {
        acc
    } else {
        let p = pieces[i];
        let ci = spec_find_colon(p, 0);
        if ci < 0 {
            spec_parse_pairs(pieces, i + 1, bound, acc)
        } else {
            let k = spec_trim(p.subrange(0, ci));
            let vt = spec_trim(p.subrange(ci + 1, p.len() as int));
            spec_parse_pairs(pieces, i + 1, bound, spec_dict_update(acc, k, spec_parse_value(vt)))
        }
    }
}

#[via_fn]
proof fn spec_parse_pairs_dec(
    pieces: Seq<Seq<char>>,
    i: int,
    bound: int,
    acc: Seq<(Seq<char>, ValSpec)>,
) {
    if 0 <= i < pieces.len() {
        let p = pieces[i];
        lemma_find_colon(p, 0);
        let ci = spec_find_colon(p, 0);
        if ci >= 0 {
            lemma_trim_len(p.subrange(ci + 1, p.len() as int));
        }
    }
}

/// Parses a literal into a value; total, and exactly `spec_parse_value`.
pub fn parse_value(raw: &str) -> (r: ParsedValue)
    ensures
        vmodel(r) == spec_parse_value(raw@),
{
    let cs = chars_of(raw);
    parse_value_chars(&cs)
}

fn parse_value_chars(s: &Vec<char>) -> (r: ParsedValue)
    ensures
        vmodel(r) == spec_parse_value(s@),
    decreases s@.len(),
{
    proof {
        lemma_trim_len(s@);
    }
    let t = trim_chars(s);
    let n = t.len();
    if n >= 2 && t[0] == '[' && t[n - 1] == ']' {
        let inner = vec_subrange(&t, 1, n - 1);
        let ghost piecesm = spec_split_elements(inner@);
        let ghost bound = inner@.len() as int + 1;
        proof {
            lemma_split_elements_len(inner@);
        }
        let pieces = split_top_level(&inner);
        let mut out: Vec<ParsedValue> = Vec::new();
        let mut i: usize = 0;
        while i < pieces.len()
            invariant
                0 <= i <= pieces@.len(),
                pieces@.map_values(|p: Vec<char>| p@) == piecesm,
                piecesm.len() == pieces@.len(),
                bound == inner@.len() as int + 1,
                inner@.len() + 2 <= s@.len(),
                forall|k: int| 0 <= k < piecesm.len() ==> (#[trigger] piecesm[k]).len() < bound,
                spec_parse_items(piecesm, 0, bound) == vmodel_seq(out@) + spec_parse_items(
                    piecesm,
                    i as int,
                    bound,
                ),
            decreases pieces@.len() - i,
        {
            proof {
                assert(pieces@.map_values(|p: Vec<char>| p@)[i as int] == pieces@[i as int]@);
            }
            let p = &pieces[i];
            if p.len() > 0 {
                let ghost out0 = out@;
                assert(p@.len() < bound);
                let c = parse_value_chars(p);
                out.push(c);
                proof {
                    crate::value::lemma_vmodel_seq_snoc(out0, c);
                    assert(spec_parse_items(piecesm, i as int, bound) == seq![
                        spec_parse_value(piecesm[i as int]),
                    ] + spec_parse_items(piecesm, i + 1, bound));
                    assert(vmodel_seq(out@) =~= vmodel_seq(out0) + seq![vmodel(c)]);
                    assert(spec_parse_items(piecesm, 0, bound) =~= vmodel_seq(out@)
                        + spec_parse_items(piecesm, i + 1, bound));
                }
            } else {
                proof {
                    assert(spec_parse_items(piecesm, i as int, bound) == spec_parse_items(
                        piecesm,
                        i + 1,
                        bound,
                    ));
                }
            }
            i = i + 1;
        }
        proof {
            assert(spec_parse_items(piecesm, pieces@.len() as int, bound)
                =~= Seq::<ValSpec>::empty());
            assert(vmodel_seq(out@) =~= spec_parse_items(piecesm, 0, bound));
        }
        ParsedValue::Array(out)
    } else if n >= 2 && t[0] == '{' && t[n - 1] == '}' {
        let inner = vec_subrange(&t, 1, n - 1);
        let ghost piecesm = spec_split_elements(inner@);
        let ghost bound = inner@.len() as int + 1;
        proof {
            lemma_split_elements_len(inner@);
        }
        let pieces = split_top_level(&inner);
        let mut out: Vec<(String, ParsedValue)> = Vec::new();
        let mut i: usize = 0;
        proof {
            assert(vmodel_pairs(out@) =~= Seq::<(Seq<char>, ValSpec)>::empty());
        }
        while i < pieces.len()
            invariant
                0 <= i <= pieces@.len(),
                pieces@.map_values(|p: Vec<char>| p@) == piecesm,
                piecesm.len() == pieces@.len(),
                bound == inner@.len() as int + 1,
                inner@.len() + 2 <= s@.len(),
                forall|k: int| 0 <= k < piecesm.len() ==> (#[trigger] piecesm[k]).len() < bound,
                spec_parse_pairs(piecesm, 0, bound, Seq::empty()) == spec_parse_pairs(
                    piecesm,
                    i as int,
                    bound,
                    vmodel_pairs(out@),
                ),
            decreases pieces@.len() - i,
        {
            proof {
                assert(pieces@.map_values(|p: Vec<char>| p@)[i as int] == pieces@[i as int]@);
            }
            let p = &pieces[i];
            match find_colon(p) {
                None => {
                    proof {
                        assert(spec_parse_pairs(piecesm, i as int, bound, vmodel_pairs(out@))
                            == spec_parse_pairs(piecesm, i + 1, bound, vmodel_pairs(out@)));
                    }
                },
                Some(ci) => {
                    let plen = p.len();
                    let key_part = vec_subrange(p, 0, ci);
                    let val_part = vec_subrange(p, ci + 1, plen);
                    let key_trimmed = trim_chars(&key_part);
                    let val_trimmed = trim_chars(&val_part);
                    proof {
                        lemma_trim_len(val_part@);
                        assert(p@.len() < bound);
                        assert(val_trimmed@.len() < s@.len());
                    }
                    let key = string_of(key_trimmed.as_slice());
                    let v = parse_value_chars(&val_trimmed);
                    let ghost out_model0 = vmodel_pairs(out@);
                    dict_update(&mut out, key, v);
                    proof {
                        assert(spec_parse_pairs(piecesm, i as int, bound, out_model0)
                            == spec_parse_pairs(
                            piecesm,
                            i + 1,
                            bound,
                            spec_dict_update(
                                out_model0,
                                spec_trim(piecesm[i as int].subrange(0, ci as int)),
                                spec_parse_value(
                                    spec_trim(
                                        piecesm[i as int].subrange(
                                            ci + 1,
                                            piecesm[i as int].len() as int,
                                        ),
                                    ),
                                ),
                            ),
                        ));
                    }
                },
            }
            i = i + 1;
        }
        proof {
            assert(spec_parse_pairs(piecesm, pieces@.len() as int, bound, vmodel_pairs(out@))
                == vmodel_pairs(out@));
        }
        ParsedValue::Dict(out)
    } else {
        match parse_i32_chars(&t) {
            Some(v) => ParsedValue::Int(v),
            None => {
                if n >= 2 && t[0] == '"' && t[n - 1] == '"' {
                    let innerq = vec_subrange(&t, 1, n - 1);
                    ParsedValue::Str(string_of(innerq.as_slice()))
                } else if n >= 2 && t[0] == '\'' && t[n - 1] == '\'' {
                    let innerq = vec_subrange(&t, 1, n - 1);
                    ParsedValue::Str(string_of(innerq.as_slice()))
                } else {
                    match float_parse(t.as_slice()) {
                        Some(bits) => ParsedValue::Float(bits),
                        None => ParsedValue::Str(string_of(t.as_slice())),
                    }
                }
            },
        }
    }
}

/// Finds the first colon, as `split_once(':')` locates the split point.
pub fn find_colon(p: &Vec<char>) -> (r: Option<usize>)
    ensures
        ({
            let j = spec_find_colon(p@, 0);
            match r {
                Some(ci) => j == ci as int && ci < p@.len(),
                None => j == -1,
            }
        }),
{
    proof {
        lemma_find_colon(p@, 0);
    }
    let mut i: usize = 0;
    while i < p.len()
        invariant
            0 <= i <= p@.len(),
            forall|n: int| 0 <= n < i ==> p@[n] != ':',
            spec_find_colon(p@, 0) == spec_find_colon(p@, i as int),
        decreases p@.len() - i,
    {
        if p[i] == ':' {
            return Some(i);
        }
        i = i + 1;
    }
    None
}


/// A quoted literal is read as a string: the quotes come off and the text
/// inside stays text, even where it looks like a number.
pub proof fn lemma_quoted_literal_is_string(inner: Seq<char>)
    ensures
        spec_parse_value(seq!['"'] + inner + seq!['"']) == ValSpec::Str(inner),
{
    let s = seq!['"'] + inner + seq!['"'];
    assert(s.len() >= 2);
    assert(s[0] == '"');
    assert(s[s.len() - 1] == '"');
    crate::text::lemma_trim_noop(s);
    let t = spec_trim(s);
    assert(t == s);
    // no sign or digit opens the text, so the number parses fail
    assert(parse_i32_spec(t) is None) by {
        if crate::numtext::parse_int_text(t) is Some {
            if t[0] == '-' || t[0] == '+' {
            } else {
                assert(crate::numtext::all_dec_digits(t));
                assert(crate::numtext::is_dec_digit(t[0]));
            }
        }
    }
    assert(t.subrange(1, t.len() - 1) =~= inner);
}

/// Unquoted numeric text is read as a number, never as a string: the int
/// branch fires before any quote stripping could.
pub proof fn lemma_numeric_literal_is_int(s: Seq<char>)
    requires
        parse_i32_spec(s) is Some,
    ensures
        spec_parse_value(s) == ValSpec::Int(parse_i32_spec(s)->0 as int),
{
    // the text is a sign and digits, so it trims to itself and opens with
    // no bracket
    assert(s.len() > 0);
    if s[0] == '-' || s[0] == '+' {
        let ds = s.subrange(1, s.len() as int);
        assert(ds.len() > 0 && crate::numtext::all_dec_digits(ds));
        assert(crate::numtext::is_dec_digit(ds[ds.len() - 1]));
        assert(s[s.len() - 1] == ds[ds.len() - 1]);
    } else {
        assert(crate::numtext::all_dec_digits(s));
        assert(crate::numtext::is_dec_digit(s[0]));
        assert(crate::numtext::is_dec_digit(s[s.len() - 1]));
    }
    crate::text::lemma_trim_noop(s);
    assert(spec_trim(s) == s);
}

} // verus!
