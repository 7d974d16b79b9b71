//! The state file: one variable per line, `type:name:value`.
//!
//! Scalar values print their plain textual form. String, array and dictionary
//! values are escaped so a line never breaks: `\`, `:` and newline become
//! `\\`, `\:` and `\n`, and load undoes the escape in one left-to-right pass,
//! the symmetric inverse of the escape. Array and dictionary values are a
//! JSON rendering of the nested value structure, escaped the same way. Blank
//! lines and lines starting `//` are skipped on load; a malformed line aborts
//! the load with its 1-based number.

use vstd::prelude::*;

use crate::errors::InterpError;
use crate::float::{float_dec_of, float_display, float_parse};
use crate::numtext::{
    int_text, int_to_chars, lemma_int_text_round_trip, parse_i32_chars, parse_i32_spec,
};
use crate::parse::{spec_dict_update, spec_key_at, lemma_key_at, vec_subrange};
use crate::store::{keys_unique, table_kind, TableModel, Variables};
use crate::text::{chars_of, spec_is_space, spec_trim, string_of, trim_chars};
use crate::value::{
    lemma_vmodel_pairs_len, lemma_vmodel_seq_len, vmodel, vmodel_pairs, vmodel_seq, ParsedValue,
    ValSpec,
};

verus! {

// ---------------------------------------------------------------- escaping
/// The escape of one character.
pub open spec fn spec_escape_char(c: char) -> Seq<char> {
    if c == '\\' {
        seq!['\\', '\\']
    } else if c == ':' {
        seq!['\\', ':']
    } else if c == '\n' {
        seq!['\\', 'n']
    } else {
        seq![c]
    }
}

/// The escaped text: each character escaped, in order.
pub open spec fn spec_escape(s: Seq<char>) -> Seq<char>
    decreases s.len(),
{
    if s.len() == 0 {
        Seq::empty()
    } else {
        spec_escape_char(s[0]) + spec_escape(s.subrange(1, s.len() as int))
    }
}

/// One left-to-right unescaping pass: a backslash starts a pair (`\\`, `\:`,
/// `\n`); a lone trailing backslash, or a backslash before any other
/// character, stays as written.
pub open spec fn spec_unescape(s: Seq<char>, i: int) -> Seq<char>
    decreases s.len() - i,
{
    if i < 0 || i >= s.len() {
        Seq::empty()
    } else if s[i] == '\\' && i + 1 < s.len() {
        let d = s[i + 1];
        if d == '\\' {
            seq!['\\'] + spec_unescape(s, i + 2)
        } else if d == ':' {
            seq![':'] + spec_unescape(s, i + 2)
        } else if d == 'n' {
            seq!['\n'] + spec_unescape(s, i + 2)
        } else {
            seq![s[i]] + spec_unescape(s, i + 1)
        }
    } else {
        seq![s[i]] + spec_unescape(s, i + 1)
    }
}

/// Unescaping undoes escaping, for every text.
pub proof fn lemma_unescape_escape(s: Seq<char>)
    ensures
        spec_unescape(spec_escape(s), 0) == s,
    decreases s.len(),
{
    if s.len() == 0 {
        assert(spec_escape(s) =~= Seq::<char>::empty());
    } else {
        let rest = s.subrange(1, s.len() as int);
        lemma_unescape_escape(rest);
        let e = spec_escape(s);
        let erest = spec_escape(rest);
        assert(e == spec_escape_char(s[0]) + erest);
        lemma_unescape_offset(spec_escape_char(s[0]), erest, s[0]);
        assert(seq![s[0]] + rest =~= s);
    }
}

/// Prepending one escaped character to escaped text unescapes to that
/// character before the rest.
proof fn lemma_unescape_offset(head: Seq<char>, tail: Seq<char>, c: char)
    requires
        head == spec_escape_char(c),
    ensures
        spec_unescape(head + tail, 0) == seq![c] + spec_unescape(head + tail, head.len() as int),
        spec_unescape(head + tail, head.len() as int) == spec_unescape(tail, 0),
{
    let w = head + tail;
    assert(w.subrange(head.len() as int, w.len() as int) =~= tail);
    lemma_unescape_shift(w, head.len() as int, tail);
    if c == '\\' || c == ':' || c == '\n' {
        assert(w.len() >= 2);
        assert(w[0] == '\\');
        if c == '\\' {
            assert(w[1] == '\\');
        } else if c == ':' {
            assert(w[1] == ':');
        } else {
            assert(w[1] == 'n');
        }
    } else {
        // c is not one of the escaped characters, so no pair starts here
        assert(w[0] == c);
    }
}

/// Unescaping from an offset equals unescaping the suffix from zero.
proof fn lemma_unescape_shift(w: Seq<char>, off: int, tail: Seq<char>)
    requires
        0 <= off <= w.len(),
        tail == w.subrange(off, w.len() as int),
    ensures
        spec_unescape(w, off) == spec_unescape(tail, 0),
    decreases w.len() - off,
{
    if off < w.len() {
        assert(tail[0] == w[off]);
        if w[off] == '\\' && off + 1 < w.len() {
            assert(tail[1] == w[off + 1]);
            let d = w[off + 1];
            if d == '\\' || d == ':' || d == 'n' {
                lemma_unescape_shift(w, off + 2, w.subrange(off + 2, w.len() as int));
                assert(tail.subrange(2, tail.len() as int) =~= w.subrange(off + 2, w.len() as int));
                lemma_unescape_shift(tail, 2, tail.subrange(2, tail.len() as int));
            } else {
                lemma_unescape_shift(w, off + 1, w.subrange(off + 1, w.len() as int));
                assert(tail.subrange(1, tail.len() as int) =~= w.subrange(off + 1, w.len() as int));
                lemma_unescape_shift(tail, 1, tail.subrange(1, tail.len() as int));
            }
        } else {
            lemma_unescape_shift(w, off + 1, w.subrange(off + 1, w.len() as int));
            assert(tail.subrange(1, tail.len() as int) =~= w.subrange(off + 1, w.len() as int));
            lemma_unescape_shift(tail, 1, tail.subrange(1, tail.len() as int));
        }
    } else {
        assert(tail.len() == 0);
    }
}

/// Escapes text for one state-file line.
pub fn escape_chars(s: &Vec<char>) -> (r: Vec<char>)
    ensures
        r@ == spec_escape(s@),
{
    let mut out: Vec<char> = Vec::new();
    let mut i: usize = 0;
    proof {
        assert(s@.subrange(0, s@.len() as int) =~= s@);
    }
    while i < s.len()
        invariant
            0 <= i <= s@.len(),
            spec_escape(s@) == out@ + spec_escape(s@.subrange(i as int, s@.len() as int)),
        decreases s@.len() - i,
    {
        let ghost out0 = out@;
        let ghost suf = s@.subrange(i as int, s@.len() as int);
        let c = s[i];
        if c == '\\' {
            out.push('\\');
            out.push('\\');
        } else if c == ':' {
            out.push('\\');
            out.push(':');
        } else if c == '\n' {
            out.push('\\');
            out.push('n');
        } else {
            out.push(c);
        }
        proof {
            assert(suf[0] == s@[i as int]);
            assert(suf.subrange(1, suf.len() as int) =~= s@.subrange(i + 1, s@.len() as int));
            assert(out@ =~= out0 + spec_escape_char(s@[i as int]));
            assert(spec_escape(s@) =~= out@ + spec_escape(s@.subrange(i + 1, s@.len() as int)));
        }
        i = i + 1;
    }
    proof {
        assert(s@.subrange(s@.len() as int, s@.len() as int) =~= Seq::<char>::empty());
        assert(spec_escape(Seq::<char>::empty()) =~= Seq::<char>::empty());
        assert(out@ =~= spec_escape(s@));
    }
    out
}

/// Undoes the escape in one pass.
pub fn unescape_chars(s: &Vec<char>) -> (r: Vec<char>)
    ensures
        r@ == spec_unescape(s@, 0),
{
    let mut out: Vec<char> = Vec::new();
    let mut i: usize = 0;
    while i < s.len()
        invariant
            0 <= i <= s@.len(),
            spec_unescape(s@, 0) == out@ + spec_unescape(s@, i as int),
        decreases s@.len() - i,
    {
        let ghost out0 = out@;
        let c = s[i];
        if c == '\\' && i + 1 < s.len() {
            let d = s[i + 1];
            if d == '\\' {
                out.push('\\');
                i = i + 2;
            } else if d == ':' {
                out.push(':');
                i = i + 2;
            } else if d == 'n' {
                out.push('\n');
                i = i + 2;
            } else {
                out.push(c);
                i = i + 1;
            }
        } else {
            out.push(c);
            i = i + 1;
        }
        proof {
            assert(spec_unescape(s@, 0) =~= out@ + spec_unescape(s@, i as int));
        }
    }
    proof {
        assert(spec_unescape(s@, s@.len() as int) =~= Seq::<char>::empty());
        assert(out@ =~= spec_unescape(s@, 0));
    }
    out
}

// ------------------------------------------------------------------- JSON
/// The JSON escape of one character inside a quoted string.
pub open spec fn spec_json_escape_char(c: char) -> Seq<char> {
    if c == '"' {
        seq!['\\', '"']
    } else if c == '\\' {
        seq!['\\', '\\']
    } else if c == '\n' {
        seq!['\\', 'n']
    } else if c == '\t' {
        seq!['\\', 't']
    } else if c == '\r' {
        seq!['\\', 'r']
    } else {
        seq![c]
    }
}

pub open spec fn spec_json_escape(s: Seq<char>) -> Seq<char>
    decreases s.len(),
{
    if s.len() == 0 {
        Seq::empty()
    } else {
        spec_json_escape_char(s[0]) + spec_json_escape(s.subrange(1, s.len() as int))
    }
}

/// The tagged JSON rendering of one value: `{"Int":1}`, `{"Float":2.5}`,
/// `{"String":"s"}`, `{"Array":[...]}` or `{"Dictionary":{...}}`.
pub open spec fn spec_json_value(m: ValSpec) -> Seq<char>
    decreases m, 0int, 0int,
{
    match m {
        ValSpec::Int(i) => ("{\"Int\":")@ + int_text(i) + seq!['}'],
        ValSpec::Float(bits) => ("{\"Float\":")@ + float_dec_of(bits) + seq!['}'],
        ValSpec::Str(s) => ("{\"String\":\"")@ + spec_json_escape(s) + ("\"}")@,
        ValSpec::Array(elems) => ("{\"Array\":")@ + spec_json_list(elems, 0) + seq!['}'],
        ValSpec::Dict(pairs) => ("{\"Dictionary\":")@ + spec_json_object(pairs, 0) + seq!['}'],
    }
}

/// A JSON array of tagged values.
pub open spec fn spec_json_list(elems: Seq<ValSpec>, i: int) -> Seq<char>
    decreases elems, elems.len() - i, 1int,
{
    if i == 0 {
        seq!['['] + spec_json_list_items(elems, 0) + seq![']']
    } else {
        spec_json_list_items(elems, i)
    }
}

pub open spec fn spec_json_list_items(elems: Seq<ValSpec>, i: int) -> Seq<char>
    decreases elems, elems.len() - i, 0int,
{
    if i < 0 || i >= elems.len() {
        Seq::empty()
    } else if i == elems.len() - 1 {
        spec_json_value(elems[i])
    } else {
        spec_json_value(elems[i]) + seq![','] + spec_json_list_items(elems, i + 1)
    }
}

/// A JSON object whose keys are the dictionary's keys.
pub open spec fn spec_json_object(pairs: Seq<(Seq<char>, ValSpec)>, i: int) -> Seq<char>
    decreases pairs, pairs.len() - i, 1int,
{
    if i == 0 {
        seq!['{'] + spec_json_object_items(pairs, 0) + seq!['}']
    } else {
        spec_json_object_items(pairs, i)
    }
}

pub open spec fn spec_json_object_items(pairs: Seq<(Seq<char>, ValSpec)>, i: int) -> Seq<char>
    decreases pairs, pairs.len() - i, 0int,
{
    if i < 0 || i >= pairs.len() {
        Seq::empty()
    } else if i == pairs.len() - 1 {
        seq!['"'] + spec_json_escape(pairs[i].0) + ("\":")@ + spec_json_value(pairs[i].1)
    } else {
        seq!['"'] + spec_json_escape(pairs[i].0) + ("\":")@ + spec_json_value(pairs[i].1) + seq![
            ',',
        ] + spec_json_object_items(pairs, i + 1)
    }
}

/// Escapes a string body for JSON.
fn json_escape_chars(s: &Vec<char>) -> (r: Vec<char>)
    ensures
        r@ == spec_json_escape(s@),
{
    let mut out: Vec<char> = Vec::new();
    let mut i: usize = 0;
    proof {
        assert(s@.subrange(0, s@.len() as int) =~= s@);
    }
    while i < s.len()
        invariant
            0 <= i <= s@.len(),
            spec_json_escape(s@) == out@ + spec_json_escape(s@.subrange(i as int, s@.len() as int)),
        decreases s@.len() - i,
    {
        let ghost out0 = out@;
        let ghost suf = s@.subrange(i as int, s@.len() as int);
        let c = s[i];
        if c == '"' {
            out.push('\\');
            out.push('"');
        } else if c == '\\' {
            out.push('\\');
            out.push('\\');
        } else if c == '\n' {
            out.push('\\');
            out.push('n');
        } else if c == '\t' {
            out.push('\\');
            out.push('t');
        } else if c == '\r' {
            out.push('\\');
            out.push('r');
        } else {
            out.push(c);
        }
        proof {
            assert(suf[0] == s@[i as int]);
            assert(suf.subrange(1, suf.len() as int) =~= s@.subrange(i + 1, s@.len() as int));
            assert(out@ =~= out0 + spec_json_escape_char(s@[i as int]));
            assert(spec_json_escape(s@) =~= out@ + spec_json_escape(
                s@.subrange(i + 1, s@.len() as int),
            ));
        }
        i = i + 1;
    }
    proof {
        assert(s@.subrange(s@.len() as int, s@.len() as int) =~= Seq::<char>::empty());
        assert(out@ =~= spec_json_escape(s@));
    }
    out
}

/// Appends the characters of a literal.
fn push_lit(out: &mut Vec<char>, lit: &str)
    ensures
        final(out)@ == old(out)@ + lit@,
{
    let mut cs = chars_of(lit);
    out.append(&mut cs);
}

/// Renders one value as tagged JSON.
#[verifier::loop_isolation(false)]
pub fn json_of_value(v: &ParsedValue) -> (r: Vec<char>)
    ensures
        r@ == spec_json_value(vmodel(*v)),
    decreases *v,
{
    let mut out: Vec<char> = Vec::new();
    match v {
        ParsedValue::Int(i) => {
            push_lit(&mut out, "{\"Int\":");
            let mut digits = int_to_chars(*i);
            out.append(&mut digits);
            out.push('}');
            proof {
                assert(out@ =~= spec_json_value(vmodel(*v)));
            }
        },
        ParsedValue::Float(bits) => {
            push_lit(&mut out, "{\"Float\":");
            let mut t = float_display(*bits);
            out.append(&mut t);
            out.push('}');
            proof {
                assert(out@ =~= spec_json_value(vmodel(*v)));
            }
        },
        ParsedValue::Str(s) => {
            push_lit(&mut out, "{\"String\":\"");
            let cs = chars_of(s.as_str());
            let mut esc = json_escape_chars(&cs);
            out.append(&mut esc);
            push_lit(&mut out, "\"}");
            proof {
                assert(out@ =~= spec_json_value(vmodel(*v)));
            }
        },
        ParsedValue::Array(elems) => {
            push_lit(&mut out, "{\"Array\":");
            proof {
                assert(decreases_to!(*v => v->Array_0));
            }
            let mut body = json_of_list(elems);
            out.append(&mut body);
            out.push('}');
            proof {
                assert(out@ =~= spec_json_value(vmodel(*v)));
            }
        },
        ParsedValue::Dict(pairs) => {
            push_lit(&mut out, "{\"Dictionary\":");
            proof {
                assert(decreases_to!(*v => v->Dict_0));
            }
            let mut body = json_of_object(pairs);
            out.append(&mut body);
            out.push('}');
            proof {
                assert(out@ =~= spec_json_value(vmodel(*v)));
            }
        },
    }
    out
}

/// Renders an array payload as a JSON array of tagged values.
#[verifier::loop_isolation(false)]
#[verifier::rlimit(100)]
pub fn json_of_list(elems: &Vec<ParsedValue>) -> (r: Vec<char>)
    ensures
        r@ == spec_json_list(vmodel_seq(elems@), 0),
    decreases *elems,
{
    let ghost m = vmodel_seq(elems@);
    proof {
        lemma_vmodel_seq_len(elems@);
    }
    let mut out: Vec<char> = Vec::new();
    out.push('[');
    let n = elems.len();
    let mut i: usize = 0;
    let ghost mut done: Seq<char> = Seq::empty();
    while i < n
        invariant
            0 <= i <= n,
            out@ == seq!['['] + done,
            spec_json_list_items(m, 0) == done + spec_json_list_items(m, i as int),
        decreases n - i,
    {
        proof {
            assert(decreases_to!(*elems => elems@));
            assert(decreases_to!(elems@ => elems@[i as int]));
        }
        let mut piece = json_of_value(&elems[i]);
        let ghost ptext = piece@;
        out.append(&mut piece);
        if i + 1 < n {
            out.push(',');
            proof {
                done = done + ptext + seq![','];
                assert(out@ =~= seq!['['] + done);
                assert(spec_json_list_items(m, i as int) == spec_json_value(m[i as int]) + seq![
                    ',',
                ] + spec_json_list_items(m, i + 1));
                assert(spec_json_list_items(m, 0) =~= done + spec_json_list_items(m, i + 1));
            }
        } else {
            proof {
                done = done + ptext;
                assert(out@ =~= seq!['['] + done);
                assert(spec_json_list_items(m, i as int) == spec_json_value(m[i as int]));
                assert(spec_json_list_items(m, i + 1) =~= Seq::<char>::empty());
                assert(spec_json_list_items(m, 0) =~= done + spec_json_list_items(m, i + 1));
            }
        }
        i = i + 1;
    }
    out.push(']');
    proof {
        assert(spec_json_list_items(m, i as int) =~= Seq::<char>::empty());
        assert(spec_json_list_items(m, 0) =~= done);
        assert(out@ =~= seq!['['] + spec_json_list_items(m, 0) + seq![']']);
        assert(spec_json_list(m, 0) == seq!['['] + spec_json_list_items(m, 0) + seq![']']);
    }
    out
}

/// Renders a dictionary payload as a JSON object of tagged values.
#[verifier::loop_isolation(false)]
#[verifier::rlimit(100)]
pub fn json_of_object(pairs: &Vec<(String, ParsedValue)>) -> (r: Vec<char>)
    ensures
        r@ == spec_json_object(vmodel_pairs(pairs@), 0),
    decreases *pairs,
{
    let ghost m = vmodel_pairs(pairs@);
    proof {
        lemma_vmodel_pairs_len(pairs@);
    }
    let mut out: Vec<char> = Vec::new();
    out.push('{');
    let n = pairs.len();
    let mut i: usize = 0;
    let ghost mut done: Seq<char> = Seq::empty();
    while i < n
        invariant
            0 <= i <= n,
            out@ == seq!['{'] + done,
            spec_json_object_items(m, 0) == done + spec_json_object_items(m, i as int),
        decreases n - i,
    {
        let pair = &pairs[i];
        out.push('"');
        let kcs = chars_of(pair.0.as_str());
        let mut kesc = json_escape_chars(&kcs);
        out.append(&mut kesc);
        push_lit(&mut out, "\":");
        proof {
            assert(decreases_to!(*pairs => pairs@));
            assert(decreases_to!(pairs@ => pairs@[i as int]));
            assert(decreases_to!(pairs@[i as int] => pairs@[i as int].1));
        }
        let mut piece = json_of_value(&pair.1);
        out.append(&mut piece);
        let ghost rendered = seq!['"'] + spec_json_escape(m[i as int].0) + ("\":")@
            + spec_json_value(m[i as int].1);
        if i + 1 < n {
            out.push(',');
            proof {
                done = done + rendered + seq![','];
                assert(out@ =~= seq!['{'] + done);
                assert(spec_json_object_items(m, i as int) == rendered + seq![',']
                    + spec_json_object_items(m, i + 1));
                assert(spec_json_object_items(m, 0) =~= done + spec_json_object_items(m, i + 1));
            }
        } else {
            proof {
                done = done + rendered;
                assert(out@ =~= seq!['{'] + done);
                assert(spec_json_object_items(m, i as int) == rendered);
                assert(spec_json_object_items(m, i + 1) =~= Seq::<char>::empty());
                assert(spec_json_object_items(m, 0) =~= done + spec_json_object_items(m, i + 1));
            }
        }
        i = i + 1;
    }
    out.push('}');
    proof {
        assert(spec_json_object_items(m, i as int) =~= Seq::<char>::empty());
        assert(spec_json_object_items(m, 0) =~= done);
        assert(out@ =~= seq!['{'] + spec_json_object_items(m, 0) + seq!['}']);
        assert(spec_json_object(m, 0) == seq!['{'] + spec_json_object_items(m, 0) + seq!['}']);
    }
    out
}


// ------------------------------------------------------------- state lines
/// The line for one stored variable: `type:name:value`.
pub open spec fn spec_entry_line(key: Seq<char>, v: ValSpec) -> Seq<char> {
    match v {
        ValSpec::Int(i) => ("int:")@ + key + seq![':'] + int_text(i),
        ValSpec::Float(b) => ("float:")@ + key + seq![':'] + float_dec_of(b),
        ValSpec::Str(s) => ("string:")@ + key + seq![':'] + spec_escape(s),
        ValSpec::Array(a) => ("array:")@ + key + seq![':'] + spec_escape(spec_json_list(a, 0)),
        ValSpec::Dict(d) => ("dict:")@ + key + seq![':'] + spec_escape(spec_json_object(d, 0)),
    }
}

/// The lines of one table, in table order.
pub open spec fn spec_table_lines(t: TableModel, i: int) -> Seq<Seq<char>>
    decreases t.len() - i,
{
    if i < 0 || i >= t.len() {
        Seq::empty()
    } else {
        seq![spec_entry_line(t[i].0, t[i].1)] + spec_table_lines(t, i + 1)
    }
}

/// All lines of a store: ints, floats, strings, arrays, dictionaries.
pub open spec fn spec_state_lines(vars: Variables) -> Seq<Seq<char>> {
    spec_table_lines(vars.ints(), 0) + spec_table_lines(vars.floats(), 0) + spec_table_lines(
        vars.strings(),
        0,
    ) + spec_table_lines(vars.arrays(), 0) + spec_table_lines(vars.dicts(), 0)
}

/// The file text: every line followed by a newline.
pub open spec fn spec_join_lines(ls: Seq<Seq<char>>) -> Seq<char>
    decreases ls.len(),
{
    if ls.len() == 0 {
        Seq::empty()
    } else {
        ls[0] + seq!['\n'] + spec_join_lines(ls.subrange(1, ls.len() as int))
    }
}

/// What `save_state` writes for a store.
pub open spec fn spec_render_state(vars: Variables) -> Seq<char> {
    spec_join_lines(spec_state_lines(vars))
}

/// Renders one variable's line.
fn entry_line(key: &String, v: &ParsedValue) -> (r: Vec<char>)
    ensures
        r@ == spec_entry_line(key@, vmodel(*v)),
{
    let mut out: Vec<char> = Vec::new();
    match v {
        ParsedValue::Int(i) => {
            push_lit(&mut out, "int:");
            let mut k = chars_of(key.as_str());
            out.append(&mut k);
            out.push(':');
            let mut d = int_to_chars(*i);
            out.append(&mut d);
        },
        ParsedValue::Float(bits) => {
            push_lit(&mut out, "float:");
            let mut k = chars_of(key.as_str());
            out.append(&mut k);
            out.push(':');
            let mut d = float_display(*bits);
            out.append(&mut d);
        },
        ParsedValue::Str(s) => {
            push_lit(&mut out, "string:");
            let mut k = chars_of(key.as_str());
            out.append(&mut k);
            out.push(':');
            let cs = chars_of(s.as_str());
            let mut d = escape_chars(&cs);
            out.append(&mut d);
        },
        ParsedValue::Array(elems) => {
            push_lit(&mut out, "array:");
            let mut k = chars_of(key.as_str());
            out.append(&mut k);
            out.push(':');
            let json = json_of_list(elems);
            let mut d = escape_chars(&json);
            out.append(&mut d);
        },
        ParsedValue::Dict(pairs) => {
            push_lit(&mut out, "dict:");
            let mut k = chars_of(key.as_str());
            out.append(&mut k);
            out.push(':');
            let json = json_of_object(pairs);
            let mut d = escape_chars(&json);
            out.append(&mut d);
        },
    }
    proof {
        assert(out@ =~= spec_entry_line(key@, vmodel(*v)));
    }
    out
}

/// Appends one table's lines, each with its newline, to the output.
fn render_table(out: &mut Vec<char>, t: &Vec<(String, ParsedValue)>)
    ensures
        final(out)@ == old(out)@ + spec_join_lines(spec_table_lines(vmodel_pairs(t@), 0)),
{
    let ghost m = vmodel_pairs(t@);
    proof {
        lemma_vmodel_pairs_len(t@);
    }
    let mut i: usize = 0;
    let ghost base = out@;
    let ghost mut done: Seq<char> = Seq::empty();
    while i < t.len()
        invariant
            0 <= i <= t@.len(),
            m == vmodel_pairs(t@),
            m.len() == t@.len(),
            forall|j: int| 0 <= j < t@.len() ==> m[j] == ((#[trigger] t@[j]).0@, vmodel(t@[j].1)),
            out@ == base + done,
            spec_join_lines(spec_table_lines(m, 0)) == done + spec_join_lines(
                spec_table_lines(m, i as int),
            ),
        decreases t@.len() - i,
    {
        let ghost done0 = done;
        let pair = &t[i];
        let mut line = entry_line(&pair.0, &pair.1);
        out.append(&mut line);
        out.push('\n');
        proof {
            done = done0 + spec_entry_line(m[i as int].0, m[i as int].1) + seq!['\n'];
            assert(out@ =~= base + done);
            lemma_join_lines_unfold(m, i as int);
            assert(spec_join_lines(spec_table_lines(m, 0)) =~= done + spec_join_lines(
                spec_table_lines(m, i + 1),
            ));
        }
        i = i + 1;
    }
    proof {
        assert(spec_table_lines(m, i as int) =~= Seq::<Seq<char>>::empty());
        assert(spec_join_lines(Seq::<Seq<char>>::empty()) =~= Seq::<char>::empty());
        assert(out@ =~= base + spec_join_lines(spec_table_lines(m, 0)));
    }
}

/// One step of joining a table's lines.
proof fn lemma_join_lines_unfold(m: TableModel, i: int)
    requires
        0 <= i < m.len(),
    ensures
        spec_join_lines(spec_table_lines(m, i)) == spec_entry_line(m[i].0, m[i].1) + seq!['\n']
            + spec_join_lines(spec_table_lines(m, i + 1)),
{
    let ls = spec_table_lines(m, i);
    assert(ls == seq![spec_entry_line(m[i].0, m[i].1)] + spec_table_lines(m, i + 1));
    assert(ls[0] == spec_entry_line(m[i].0, m[i].1));
    assert(ls.subrange(1, ls.len() as int) =~= spec_table_lines(m, i + 1));
}

/// Joining distributes over concatenation of line lists.
proof fn lemma_join_lines_concat(a: Seq<Seq<char>>, b: Seq<Seq<char>>)
    ensures
        spec_join_lines(a + b) == spec_join_lines(a) + spec_join_lines(b),
    decreases a.len(),
{
    if a.len() == 0 {
        assert(a + b =~= b);
        assert(spec_join_lines(a) =~= Seq::<char>::empty());
    } else {
        let arest = a.subrange(1, a.len() as int);
        lemma_join_lines_concat(arest, b);
        let w = a + b;
        assert(w[0] == a[0]);
        assert(w.subrange(1, w.len() as int) =~= arest + b);
        assert(spec_join_lines(a + b) =~= spec_join_lines(a) + spec_join_lines(b));
    }
}

/// The whole state file for a store.
pub fn render_state(vars: &Variables) -> (r: String)
    ensures
        r@ == spec_render_state(*vars),
{
    let mut out: Vec<char> = Vec::new();
    render_table(&mut out, &vars.int_variables);
    render_table(&mut out, &vars.float_variables);
    render_table(&mut out, &vars.string_variables);
    render_table(&mut out, &vars.array_variables);
    render_table(&mut out, &vars.dict_variables);
    proof {
        let li = spec_table_lines(vars.ints(), 0);
        let lf = spec_table_lines(vars.floats(), 0);
        let ls = spec_table_lines(vars.strings(), 0);
        let la = spec_table_lines(vars.arrays(), 0);
        let ld = spec_table_lines(vars.dicts(), 0);
        lemma_join_lines_concat(li, lf + ls + la + ld);
        lemma_join_lines_concat(lf, ls + la + ld);
        lemma_join_lines_concat(ls, la + ld);
        lemma_join_lines_concat(la, ld);
        assert(li + (lf + ls + la + ld) =~= spec_state_lines(*vars));
        assert(lf + (ls + la + ld) =~= lf + ls + la + ld);
        assert(ls + (la + ld) =~= ls + la + ld);
        assert(out@ =~= spec_render_state(*vars));
    }
    string_of(out.as_slice())
}

// --------------------------------------------------------------- line split
/// The lines of a text: pieces between newline characters.
pub open spec fn spec_lines(s: Seq<char>, i: int, start: int) -> Seq<Seq<char>>
    decreases s.len() - i,
{
    if i < 0 || start < 0 || i >= s.len() {
        if start < s.len() {
            seq![s.subrange(start, s.len() as int)]
        } else {
            Seq::empty()
        }
    } else if s[i] == '\n' {
        seq![s.subrange(start, i)] + spec_lines(s, i + 1, i + 1)
    } else {
        spec_lines(s, i + 1, start)
    }
}

/// Splits text into lines at newline characters.
pub fn split_lines(text: &str) -> (r: Vec<String>)
    ensures
        r@.map_values(|t: String| t@) == spec_lines(text@, 0, 0),
{
    let cs = chars_of(text);
    let ghost whole = spec_lines(text@, 0, 0);
    let mut r: Vec<String> = Vec::new();
    let ghost mut done: Seq<Seq<char>> = Seq::empty();
    let mut cur: Vec<char> = Vec::new();
    let ghost mut start: int = 0;
    let mut i: usize = 0;
    while i < cs.len()
        invariant
            0 <= start <= i <= cs@.len(),
            cs@ == text@,
            cur@ == text@.subrange(start, i as int),
            whole == done + spec_lines(text@, i as int, start),
            r@.map_values(|t: String| t@) == done,
            r@.len() == done.len(),
        decreases cs@.len() - i,
    {
        let c = cs[i];
        if c == '\n' {
            let ghost done0 = done;
            let ghost r0 = r@;
            let tok = string_of(cur.as_slice());
            r.push(tok);
            cur = Vec::new();
            proof {
                let start0 = start;
                done = done0.push(text@.subrange(start0, i as int));
                start = i + 1;
                assert forall|k: int| 0 <= k < r@.len() implies (#[trigger] r@[k])@ == done[k] by {
                    if k < r0.len() {
                        assert(r@[k] == r0[k]);
                        assert(r0.map_values(|t: String| t@)[k] == done0[k]);
                    }
                }
                assert(r@.map_values(|t: String| t@) =~= done);
                assert(spec_lines(text@, i as int, start0) == seq![
                    text@.subrange(start0, i as int),
                ] + spec_lines(text@, i + 1, i + 1));
                assert(whole =~= done + spec_lines(text@, i + 1, i + 1));
            }
        } else {
            cur.push(c);
        }
        proof {
            assert(cur@ =~= text@.subrange(start, i + 1));
        }
        i = i + 1;
    }
    if cur.len() > 0 {
        let ghost done0 = done;
        let ghost r0 = r@;
        let tok = string_of(cur.as_slice());
        r.push(tok);
        proof {
            done = done0.push(text@.subrange(start, text@.len() as int));
            assert forall|k: int| 0 <= k < r@.len() implies (#[trigger] r@[k])@ == done[k] by {
                if k < r0.len() {
                    assert(r@[k] == r0[k]);
                    assert(r0.map_values(|t: String| t@)[k] == done0[k]);
                }
            }
            assert(r@.map_values(|t: String| t@) =~= done);
            assert(spec_lines(text@, text@.len() as int, start) =~= seq![
                text@.subrange(start, text@.len() as int),
            ]);
            assert(whole =~= done);
        }
    } else {
        proof {
            assert(start == text@.len() as int);
            assert(spec_lines(text@, text@.len() as int, start) =~= Seq::<Seq<char>>::empty());
            assert(whole =~= done);
        }
    }
    r
}


// ------------------------------------------------------------ line parsing
/// What one line of a state file means.
pub enum LineParse {
    /// Blank, or a `//` comment.
    Skip,
    /// Malformed: no two colons, unknown type, or a bad scalar.
    Bad,
    /// `int:name:value`.
    PutInt(Seq<char>, i32),
    /// `string:name:value`, value unescaped.
    PutStr(Seq<char>, Seq<char>),
    /// `float:name:value`, the value being what the float parser gives the
    /// text.
    PutFloat(Seq<char>, u64),
    /// An array or dictionary line: carried by the loader through the JSON
    /// reader, outside this specification.
    Unsupported,
}

pub open spec fn spec_parse_line(raw: Seq<char>) -> LineParse {
    let line = spec_trim(raw);
    if line.len() == 0 {
        LineParse::Skip
    } else if line.len() >= 2 && line[0] == '/' && line[1] == '/' {
        LineParse::Skip
    } else {
        let c1 = crate::parse::spec_find_colon(line, 0);
        if c1 < 0 {
            LineParse::Bad
        } else {
            let c2 = crate::parse::spec_find_colon(line, c1 + 1);
            if c2 < 0 {
                LineParse::Bad
            } else {
                let ty = line.subrange(0, c1);
                let name = line.subrange(c1 + 1, c2);
                let value = line.subrange(c2 + 1, line.len() as int);
                if ty == ("int")@ {
                    match parse_i32_spec(value) {
                        Some(v) => LineParse::PutInt(name, v),
                        None => LineParse::Bad,
                    }
                } else if ty == ("string")@ {
                    LineParse::PutStr(name, spec_unescape(value, 0))
                } else if ty == ("float")@ {
                    match crate::float::float_from_dec(value) {
                        Some(bits) => LineParse::PutFloat(name, bits),
                        None => LineParse::Bad,
                    }
                } else if ty == ("array")@ || ty == ("dict")@ {
                    LineParse::Unsupported
                } else {
                    LineParse::Bad
                }
            }
        }
    }
}

/// Folds the lines into the int, float and string tables; None where a line
/// is malformed or outside the specification's scope.
pub open spec fn spec_parse_lines(
    ls: Seq<Seq<char>>,
    ints: TableModel,
    floats: TableModel,
    strs: TableModel,
) -> Option<(TableModel, TableModel, TableModel)>
    decreases ls.len(),
{
    if ls.len() == 0 {
        Some((ints, floats, strs))
    } else {
        let rest = ls.subrange(1, ls.len() as int);
        match spec_parse_line(ls[0]) {
            LineParse::Skip => spec_parse_lines(rest, ints, floats, strs),
            LineParse::Bad => None,
            LineParse::Unsupported => None,
            LineParse::PutInt(k, v) => spec_parse_lines(
                rest,
                spec_dict_update(ints, k, ValSpec::Int(v as int)),
                floats,
                strs,
            ),
            LineParse::PutFloat(k, bits) => spec_parse_lines(
                rest,
                ints,
                spec_dict_update(floats, k, ValSpec::Float(bits)),
                strs,
            ),
            LineParse::PutStr(k, s) => spec_parse_lines(
                rest,
                ints,
                floats,
                spec_dict_update(strs, k, ValSpec::Str(s)),
            ),
        }
    }
}

/// What loading a state file yields for its scalar lines.
pub open spec fn spec_parse_state(text: Seq<char>) -> Option<
    (TableModel, TableModel, TableModel),
> {
    spec_parse_lines(spec_lines(text, 0, 0), Seq::empty(), Seq::empty(), Seq::empty())
}

/// Finds the first colon at or after `from`.
fn find_colon_from(p: &Vec<char>, from: usize) -> (r: Option<usize>)
    requires
        from <= p@.len(),
    ensures
        ({
            let j = crate::parse::spec_find_colon(p@, from as int);
            match r {
                Some(ci) => j == ci as int && from <= ci && ci < p@.len(),
                None => j == -1,
            }
        }),
{
    proof {
        crate::parse::lemma_find_colon(p@, from as int);
    }
    let mut i: usize = from;
    while i < p.len()
        invariant
            from <= i <= p@.len(),
            forall|n: int| from <= n < i ==> p@[n] != ':',
            crate::parse::spec_find_colon(p@, from as int) == crate::parse::spec_find_colon(
                p@,
                i as int,
            ),
        decreases p@.len() - i,
    {
        if p[i] == ':' {
            return Some(i);
        }
        i = i + 1;
    }
    None
}

// ----------------------------------------------------------- JSON reading
/// The first index at or after i that is not a space, tab, newline or
/// carriage return (the JSON whitespace characters).
fn json_skip_ws(s: &Vec<char>, i: usize) -> (r: usize)
    requires
        i <= s@.len(),
    ensures
        i <= r <= s@.len(),
{
    let mut j = i;
    while j < s.len() && (s[j] == ' ' || s[j] == '\t' || s[j] == '\n' || s[j] == '\r')
        invariant
            i <= j <= s@.len(),
        decreases s@.len() - j,
    {
        j = j + 1;
    }
    j
}

/// Reads a JSON string body starting at the opening quote; handles the
/// escapes this crate's encoder writes (`\"`, `\\`, `\n`, `\t`, `\r`, `\/`).
fn json_parse_string(s: &Vec<char>, i: usize) -> (r: Option<(String, usize)>)
    requires
        i <= s@.len(),
    ensures
        r matches Some((v, j)) ==> i < j <= s@.len(),
{
    if i >= s.len() || s[i] != '"' {
        return None;
    }
    let mut out: Vec<char> = Vec::new();
    let mut j = i + 1;
    while j < s.len()
        invariant
            i + 1 <= j <= s@.len(),
        decreases s@.len() - j,
    {
        let c = s[j];
        if c == '"' {
            return Some((string_of(out.as_slice()), j + 1));
        }
        if c == '\\' {
            if j + 1 >= s.len() {
                return None;
            }
            let d = s[j + 1];
            if d == '"' {
                out.push('"');
            } else if d == '\\' {
                out.push('\\');
            } else if d == '/' {
                out.push('/');
            } else if d == 'n' {
                out.push('\n');
            } else if d == 't' {
                out.push('\t');
            } else if d == 'r' {
                out.push('\r');
            } else {
                return None;
            }
            j = j + 2;
        } else {
            out.push(c);
            j = j + 1;
        }
    }
    None
}

/// Reads the run of number characters starting at i.
fn json_number_run(s: &Vec<char>, i: usize) -> (r: (Vec<char>, usize))
    requires
        i <= s@.len(),
    ensures
        i <= r.1 <= s@.len(),
{
    let mut out: Vec<char> = Vec::new();
    let mut j = i;
    while j < s.len() && !(s[j] == ',' || s[j] == '}' || s[j] == ']' || s[j] == ' ' || s[j] == '\t'
        || s[j] == '\n' || s[j] == '\r')
        invariant
            i <= j <= s@.len(),
        decreases s@.len() - j,
    {
        out.push(s[j]);
        j = j + 1;
    }
    (out, j)
}

/// Reads one tagged value `{"Kind":payload}`.
fn json_parse_value(s: &Vec<char>, i: usize) -> (r: Option<(ParsedValue, usize)>)
    requires
        i <= s@.len(),
    ensures
        r matches Some((v, j)) ==> i < j <= s@.len(),
    decreases s@.len() - i, 2int,
{
    let j0 = json_skip_ws(s, i);
    if j0 >= s.len() || s[j0] != '{' {
        return None;
    }
    let j1 = json_skip_ws(s, j0 + 1);
    let (tag, j2) = match json_parse_string(s, j1) {
        Some(p) => p,
        None => {
            return None;
        },
    };
    let j3 = json_skip_ws(s, j2);
    if j3 >= s.len() || s[j3] != ':' {
        return None;
    }
    let j4 = json_skip_ws(s, j3 + 1);
    let (val, j5) = if crate::text::str_eq(tag.as_str(), "Int") {
        let (run, j5) = json_number_run(s, j4);
        match parse_i32_chars(&run) {
            Some(v) => (ParsedValue::Int(v), j5),
            None => {
                return None;
            },
        }
    } else if crate::text::str_eq(tag.as_str(), "Float") {
        let (run, j5) = json_number_run(s, j4);
        match float_parse(run.as_slice()) {
            Some(bits) => (ParsedValue::Float(bits), j5),
            None => {
                return None;
            },
        }
    } else if crate::text::str_eq(tag.as_str(), "String") {
        match json_parse_string(s, j4) {
            Some((v, j5)) => (ParsedValue::Str(v), j5),
            None => {
                return None;
            },
        }
    } else if crate::text::str_eq(tag.as_str(), "Array") {
        if j4 <= j0 {
            return None;
        }
        match json_parse_list(s, j4) {
            Some((v, j5)) => (ParsedValue::Array(v), j5),
            None => {
                return None;
            },
        }
    } else if crate::text::str_eq(tag.as_str(), "Dictionary") {
        if j4 <= j0 {
            return None;
        }
        match json_parse_object(s, j4) {
            Some((v, j5)) => (ParsedValue::Dict(v), j5),
            None => {
                return None;
            },
        }
    } else {
        return None;
    };
    let j6 = json_skip_ws(s, j5);
    if j6 >= s.len() || s[j6] != '}' {
        return None;
    }
    Some((val, j6 + 1))
}

/// Reads a JSON array of tagged values.
fn json_parse_list(s: &Vec<char>, i: usize) -> (r: Option<(Vec<ParsedValue>, usize)>)
    requires
        i <= s@.len(),
    ensures
        r matches Some((v, j)) ==> i < j <= s@.len(),
    decreases s@.len() - i, 1int,
{
    let j0 = json_skip_ws(s, i);
    if j0 >= s.len() || s[j0] != '[' {
        return None;
    }
    let mut out: Vec<ParsedValue> = Vec::new();
    let mut cur = j0 + 1;
    let jw = json_skip_ws(s, cur);
    if jw < s.len() && s[jw] == ']' {
        return Some((out, jw + 1));
    }
    loop
        invariant
            j0 + 1 <= cur <= s@.len(),
            i <= j0,
        decreases s@.len() - cur,
    {
        let before = cur;
        match json_parse_value(s, cur) {
            Some((v, j)) => {
                out.push(v);
                cur = j;
            },
            None => {
                return None;
            },
        }
        let jw = json_skip_ws(s, cur);
        if jw >= s.len() {
            return None;
        }
        if s[jw] == ']' {
            return Some((out, jw + 1));
        }
        if s[jw] != ',' {
            return None;
        }
        if jw + 1 <= before {
            return None;
        }
        cur = jw + 1;
    }
}

/// Reads a JSON object of tagged values, as a dictionary payload.
fn json_parse_object(s: &Vec<char>, i: usize) -> (r: Option<(Vec<(String, ParsedValue)>, usize)>)
    requires
        i <= s@.len(),
    ensures
        r matches Some((v, j)) ==> i < j <= s@.len(),
    decreases s@.len() - i, 1int,
{
    let j0 = json_skip_ws(s, i);
    if j0 >= s.len() || s[j0] != '{' {
        return None;
    }
    let mut out: Vec<(String, ParsedValue)> = Vec::new();
    let mut cur = j0 + 1;
    let jw = json_skip_ws(s, cur);
    if jw < s.len() && s[jw] == '}' {
        return Some((out, jw + 1));
    }
    loop
        invariant
            j0 + 1 <= cur <= s@.len(),
            i <= j0,
        decreases s@.len() - cur,
    {
        let before = cur;
        let jk = json_skip_ws(s, cur);
        let (key, j1) = match json_parse_string(s, jk) {
            Some(p) => p,
            None => {
                return None;
            },
        };
        let j2 = json_skip_ws(s, j1);
        if j2 >= s.len() || s[j2] != ':' {
            return None;
        }
        match json_parse_value(s, j2 + 1) {
            Some((v, j)) => {
                crate::parse::dict_update(&mut out, key, v);
                cur = j;
            },
            None => {
                return None;
            },
        }
        let jw = json_skip_ws(s, cur);
        if jw >= s.len() {
            return None;
        }
        if s[jw] == '}' {
            return Some((out, jw + 1));
        }
        if s[jw] != ',' {
            return None;
        }
        if jw + 1 <= before {
            return None;
        }
        cur = jw + 1;
    }
}

// -------------------------------------------------------------- the loader
/// Parses a whole state file into a fresh store. On the int and string lines
/// that `spec_parse_state` covers, the result is pinned exactly; a malformed
/// line fails with its 1-based number.
pub fn parse_state(text: &str) -> (r: Result<Variables, (usize, InterpError)>)
    ensures
        match r {
            Ok(vars) => {
                &&& vars.wf()
                &&& (spec_parse_state(text@) matches Some(p) ==> vars.ints() == p.0
                    && vars.floats() == p.1 && vars.strings() == p.2 && vars.arrays().len() == 0
                    && vars.dicts().len() == 0)
            },
            Err(_) => spec_parse_state(text@) is None,
        },
{
    let lines = split_lines(text);
    let ghost lm = spec_lines(text@, 0, 0);
    let mut vars = Variables::new();
    let ghost mut alive: bool = true;
    let mut ln: usize = 0;
    proof {
        assert(lm.subrange(0, lm.len() as int) =~= lm);
    }
    while ln < lines.len()
        invariant
            0 <= ln <= lines@.len(),
            lm == spec_lines(text@, 0, 0),
            lines@.map_values(|t: String| t@) == lm,
            lm.len() == lines@.len(),
            vars.wf(),
            alive ==> spec_parse_lines(lm, Seq::empty(), Seq::empty(), Seq::empty())
                == spec_parse_lines(
                lm.subrange(ln as int, lm.len() as int),
                vars.ints(),
                vars.floats(),
                vars.strings(),
            ) && vars.arrays().len() == 0 && vars.dicts().len() == 0,
            !alive ==> spec_parse_lines(lm, Seq::empty(), Seq::empty(), Seq::empty()) is None,
        decreases lines@.len() - ln,
    {
        proof {
            assert(lm[ln as int] == lines@[ln as int]@);
        }
        let ghost linem = lm[ln as int];
        let ghost seg = lm.subrange(ln as int, lm.len() as int);
        let ghost segrest = lm.subrange(ln as int + 1, lm.len() as int);
        proof {
            assert(seg[0] == linem);
            assert(seg.subrange(1, seg.len() as int) =~= segrest);
        }
        let raw = chars_of(lines[ln].as_str());
        let t = trim_chars(&raw);
        let ghost lp = spec_parse_line(linem);
        let skip = t.len() == 0 || (t.len() >= 2 && t[0] == '/' && t[1] == '/');
        if skip {
            proof {
                assert(lp is Skip);
                if alive {
                    assert(spec_parse_lines(seg, vars.ints(), vars.floats(), vars.strings())
                        == spec_parse_lines(segrest, vars.ints(), vars.floats(), vars.strings()));
                }
            }
        } else {
            let c1 = match find_colon_from(&t, 0) {
                Some(c) => c,
                None => {
                    proof {
                        assert(lp is Bad);
                        if alive {
                            assert(spec_parse_lines(seg, vars.ints(), vars.floats(), vars.strings())
                                is None);
                        }
                    }
                    return Err((ln + 1, InterpError::MalformedCommand(string_of(t.as_slice()))));
                },
            };
            let c2 = match find_colon_from(&t, c1 + 1) {
                Some(c) => c,
                None => {
                    proof {
                        assert(lp is Bad);
                        if alive {
                            assert(spec_parse_lines(seg, vars.ints(), vars.floats(), vars.strings())
                                is None);
                        }
                    }
                    return Err((ln + 1, InterpError::MalformedCommand(string_of(t.as_slice()))));
                },
            };
            let ty = vec_subrange(&t, 0, c1);
            let name_chars = vec_subrange(&t, c1 + 1, c2);
            let value = vec_subrange(&t, c2 + 1, t.len());
            let name = string_of(name_chars.as_slice());
            let ty_int = crate::text::chars_eq(&ty, &chars_of("int"));
            let ty_float = crate::text::chars_eq(&ty, &chars_of("float"));
            let ty_string = crate::text::chars_eq(&ty, &chars_of("string"));
            let ty_array = crate::text::chars_eq(&ty, &chars_of("array"));
            let ty_dict = crate::text::chars_eq(&ty, &chars_of("dict"));
            if ty_int {
                match parse_i32_chars(&value) {
                    Some(v) => {
                        let ghost ints0 = vars.ints();
                        let ghost floats0 = vars.floats();
                        let ghost strs0 = vars.strings();
                        vars.add_data_to_int(name, v);
                        proof {
                            assert(lp == LineParse::PutInt(name_chars@, v));
                            if alive {
                                assert(spec_parse_lines(seg, ints0, floats0, strs0)
                                    == spec_parse_lines(
                                    segrest,
                                    vars.ints(),
                                    vars.floats(),
                                    vars.strings(),
                                ));
                            }
                        }
                    },
                    None => {
                        proof {
                            assert(lp is Bad);
                            if alive {
                                assert(spec_parse_lines(
                                    seg,
                                    vars.ints(),
                                    vars.floats(),
                                    vars.strings(),
                                ) is None);
                            }
                        }
                        return Err((ln + 1, InterpError::BadNumber(string_of(value.as_slice()))));
                    },
                }
            } else if ty_string {
                let unescaped = unescape_chars(&value);
                let ghost ints0 = vars.ints();
                let ghost floats0 = vars.floats();
                let ghost strs0 = vars.strings();
                vars.add_data_to_string(name, string_of(unescaped.as_slice()));
                proof {
                    assert(lp == LineParse::PutStr(name_chars@, unescaped@));
                    if alive {
                        assert(spec_parse_lines(seg, ints0, floats0, strs0) == spec_parse_lines(
                            segrest,
                            vars.ints(),
                            vars.floats(),
                            vars.strings(),
                        ));
                    }
                }
            } else if ty_float {
                match float_parse(value.as_slice()) {
                    Some(bits) => {
                        let ghost ints0 = vars.ints();
                        let ghost floats0 = vars.floats();
                        let ghost strs0 = vars.strings();
                        vars.add_data_to_float(name, bits);
                        proof {
                            assert(lp == LineParse::PutFloat(name_chars@, bits));
                            if alive {
                                assert(spec_parse_lines(seg, ints0, floats0, strs0)
                                    == spec_parse_lines(
                                    segrest,
                                    vars.ints(),
                                    vars.floats(),
                                    vars.strings(),
                                ));
                            }
                        }
                    },
                    None => {
                        proof {
                            assert(lp is Bad);
                            if alive {
                                assert(spec_parse_lines(
                                    seg,
                                    vars.ints(),
                                    vars.floats(),
                                    vars.strings(),
                                ) is None);
                            }
                        }
                        return Err((ln + 1, InterpError::BadNumber(string_of(value.as_slice()))));
                    },
                }
            } else if ty_array {
                proof {
                    assert(lp is Unsupported);
                    if alive {
                        assert(spec_parse_lines(seg, vars.ints(), vars.floats(), vars.strings())
                            is None);
                    }
                    alive = false;
                }
                let unescaped = unescape_chars(&value);
                match json_parse_list(&unescaped, 0) {
                    Some((arr, j)) => {
                        let j2 = json_skip_ws(&unescaped, j);
                        if j2 != unescaped.len() {
                            return Err(
                                (ln + 1, InterpError::MalformedCommand(string_of(t.as_slice()))),
                            );
                        }
                        vars.add_data_to_array(name, arr);
                    },
                    None => {
                        return Err(
                            (ln + 1, InterpError::MalformedCommand(string_of(t.as_slice()))),
                        );
                    },
                }
            } else if ty_dict {
                proof {
                    assert(lp is Unsupported);
                    if alive {
                        assert(spec_parse_lines(seg, vars.ints(), vars.floats(), vars.strings())
                            is None);
                    }
                    alive = false;
                }
                let unescaped = unescape_chars(&value);
                match json_parse_object(&unescaped, 0) {
                    Some((d, j)) => {
                        let j2 = json_skip_ws(&unescaped, j);
                        if j2 != unescaped.len() {
                            return Err(
                                (ln + 1, InterpError::MalformedCommand(string_of(t.as_slice()))),
                            );
                        }
                        vars.add_data_to_dict(name, d);
                    },
                    None => {
                        return Err(
                            (ln + 1, InterpError::MalformedCommand(string_of(t.as_slice()))),
                        );
                    },
                }
            } else {
                proof {
                    assert(lp is Bad);
                    if alive {
                        assert(spec_parse_lines(seg, vars.ints(), vars.floats(), vars.strings())
                            is None);
                    }
                }
                return Err((ln + 1, InterpError::MalformedCommand(string_of(t.as_slice()))));
            }
        }
        ln = ln + 1;
    }
    proof {
        if alive {
            assert(lm.subrange(lm.len() as int, lm.len() as int) =~= Seq::<Seq<char>>::empty());
        }
    }
    Ok(vars)
}


// ------------------------------------------------------------- round trip
/// A name that the state file carries faithfully: free of the separator and
/// of line breaks.
pub open spec fn state_key_ok(k: Seq<char>) -> bool {
    forall|i: int| 0 <= i < k.len() ==> (#[trigger] k[i]) != ':' && k[i] != '\n'
}

/// A string value the state file carries faithfully: it does not end in
/// whitespace (the loader trims each line).
pub open spec fn state_text_ok(s: Seq<char>) -> bool {
    s.len() > 0 ==> !spec_is_space(s[s.len() - 1])
}

/// The escape of non-empty text is non-empty, never holds a newline, and its
/// last character is no whitespace where the source's is not.
proof fn lemma_escape_shape(s: Seq<char>)
    ensures
        spec_escape(s).len() >= s.len(),
        forall|i: int| 0 <= i < spec_escape(s).len() ==> (#[trigger] spec_escape(s)[i]) != '\n',
        s.len() > 0 && !spec_is_space(s[s.len() - 1]) ==> (spec_escape(s).len() > 0 && !spec_is_space(
            spec_escape(s)[spec_escape(s).len() - 1],
        )),
    decreases s.len(),
{
    if s.len() > 0 {
        let rest = s.subrange(1, s.len() as int);
        lemma_escape_shape(rest);
        let head = spec_escape_char(s[0]);
        let e = spec_escape(s);
        assert(e == head + spec_escape(rest));
        assert(forall|i: int| 0 <= i < head.len() ==> (#[trigger] head[i]) != '\n');
        assert forall|i: int| 0 <= i < e.len() implies (#[trigger] e[i]) != '\n' by {
            if i < head.len() {
                assert(e[i] == head[i]);
            } else {
                assert(e[i] == spec_escape(rest)[i - head.len()]);
            }
        }
        if s.len() > 0 && !spec_is_space(s[s.len() - 1]) {
            if rest.len() == 0 {
                assert(s.len() == 1);
                assert(spec_escape(rest) =~= Seq::<char>::empty());
                assert(e =~= head);
                // the last character of the escape of one character
                assert(!spec_is_space(e[e.len() - 1]));
            } else {
                assert(rest[rest.len() - 1] == s[s.len() - 1]);
                assert(e[e.len() - 1] == spec_escape(rest)[spec_escape(rest).len() - 1]);
            }
        }
    }
}

/// Decimal text never holds a newline, separator or whitespace.
proof fn lemma_int_text_shape(v: int)
    ensures
        int_text(v).len() > 0,
        forall|i: int| 0 <= i < int_text(v).len() ==> (#[trigger] int_text(v)[i]) != '\n' && int_text(
            v,
        )[i] != ':' && !spec_is_space(int_text(v)[i]),
{
    let n: nat = if v < 0 {
        (-v) as nat
    } else {
        v as nat
    };
    crate::numtext::lemma_dec_digits_text_all_digits(n);
    let d = crate::numtext::dec_digits_text(n);
    if v < 0 {
        let e = int_text(v);
        assert(e == seq!['-'] + d);
        assert forall|i: int| 0 <= i < e.len() implies (#[trigger] e[i]) != '\n' && e[i] != ':'
            && !spec_is_space(e[i]) by {
            if i == 0 {
                assert(e[i] == '-');
            } else {
                assert(e[i] == d[i - 1]);
                assert(crate::numtext::is_dec_digit(d[i - 1]));
            }
        }
    } else {
        assert forall|i: int| 0 <= i < int_text(v).len() implies (#[trigger] int_text(v)[i]) != '\n'
            && int_text(v)[i] != ':' && !spec_is_space(int_text(v)[i]) by {
            assert(crate::numtext::is_dec_digit(d[i]));
        }
    }
}

/// Scanning to the first newline yields the piece before it.
proof fn lemma_lines_scan(w: Seq<char>, i: int, start: int, k: int)
    requires
        0 <= start <= i <= k <= w.len(),
        w[k] == '\n',
        k < w.len(),
        forall|j: int| i <= j < k ==> (#[trigger] w[j]) != '\n',
    ensures
        spec_lines(w, i, start) == seq![w.subrange(start, k)] + spec_lines(w, k + 1, k + 1),
    decreases k - i,
{
    if i < k {
        lemma_lines_scan(w, i + 1, start, k);
    }
}

/// Splitting from an offset equals splitting the suffix.
proof fn lemma_lines_shift(w: Seq<char>, off: int, i: int, start: int)
    requires
        0 <= off <= start <= i <= w.len(),
    ensures
        spec_lines(w, i, start) == spec_lines(
            w.subrange(off, w.len() as int),
            i - off,
            start - off,
        ).map_values(|p: Seq<char>| p),
        spec_lines(w, i, start) == spec_lines(w.subrange(off, w.len() as int), i - off, start - off),
    decreases w.len() - i,
{
    let tail = w.subrange(off, w.len() as int);
    if i >= w.len() {
        if start < w.len() {
            assert(w.subrange(start, w.len() as int) =~= tail.subrange(
                start - off,
                tail.len() as int,
            ));
            assert(spec_lines(tail, i - off, start - off) =~= seq![
                tail.subrange(start - off, tail.len() as int),
            ]);
            assert(spec_lines(w, i, start) =~= seq![w.subrange(start, w.len() as int)]);
        } else {
            assert(spec_lines(w, i, start) =~= Seq::<Seq<char>>::empty());
            assert(spec_lines(tail, i - off, start - off) =~= Seq::<Seq<char>>::empty());
        }
    } else {
        assert(tail[i - off] == w[i]);
        if w[i] == '\n' {
            lemma_lines_shift(w, off, i + 1, i + 1);
            assert(w.subrange(start, i) =~= tail.subrange(start - off, i - off));
        } else {
            lemma_lines_shift(w, off, i + 1, start);
        }
    }
}

/// Splitting the join of newline-free lines gives the lines back.
proof fn lemma_lines_of_join(ls: Seq<Seq<char>>)
    requires
        forall|k: int, j: int|
            0 <= k < ls.len() && 0 <= j < ls[k].len() ==> (#[trigger] ls[k][j]) != '\n',
    ensures
        spec_lines(spec_join_lines(ls), 0, 0) == ls,
    decreases ls.len(),
{
    let w = spec_join_lines(ls);
    if ls.len() == 0 {
        assert(w =~= Seq::<char>::empty());
        assert(spec_lines(w, 0, 0) =~= Seq::<Seq<char>>::empty());
    } else {
        let rest = ls.subrange(1, ls.len() as int);
        let wrest = spec_join_lines(rest);
        assert(w == ls[0] + seq!['\n'] + wrest);
        let k = ls[0].len() as int;
        assert(w[k] == '\n');
        assert forall|j: int| 0 <= j < k implies (#[trigger] w[j]) != '\n' by {
            assert(w[j] == ls[0][j]);
        }
        lemma_lines_scan(w, 0, 0, k);
        assert(w.subrange(0, k) =~= ls[0]);
        lemma_lines_shift(w, k + 1, k + 1, k + 1);
        assert(w.subrange(k + 1, w.len() as int) =~= wrest);
        assert forall|a: int, j: int|
            0 <= a < rest.len() && 0 <= j < rest[a].len() implies (#[trigger] rest[a][j])
            != '\n' by {
            assert(rest[a] == ls[a + 1]);
        }
        lemma_lines_of_join(rest);
        assert(spec_lines(w, 0, 0) =~= ls);
    }
}

/// An int entry's line reads back as the same binding.
proof fn lemma_parse_int_line(k: Seq<char>, v: int)
    requires
        state_key_ok(k),
        i32::MIN <= v <= i32::MAX,
    ensures
        spec_parse_line(spec_entry_line(k, ValSpec::Int(v))) == LineParse::PutInt(k, v as i32),
        forall|j: int|
            0 <= j < spec_entry_line(k, ValSpec::Int(v)).len() ==> (#[trigger] spec_entry_line(
                k,
                ValSpec::Int(v),
            )[j]) != '\n',
{
    reveal_strlit("int:");
    reveal_strlit("int");
    let line = spec_entry_line(k, ValSpec::Int(v));
    let pre = ("int:")@;
    lemma_int_text_shape(v);
    assert(line == pre + k + seq![':'] + int_text(v));
    assert(pre.len() == 4 && pre[0] == 'i' && pre[1] == 'n' && pre[2] == 't' && pre[3] == ':');
    // no newline anywhere
    assert forall|j: int| 0 <= j < line.len() implies (#[trigger] line[j]) != '\n' by {
        if j < 4 {
        } else if j < 4 + k.len() {
            assert(line[j] == k[j - 4]);
        } else if j == 4 + k.len() {
            assert(line[j] == ':');
        } else {
            assert(line[j] == int_text(v)[j - 5 - k.len()]);
        }
    }
    // the line trims to itself
    assert(line[0] == 'i');
    assert(line[line.len() - 1] == int_text(v)[int_text(v).len() - 1]);
    crate::text::lemma_trim_noop(line);
    // first colon is at index 3
    crate::parse::lemma_find_colon(line, 0);
    let c1 = crate::parse::spec_find_colon(line, 0);
    assert(line[3] == ':');
    if c1 == -1 {
        assert(line[3] != ':');
    }
    assert(0 <= c1 < line.len() && line[c1] == ':');
    if c1 < 3 {
        assert(line[c1] == pre[c1]);
        assert(line[c1] != ':');
    }
    if c1 > 3 {
        assert(line[3] != ':');
    }
    assert(c1 == 3);
    // second colon is right after the name
    crate::parse::lemma_find_colon(line, 4);
    let c2 = crate::parse::spec_find_colon(line, 4);
    assert(line[4 + k.len() as int] == ':');
    if c2 == -1 {
        assert(line[4 + k.len() as int] != ':');
    }
    assert(4 <= c2 < line.len() && line[c2] == ':');
    if c2 < 4 + k.len() {
        assert(line[c2] == k[c2 - 4]);
        assert(line[c2] != ':');
    }
    if c2 > 4 + k.len() {
        assert(line[4 + k.len() as int] != ':');
    }
    assert(c2 == 4 + k.len());
    assert(line.subrange(0, 3) =~= ("int")@);
    assert(line.subrange(4, c2) =~= k);
    assert(line.subrange(c2 + 1, line.len() as int) =~= int_text(v));
    lemma_int_text_round_trip(v as i32);
    assert(int_text(v as i32 as int) == int_text(v));
    assert(parse_i32_spec(int_text(v)) == Some(v as i32));
    assert(!(line.len() >= 2 && line[0] == '/' && line[1] == '/'));
}

/// A string entry's line reads back as the same binding.
proof fn lemma_parse_str_line(k: Seq<char>, s: Seq<char>)
    requires
        state_key_ok(k),
        state_text_ok(s),
    ensures
        spec_parse_line(spec_entry_line(k, ValSpec::Str(s))) == LineParse::PutStr(k, s),
        forall|j: int|
            0 <= j < spec_entry_line(k, ValSpec::Str(s)).len() ==> (#[trigger] spec_entry_line(
                k,
                ValSpec::Str(s),
            )[j]) != '\n',
{
    reveal_strlit("string:");
    reveal_strlit("string");
    let line = spec_entry_line(k, ValSpec::Str(s));
    let pre = ("string:")@;
    let e = spec_escape(s);
    lemma_escape_shape(s);
    assert(line == pre + k + seq![':'] + e);
    assert(pre.len() == 7 && pre[0] == 's' && pre[1] == 't' && pre[2] == 'r' && pre[3] == 'i'
        && pre[4] == 'n' && pre[5] == 'g' && pre[6] == ':');
    assert forall|j: int| 0 <= j < line.len() implies (#[trigger] line[j]) != '\n' by {
        if j < 7 {
        } else if j < 7 + k.len() {
            assert(line[j] == k[j - 7]);
        } else if j == 7 + k.len() {
            assert(line[j] == ':');
        } else {
            assert(line[j] == e[j - 8 - k.len()]);
        }
    }
    assert(line[0] == 's');
    if s.len() == 0 {
        assert(e =~= Seq::<char>::empty());
        assert(line[line.len() - 1] == ':');
    } else {
        assert(line[line.len() - 1] == e[e.len() - 1]);
    }
    crate::text::lemma_trim_noop(line);
    crate::parse::lemma_find_colon(line, 0);
    let c1 = crate::parse::spec_find_colon(line, 0);
    assert(line[6] == ':');
    if c1 == -1 {
        assert(line[6] != ':');
    }
    assert(0 <= c1 < line.len() && line[c1] == ':');
    if c1 < 6 {
        assert(line[c1] == pre[c1]);
        assert(line[c1] != ':');
    }
    if c1 > 6 {
        assert(line[6] != ':');
    }
    assert(c1 == 6);
    crate::parse::lemma_find_colon(line, 7);
    let c2 = crate::parse::spec_find_colon(line, 7);
    assert(line[7 + k.len() as int] == ':');
    if c2 == -1 {
        assert(line[7 + k.len() as int] != ':');
    }
    assert(7 <= c2 < line.len() && line[c2] == ':');
    if c2 < 7 + k.len() {
        assert(line[c2] == k[c2 - 7]);
        assert(line[c2] != ':');
    }
    if c2 > 7 + k.len() {
        assert(line[7 + k.len() as int] != ':');
    }
    assert(c2 == 7 + k.len());
    assert(line.subrange(0, 6) =~= ("string")@);
    assert(line.subrange(0, 6) != ("int")@) by {
        reveal_strlit("int");
    }
    assert(line.subrange(7, c2) =~= k);
    assert(line.subrange(c2 + 1, line.len() as int) =~= e);
    lemma_unescape_escape(s);
    assert(!(line.len() >= 2 && line[0] == '/' && line[1] == '/'));
}

/// Folding an int table's lines onto an accumulator appends the table.
proof fn lemma_parse_int_table(t: TableModel, i: int, acc: TableModel, floats: TableModel, strs: TableModel, rest: Seq<Seq<char>>)
    requires
        0 <= i <= t.len(),
        table_kind(t, 0),
        forall|j: int| 0 <= j < t.len() ==> state_key_ok((#[trigger] t[j]).0),
        forall|j: int|
            0 <= j < t.len() ==> ((#[trigger] t[j]).1 matches ValSpec::Int(v) && i32::MIN <= v
                <= i32::MAX),
        keys_unique(acc + t.subrange(i, t.len() as int)),
    ensures
        spec_parse_lines(spec_table_lines(t, i) + rest, acc, floats, strs) == spec_parse_lines(
            rest,
            acc + t.subrange(i, t.len() as int),
            floats,
            strs,
        ),
    decreases t.len() - i,
{
    if i >= t.len() {
        assert(spec_table_lines(t, i) =~= Seq::<Seq<char>>::empty());
        assert(spec_table_lines(t, i) + rest =~= rest);
        assert(acc + t.subrange(i, t.len() as int) =~= acc);
    } else {
        let k = t[i].0;
        let v = t[i].1->Int_0;
        lemma_parse_int_line(k, v);
        let ls = spec_table_lines(t, i) + rest;
        assert(ls[0] == spec_entry_line(k, ValSpec::Int(v)));
        assert(ls.subrange(1, ls.len() as int) =~= spec_table_lines(t, i + 1) + rest);
        // the key is fresh in the accumulator
        let joined = acc + t.subrange(i, t.len() as int);
        lemma_key_at(acc, k);
        let j = spec_key_at(acc, k);
        if j != -1 {
            assert(acc[j].0 == k);
            assert(joined[j] == acc[j]);
            assert(joined[acc.len() as int] == t.subrange(i, t.len() as int)[0]);
            assert(joined[j].0 != joined[acc.len() as int].0);
        }
        assert(j == -1);
        assert(spec_dict_update(acc, k, ValSpec::Int(v as i32 as int)) == acc.push(
            (k, ValSpec::Int(v)),
        ));
        let acc2 = acc.push((k, t[i].1));
        assert(acc2 + t.subrange(i + 1, t.len() as int) =~= joined);
        assert(keys_unique(acc2 + t.subrange(i + 1, t.len() as int)));
        lemma_parse_int_table(t, i + 1, acc2, floats, strs, rest);
    }
}

/// Folding a string table's lines onto an accumulator appends the table.
proof fn lemma_parse_str_table(t: TableModel, i: int, ints: TableModel, floats: TableModel, acc: TableModel, rest: Seq<Seq<char>>)
    requires
        0 <= i <= t.len(),
        table_kind(t, 2),
        forall|j: int| 0 <= j < t.len() ==> state_key_ok((#[trigger] t[j]).0),
        forall|j: int|
            0 <= j < t.len() ==> ((#[trigger] t[j]).1 matches ValSpec::Str(s) && state_text_ok(s)),
        keys_unique(acc + t.subrange(i, t.len() as int)),
    ensures
        spec_parse_lines(spec_table_lines(t, i) + rest, ints, floats, acc) == spec_parse_lines(
            rest,
            ints,
            floats,
            acc + t.subrange(i, t.len() as int),
        ),
    decreases t.len() - i,
{
    if i >= t.len() {
        assert(spec_table_lines(t, i) =~= Seq::<Seq<char>>::empty());
        assert(spec_table_lines(t, i) + rest =~= rest);
        assert(acc + t.subrange(i, t.len() as int) =~= acc);
    } else {
        let k = t[i].0;
        let s = t[i].1->Str_0;
        lemma_parse_str_line(k, s);
        let ls = spec_table_lines(t, i) + rest;
        assert(ls[0] == spec_entry_line(k, ValSpec::Str(s)));
        assert(ls.subrange(1, ls.len() as int) =~= spec_table_lines(t, i + 1) + rest);
        let joined = acc + t.subrange(i, t.len() as int);
        lemma_key_at(acc, k);
        let j = spec_key_at(acc, k);
        if j != -1 {
            assert(acc[j].0 == k);
            assert(joined[j] == acc[j]);
            assert(joined[acc.len() as int] == t.subrange(i, t.len() as int)[0]);
            assert(joined[j].0 != joined[acc.len() as int].0);
        }
        assert(j == -1);
        assert(spec_dict_update(acc, k, ValSpec::Str(s)) == acc.push((k, ValSpec::Str(s))));
        let acc2 = acc.push((k, t[i].1));
        assert(acc2 + t.subrange(i + 1, t.len() as int) =~= joined);
        assert(keys_unique(acc2 + t.subrange(i + 1, t.len() as int)));
        lemma_parse_str_table(t, i + 1, ints, floats, acc2, rest);
    }
}

/// Saving a store and loading the text back restores every variable: the law
/// holds for the values a state file carries faithfully — int and string
/// variables whose names have no separator or line break in them and whose
/// string values do not end in whitespace. (A float's printed form has no
/// stated inverse, and arrays and dictionaries go through the JSON reader,
/// whose behaviour is pinned only at run time.)
pub proof fn lemma_state_round_trip(vars: Variables)
    requires
        vars.wf(),
        vars.floats().len() == 0,
        vars.arrays().len() == 0,
        vars.dicts().len() == 0,
        forall|j: int| 0 <= j < vars.ints().len() ==> state_key_ok((#[trigger] vars.ints()[j]).0),
        forall|j: int|
            0 <= j < vars.strings().len() ==> state_key_ok((#[trigger] vars.strings()[j]).0),
        forall|j: int|
            0 <= j < vars.strings().len() ==> ((#[trigger] vars.strings()[j]).1 matches ValSpec::Str(s)
                && state_text_ok(s)),
    ensures
        spec_parse_state(spec_render_state(vars)) == Some(
            (vars.ints(), Seq::<(Seq<char>, ValSpec)>::empty(), vars.strings()),
        ),
{
    let ti = vars.ints();
    let ts = vars.strings();
    // int values are i32-sized: they are models of i32 payloads
    assert forall|j: int|
        0 <= j < ti.len() implies ((#[trigger] ti[j]).1 matches ValSpec::Int(v) && i32::MIN <= v
        <= i32::MAX) by {
        lemma_vmodel_pairs_len(vars.int_variables@);
        assert(ti[j] == ((vars.int_variables@[j]).0@, vmodel(vars.int_variables@[j].1)));
        assert(crate::store::val_kind(ti[j].1) == 0);
    }
    let li = spec_table_lines(ti, 0);
    let lsx = spec_table_lines(ts, 0);
    assert(spec_table_lines(vars.floats(), 0) =~= Seq::<Seq<char>>::empty());
    assert(spec_table_lines(vars.arrays(), 0) =~= Seq::<Seq<char>>::empty());
    assert(spec_table_lines(vars.dicts(), 0) =~= Seq::<Seq<char>>::empty());
    let all = spec_state_lines(vars);
    assert(all =~= li + lsx);
    // every line is newline-free
    lemma_table_lines_shape_int(ti, 0);
    lemma_table_lines_shape_str(ts, 0);
    assert forall|k: int, j: int|
        0 <= k < all.len() && 0 <= j < all[k].len() implies (#[trigger] all[k][j]) != '\n' by {
        if k < li.len() {
            assert(all[k] == li[k]);
        } else {
            assert(all[k] == lsx[k - li.len()]);
        }
    }
    lemma_lines_of_join(all);
    assert(spec_lines(spec_render_state(vars), 0, 0) == all);
    // fold the int lines, then the string lines
    assert(Seq::<(Seq<char>, ValSpec)>::empty() + ti.subrange(0, ti.len() as int) =~= ti);
    assert(keys_unique(Seq::<(Seq<char>, ValSpec)>::empty() + ti.subrange(0, ti.len() as int)));
    lemma_parse_int_table(ti, 0, Seq::empty(), Seq::empty(), Seq::empty(), lsx);
    assert(Seq::<(Seq<char>, ValSpec)>::empty() + ti.subrange(0, ti.len() as int) =~= ti);
    assert(Seq::<(Seq<char>, ValSpec)>::empty() + ts.subrange(0, ts.len() as int) =~= ts);
    assert(keys_unique(Seq::<(Seq<char>, ValSpec)>::empty() + ts.subrange(0, ts.len() as int)));
    lemma_parse_str_table(ts, 0, ti, Seq::empty(), Seq::empty(), Seq::empty());
    assert(lsx + Seq::<Seq<char>>::empty() =~= lsx);
    assert(spec_parse_lines(Seq::empty(), ti, Seq::empty(), ts) == Some(
        (ti, Seq::<(Seq<char>, ValSpec)>::empty(), ts),
    ));
    assert(spec_parse_lines(all, Seq::empty(), Seq::empty(), Seq::empty()) == Some(
        (ti, Seq::<(Seq<char>, ValSpec)>::empty(), ts),
    ));
}

/// Every line of an int table is newline-free.
proof fn lemma_table_lines_shape_int(t: TableModel, i: int)
    requires
        0 <= i <= t.len(),
        table_kind(t, 0),
        forall|j: int| 0 <= j < t.len() ==> state_key_ok((#[trigger] t[j]).0),
    ensures
        forall|k: int, j: int|
            0 <= k < spec_table_lines(t, i).len() && 0 <= j < spec_table_lines(t, i)[k].len()
                ==> (#[trigger] spec_table_lines(t, i)[k][j]) != '\n',
    decreases t.len() - i,
{
    if i < t.len() {
        lemma_table_lines_shape_int(t, i + 1);
        let ls = spec_table_lines(t, i);
        let v = t[i].1->Int_0;
        lemma_parse_int_line_shape(t[i].0, v);
        assert forall|k: int, j: int|
            0 <= k < ls.len() && 0 <= j < ls[k].len() implies (#[trigger] ls[k][j]) != '\n' by {
            if k == 0 {
                assert(ls[k] == spec_entry_line(t[i].0, ValSpec::Int(v)));
            } else {
                assert(ls[k] == spec_table_lines(t, i + 1)[k - 1]);
            }
        }
    }
}

/// Every line of a string table is newline-free.
proof fn lemma_table_lines_shape_str(t: TableModel, i: int)
    requires
        0 <= i <= t.len(),
        table_kind(t, 2),
        forall|j: int| 0 <= j < t.len() ==> state_key_ok((#[trigger] t[j]).0),
        forall|j: int|
            0 <= j < t.len() ==> ((#[trigger] t[j]).1 matches ValSpec::Str(s) && state_text_ok(s)),
    ensures
        forall|k: int, j: int|
            0 <= k < spec_table_lines(t, i).len() && 0 <= j < spec_table_lines(t, i)[k].len()
                ==> (#[trigger] spec_table_lines(t, i)[k][j]) != '\n',
    decreases t.len() - i,
{
    if i < t.len() {
        lemma_table_lines_shape_str(t, i + 1);
        let ls = spec_table_lines(t, i);
        let s = t[i].1->Str_0;
        lemma_parse_str_line(t[i].0, s);
        assert forall|k: int, j: int|
            0 <= k < ls.len() && 0 <= j < ls[k].len() implies (#[trigger] ls[k][j]) != '\n' by {
            if k == 0 {
                assert(ls[k] == spec_entry_line(t[i].0, ValSpec::Str(s)));
            } else {
                assert(ls[k] == spec_table_lines(t, i + 1)[k - 1]);
            }
        }
    }
}

/// The newline-free part of the int line lemma, usable without bounds on v.
proof fn lemma_parse_int_line_shape(k: Seq<char>, v: int)
    requires
        state_key_ok(k),
    ensures
        forall|j: int|
            0 <= j < spec_entry_line(k, ValSpec::Int(v)).len() ==> (#[trigger] spec_entry_line(
                k,
                ValSpec::Int(v),
            )[j]) != '\n',
{
    reveal_strlit("int:");
    let line = spec_entry_line(k, ValSpec::Int(v));
    let pre = ("int:")@;
    lemma_int_text_shape(v);
    assert(line == pre + k + seq![':'] + int_text(v));
    assert(pre.len() == 4 && pre[0] == 'i' && pre[1] == 'n' && pre[2] == 't' && pre[3] == ':');
    assert forall|j: int| 0 <= j < line.len() implies (#[trigger] line[j]) != '\n' by {
        if j < 4 {
        } else if j < 4 + k.len() {
            assert(line[j] == k[j - 4]);
        } else if j == 4 + k.len() {
            assert(line[j] == ':');
        } else {
            assert(line[j] == int_text(v)[j - 5 - k.len()]);
        }
    }
}

} // verus!
