//! Reference resolution, `$name` substitution inside text, and the condition
//! evaluator.
//!
//! `resolve_to_string` turns one reference into text: a `$`-prefixed or bare
//! name is looked up across the five tables in priority order, and a name
//! bound nowhere silently degrades to its literal reading. Conditions compare
//! two resolved sides numerically where both parse as doubles (with a
//! tolerant `==`/`!=`), else lexicographically as text.

use vstd::prelude::*;

use crate::errors::{emodel, ErrSpec, InterpError};
use crate::float::{
    float_abs, float_almost_eq, float_cmp, float_cmp_bits, float_dec_of, float_from_dec,
    float_parse, spec_float_abs, spec_float_almost_eq, float_sub, float_sub_bits, F64_EPSILON_BITS,
};
use crate::numtext::int_text;
use crate::parse::{parse_value, spec_parse_value};
use crate::store::{spec_table_lookup, Variables};
use crate::text::{
    chars_of, is_ident_char, is_space, spec_is_ident_char, spec_is_space, string_of,
};
use crate::value::{spec_display_text, spec_value_text, value_chars, vmodel, ValSpec};

verus! {

/// What a reference resolves to: the bound value rendered for display, in
/// table priority order, or the literal reading of the raw text.
pub open spec fn spec_resolve(vars: Variables, value: Seq<char>) -> Seq<char> {
    let key = if value.len() > 0 && value[0] == '$' {
        value.subrange(1, value.len() as int)
    } else {
        value
    };
    match spec_table_lookup(vars.ints(), key) {
        Some(ValSpec::Int(i)) => int_text(i),
        _ => match spec_table_lookup(vars.floats(), key) {
            Some(ValSpec::Float(b)) => float_dec_of(b),
            _ => match spec_table_lookup(vars.strings(), key) {
                Some(ValSpec::Str(s)) => s,
                _ => match spec_table_lookup(vars.arrays(), key) {
                    Some(ValSpec::Array(a)) => spec_value_text(ValSpec::Array(a)),
                    _ => match spec_table_lookup(vars.dicts(), key) {
                        Some(ValSpec::Dict(d)) => spec_value_text(ValSpec::Dict(d)),
                        _ => spec_display_text(spec_parse_value(value)),
                    },
                },
            },
        },
    }
}

/// Resolves a `$name` or bare reference to display text; never fails (an
/// unbound name is read as a literal).
pub fn resolve_to_string(vars: &Variables, value: &str) -> (r: Result<String, InterpError>)
    requires
        vars.wf(),
    ensures
        r is Ok,
        r matches Ok(s) ==> s@ == spec_resolve(*vars, value@),
{
    let cs = chars_of(value);
    let key: String = if cs.len() > 0 && cs[0] == '$' {
        let tail = crate::parse::vec_subrange(&cs, 1, cs.len());
        string_of(tail.as_slice())
    } else {
        string_of(cs.as_slice())
    };
    let name: &str = key.as_str();
    if let Some(i) = vars.get_int_data(name) {
        let t = crate::numtext::int_to_chars(i);
        return Ok(string_of(t.as_slice()));
    }
    if let Some(bits) = vars.get_float_data(name) {
        let t = crate::float::float_display(bits);
        return Ok(string_of(t.as_slice()));
    }
    if let Some(s) = vars.get_string_data(name) {
        return Ok(s);
    }
    if let Some(a) = vars.get_array_data(name) {
        let v = crate::value::ParsedValue::Array(a);
        let t = value_chars(&v);
        return Ok(string_of(t.as_slice()));
    }
    if let Some(d) = vars.get_dict_data(name) {
        let v = crate::value::ParsedValue::Dict(d);
        let t = value_chars(&v);
        return Ok(string_of(t.as_slice()));
    }
    let parsed = parse_value(value);
    match parsed {
        crate::value::ParsedValue::Str(s) => Ok(s),
        other => {
            let t = value_chars(&other);
            Ok(string_of(t.as_slice()))
        },
    }
}

/// The end of the identifier run that starts at i.
pub open spec fn spec_ident_end(s: Seq<char>, i: int) -> int
    decreases s.len() - i,
{
    if i < 0 || i >= s.len() {
        i
    } else if spec_is_ident_char(s[i]) {
        spec_ident_end(s, i + 1)
    } else {
        i
    }
}

pub proof fn lemma_ident_end(s: Seq<char>, i: int)
    requires
        0 <= i <= s.len(),
    ensures
        i <= spec_ident_end(s, i) <= s.len(),
        forall|n: int| i <= n < spec_ident_end(s, i) ==> spec_is_ident_char(#[trigger] s[n]),
        spec_ident_end(s, i) < s.len() ==> !spec_is_ident_char(s[spec_ident_end(s, i)]),
    decreases s.len() - i,
{
    if i < s.len() && spec_is_ident_char(s[i]) {
        lemma_ident_end(s, i + 1);
    }
}

/// What one resolved `$name` occurrence becomes: the int, float or string
/// binding rendered, or the occurrence kept as written.
pub open spec fn spec_subst_name(vars: Variables, name: Seq<char>) -> Seq<char> {
    match spec_table_lookup(vars.ints(), name) {
        Some(ValSpec::Int(i)) => int_text(i),
        _ => match spec_table_lookup(vars.floats(), name) {
            Some(ValSpec::Float(b)) => float_dec_of(b),
            _ => match spec_table_lookup(vars.strings(), name) {
                Some(ValSpec::Str(s)) => s,
                _ => seq!['$'] + name,
            },
        },
    }
}

/// The text from index i on with every `$name` occurrence substituted.
pub open spec fn spec_subst(vars: Variables, s: Seq<char>, i: int) -> Seq<char>
    decreases s.len() - i,
    via spec_subst_dec
{
    if i < 0 || i >= s.len() {
        Seq::empty()
    } else if s[i] == '$' {
        let j = spec_ident_end(s, i + 1);
        if j == i + 1 {
            seq!['$'] + spec_subst(vars, s, i + 1)
        } else {
            spec_subst_name(vars, s.subrange(i + 1, j)) + spec_subst(vars, s, j)
        }
    } else {
        seq![s[i]] + spec_subst(vars, s, i + 1)
    }
}

#[via_fn]
proof fn spec_subst_dec(vars: Variables, s: Seq<char>, i: int) {
    if 0 <= i < s.len() {
        lemma_ident_end(s, i + 1);
    }
}

/// Replaces every `$name` whose name is bound as an int, float or string by
/// its rendering; an unbound or empty reference stays as written.
pub fn substitute_variables_in_string(vars: &Variables, s: &str) -> (r: String)
    requires
        vars.wf(),
    ensures
        r@ == spec_subst(*vars, s@, 0),
{
    let cs = chars_of(s);
    let mut out: Vec<char> = Vec::new();
    let mut i: usize = 0;
    while i < cs.len()
        invariant
            0 <= i <= cs@.len(),
            cs@ == s@,
            vars.wf(),
            spec_subst(*vars, s@, 0) == out@ + spec_subst(*vars, s@, i as int),
        decreases cs@.len() - i,
    {
        let ghost out0 = out@;
        let c = cs[i];
        if c == '$' {
            let mut j: usize = i + 1;
            while j < cs.len() && is_ident_char(cs[j])
                invariant
                    i + 1 <= j <= cs@.len(),
                    cs@ == s@,
                    forall|n: int| i + 1 <= n < j ==> spec_is_ident_char(#[trigger] s@[n]),
                decreases cs@.len() - j,
            {
                j = j + 1;
            }
            proof {
                lemma_ident_end(s@, i + 1);
                let je = spec_ident_end(s@, i + 1);
                if je < j {
                    assert(spec_is_ident_char(s@[je]));
                }
                if je > j {
                    assert(spec_is_ident_char(s@[j as int]));
                }
                assert(je == j as int);
            }
            if j == i + 1 {
                out.push('$');
                proof {
                    assert(out@ =~= out0 + seq!['$']);
                    assert(spec_subst(*vars, s@, 0) =~= out@ + spec_subst(*vars, s@, i + 1));
                }
                i = i + 1;
            } else {
                let name_chars = crate::parse::vec_subrange(&cs, i + 1, j);
                let name = string_of(name_chars.as_slice());
                let ghost nm = s@.subrange(i + 1, j as int);
                let mut piece: Vec<char>;
                if let Some(v) = vars.get_int_data(name.as_str()) {
                    piece = crate::numtext::int_to_chars(v);
                } else if let Some(bits) = vars.get_float_data(name.as_str()) {
                    piece = crate::float::float_display(bits);
                } else if let Some(sv) = vars.get_string_data(name.as_str()) {
                    piece = chars_of(sv.as_str());
                } else {
                    piece = Vec::new();
                    piece.push('$');
                    let mut rest = chars_of(name.as_str());
                    piece.append(&mut rest);
                    proof {
                        assert(piece@ =~= seq!['$'] + nm);
                    }
                }
                proof {
                    assert(piece@ == spec_subst_name(*vars, nm));
                }
                out.append(&mut piece);
                proof {
                    assert(out@ =~= out0 + spec_subst_name(*vars, nm));
                    assert(spec_subst(*vars, s@, 0) =~= out@ + spec_subst(*vars, s@, j as int));
                }
                i = j;
            }
        } else {
            out.push(c);
            proof {
                assert(out@ =~= out0 + seq![s@[i as int]]);
                assert(spec_subst(*vars, s@, 0) =~= out@ + spec_subst(*vars, s@, i + 1));
            }
            i = i + 1;
        }
    }
    proof {
        assert(spec_subst(*vars, s@, cs@.len() as int) =~= Seq::<char>::empty());
        assert(out@ =~= spec_subst(*vars, s@, 0));
    }
    string_of(out.as_slice())
}

/// The whitespace-separated words of a condition.
pub open spec fn spec_ws_split(s: Seq<char>, i: int, cur: Seq<char>) -> Seq<Seq<char>>
    decreases s.len() - i,
{
    if i >= s.len() {
        if cur.len() > 0 {
            seq![cur]
        } else {
            Seq::empty()
        }
    } else if spec_is_space(s[i]) {
        if cur.len() > 0 {
            seq![cur] + spec_ws_split(s, i + 1, Seq::empty())
        } else {
            spec_ws_split(s, i + 1, cur)
        }
    } else {
        spec_ws_split(s, i + 1, cur.push(s[i]))
    }
}

pub open spec fn spec_condition_tokens(s: Seq<char>) -> Seq<Seq<char>> {
    spec_ws_split(s, 0, Seq::empty())
}

/// Splits on whitespace runs, as `split_whitespace` does.
fn ws_split(s: &str) -> (r: Vec<String>)
    ensures
        r@.map_values(|t: String| t@) == spec_condition_tokens(s@),
{
    let cs = chars_of(s);
    let ghost whole = spec_condition_tokens(s@);
    let mut r: Vec<String> = Vec::new();
    let ghost mut done: Seq<Seq<char>> = Seq::empty();
    let mut cur: Vec<char> = Vec::new();
    let mut i: usize = 0;
    while i < cs.len()
        invariant
            0 <= i <= cs@.len(),
            cs@ == s@,
            whole == done + spec_ws_split(s@, i as int, cur@),
            r@.map_values(|t: String| t@) == done,
            r@.len() == done.len(),
        decreases cs@.len() - i,
    {
        let c = cs[i];
        if is_space(c) {
            if cur.len() > 0 {
                let ghost done0 = done;
                let ghost r0 = r@;
                let tok = string_of(cur.as_slice());
                r.push(tok);
                cur = Vec::new();
                proof {
                    done = done0.push(tok@);
                    assert forall|k: int| 0 <= k < r@.len() implies (#[trigger] r@[k])@
                        == done[k] by {
                        if k < r0.len() {
                            assert(r@[k] == r0[k]);
                            assert(r0.map_values(|t: String| t@)[k] == done0[k]);
                        }
                    }
                    assert(r@.map_values(|t: String| t@) =~= done);
                }
            }
        } else {
            cur.push(c);
        }
        i = i + 1;
    }
    if cur.len() > 0 {
        let ghost done0 = done;
        let ghost r0 = r@;
        let tok = string_of(cur.as_slice());
        r.push(tok);
        proof {
            done = done0.push(tok@);
            assert forall|k: int| 0 <= k < r@.len() implies (#[trigger] r@[k])@ == done[k] by {
                if k < r0.len() {
                    assert(r@[k] == r0[k]);
                    assert(r0.map_values(|t: String| t@)[k] == done0[k]);
                }
            }
            assert(r@.map_values(|t: String| t@) =~= done);
            assert(spec_ws_split(s@, s@.len() as int, cur@) =~= seq![cur@]);
            assert(whole =~= done);
        }
    } else {
        proof {
            assert(spec_ws_split(s@, s@.len() as int, cur@) =~= Seq::<Seq<char>>::empty());
            assert(whole =~= done);
        }
    }
    r
}

/// The words from index `from` on, joined with single spaces.
pub open spec fn spec_join_space(toks: Seq<Seq<char>>, from: int) -> Seq<char>
    decreases toks.len() - from,
{
    if from < 0 || from >= toks.len() {
        Seq::empty()
    } else if from == toks.len() - 1 {
        toks[from]
    } else {
        toks[from] + seq![' '] + spec_join_space(toks, from + 1)
    }
}

/// Joins tokens from index `from` on with single spaces.
pub fn join_space(toks: &Vec<String>, from: usize) -> (r: String)
    ensures
        r@ == spec_join_space(toks@.map_values(|t: String| t@), from as int),
{
    let ghost m = toks@.map_values(|t: String| t@);
    let mut out: Vec<char> = Vec::new();
    let mut i: usize = from;
    let ghost mut donetext: Seq<char> = Seq::empty();
    while i < toks.len()
        invariant
            from <= i <= toks@.len() || (from > toks@.len() && i == from),
            m == toks@.map_values(|t: String| t@),
            m.len() == toks@.len(),
            out@ == donetext,
            spec_join_space(m, from as int) == donetext + spec_join_space(m, i as int),
        decreases toks@.len() - i,
    {
        let ghost out0 = out@;
        let mut piece = chars_of(toks[i].as_str());
        proof {
            assert(m[i as int] == toks@[i as int]@);
        }
        out.append(&mut piece);
        if i + 1 < toks.len() {
            out.push(' ');
            proof {
                donetext = donetext + m[i as int] + seq![' '];
                assert(out@ =~= donetext);
                assert(spec_join_space(m, i as int) == m[i as int] + seq![' '] + spec_join_space(
                    m,
                    i + 1,
                ));
                assert(donetext + spec_join_space(m, i + 1) =~= out0 + spec_join_space(
                    m,
                    i as int,
                ));
            }
        } else {
            proof {
                donetext = donetext + m[i as int];
                assert(out@ =~= donetext);
                assert(spec_join_space(m, i as int) == m[i as int]);
                assert(spec_join_space(m, i + 1) =~= Seq::<char>::empty());
                assert(donetext + spec_join_space(m, i + 1) =~= out0 + spec_join_space(
                    m,
                    i as int,
                ));
            }
        }
        i = i + 1;
    }
    proof {
        assert(spec_join_space(m, i as int) =~= Seq::<char>::empty());
        assert(out@ =~= spec_join_space(m, from as int));
    }
    string_of(out.as_slice())
}

/// Lexicographic order on text, code point by code point, the order `str`
/// comparison gives.
pub open spec fn spec_lex_lt(a: Seq<char>, b: Seq<char>) -> bool
    decreases a.len(),
{
    if b.len() == 0 {
        false
    } else if a.len() == 0 {
        true
    } else if a[0] != b[0] {
        (a[0] as u32) < (b[0] as u32)
    } else {
        spec_lex_lt(a.subrange(1, a.len() as int), b.subrange(1, b.len() as int))
    }
}

/// Compares text lexicographically.
pub fn chars_lt(a: &Vec<char>, b: &Vec<char>) -> (r: bool)
    ensures
        r == spec_lex_lt(a@, b@),
{
    proof {
        assert(a@.subrange(0, a@.len() as int) =~= a@);
        assert(b@.subrange(0, b@.len() as int) =~= b@);
    }
    let mut i: usize = 0;
    while i < a.len() && i < b.len()
        invariant
            0 <= i <= a@.len(),
            0 <= i <= b@.len(),
            spec_lex_lt(a@, b@) == spec_lex_lt(
                a@.subrange(i as int, a@.len() as int),
                b@.subrange(i as int, b@.len() as int),
            ),
        decreases a@.len() - i,
    {
        let ghost at = a@.subrange(i as int, a@.len() as int);
        let ghost bt = b@.subrange(i as int, b@.len() as int);
        if a[i] != b[i] {
            proof {
                assert(at[0] == a@[i as int] && bt[0] == b@[i as int]);
                assert(spec_lex_lt(at, bt) == ((a@[i as int] as u32) < (b@[i as int] as u32)));
            }
            return (a[i] as u32) < (b[i] as u32);
        }
        proof {
            assert(at[0] == a@[i as int] && bt[0] == b@[i as int]);
            assert(at.subrange(1, at.len() as int) =~= a@.subrange(i + 1, a@.len() as int));
            assert(bt.subrange(1, bt.len() as int) =~= b@.subrange(i + 1, b@.len() as int));
        }
        i = i + 1;
    }
    proof {
        let at = a@.subrange(i as int, a@.len() as int);
        let bt = b@.subrange(i as int, b@.len() as int);
        assert(at.len() == 0 || bt.len() == 0);
    }
    i >= a.len() && i < b.len()
}

/// The condition operators: symbols and their word aliases.
pub open spec fn spec_op_eq(op: Seq<char>) -> bool {
    op == ("==")@ || op == ("eq")@
}

pub open spec fn spec_op_ne(op: Seq<char>) -> bool {
    op == ("!=")@ || op == ("ne")@
}

pub open spec fn spec_op_gt(op: Seq<char>) -> bool {
    op == (">")@ || op == ("gt")@
}

pub open spec fn spec_op_lt(op: Seq<char>) -> bool {
    op == ("<")@ || op == ("lt")@
}

pub open spec fn spec_op_ge(op: Seq<char>) -> bool {
    op == (">=")@ || op == ("ge")@
}

pub open spec fn spec_op_le(op: Seq<char>) -> bool {
    op == ("<=")@ || op == ("le")@
}

/// One atomic comparison over token words: both sides resolved, compared
/// numerically where both parse as doubles, else as text.
pub open spec fn spec_simple_cond(vars: Variables, toks: Seq<Seq<char>>) -> Result<bool, ErrSpec> {
    if toks.len() < 3 {
        Err(ErrSpec::MalformedCommand(spec_join_space(toks, 0)))
    } else {
        let l = spec_resolve(vars, toks[0]);
        let r = spec_resolve(vars, spec_join_space(toks, 2));
        let op = toks[1];
        match (float_from_dec(l), float_from_dec(r)) {
            (Some(a), Some(b)) => if spec_op_eq(op) {
                Ok(spec_float_almost_eq(a, b))
            } else if spec_op_ne(op) {
                Ok(
                    float_cmp_bits(spec_float_abs(float_sub_bits(a, b)), F64_EPSILON_BITS) == Some(
                        1i8,
                    ),
                )
            } else if spec_op_gt(op) {
                Ok(float_cmp_bits(a, b) == Some(1i8))
            } else if spec_op_lt(op) {
                Ok(float_cmp_bits(a, b) == Some(-1i8))
            } else if spec_op_ge(op) {
                Ok(float_cmp_bits(a, b) == Some(0i8) || float_cmp_bits(a, b) == Some(1i8))
            } else if spec_op_le(op) {
                Ok(float_cmp_bits(a, b) == Some(-1i8) || float_cmp_bits(a, b) == Some(0i8))
            } else {
                Err(ErrSpec::MalformedCommand(op))
            },
            _ => if spec_op_eq(op) {
                Ok(l == r)
            } else if spec_op_ne(op) {
                Ok(l != r)
            } else if spec_op_gt(op) {
                Ok(spec_lex_lt(r, l))
            } else if spec_op_lt(op) {
                Ok(spec_lex_lt(l, r))
            } else if spec_op_ge(op) {
                Ok(!spec_lex_lt(l, r))
            } else if spec_op_le(op) {
                Ok(!spec_lex_lt(r, l))
            } else {
                Err(ErrSpec::MalformedCommand(op))
            },
        }
    }
}

/// The first index at or after `from` holding `and` or `or`, else the length.
pub open spec fn spec_group_end(toks: Seq<Seq<char>>, from: int) -> int
    decreases toks.len() - from,
{
    if from < 0 || from >= toks.len() {
        toks.len() as int
    } else if toks[from] == ("and")@ || toks[from] == ("or")@ {
        from
    } else {
        spec_group_end(toks, from + 1)
    }
}

proof fn lemma_group_end(toks: Seq<Seq<char>>, from: int)
    requires
        0 <= from <= toks.len(),
    ensures
        from <= spec_group_end(toks, from) <= toks.len(),
        forall|n: int|
            from <= n < spec_group_end(toks, from) ==> (#[trigger] toks[n]) != ("and")@ && toks[n]
                != ("or")@,
        spec_group_end(toks, from) < toks.len() ==> (toks[spec_group_end(toks, from)] == ("and")@
            || toks[spec_group_end(toks, from)] == ("or")@),
    decreases toks.len() - from,
{
    if from < toks.len() && !(toks[from] == ("and")@ || toks[from] == ("or")@) {
        lemma_group_end(toks, from + 1);
    }
}

/// The left-to-right fold of atomic comparisons joined by `and`/`or`.
pub open spec fn spec_complex_cond(
    vars: Variables,
    toks: Seq<Seq<char>>,
    i: int,
    op_is_and: bool,
    acc: Option<bool>,
) -> Result<bool, ErrSpec>
    decreases toks.len() - i,
    via spec_complex_cond_dec
{
    if i < 0 {
        Err(ErrSpec::MalformedCommand(Seq::empty()))
    } else if i >= toks.len() {
        match acc {
            Some(b) => Ok(b),
            None => Err(ErrSpec::MalformedCommand(spec_join_space(toks, 0))),
        }
    } else if toks[i] == ("and")@ {
        spec_complex_cond(vars, toks, i + 1, true, acc)
    } else if toks[i] == ("or")@ {
        spec_complex_cond(vars, toks, i + 1, false, acc)
    } else {
        let j = spec_group_end(toks, i);
        if j - i < 3 {
            Err(ErrSpec::MalformedCommand(spec_join_space(toks.subrange(i, j), 0)))
        } else {
            match spec_simple_cond(vars, toks.subrange(i, j)) {
                Err(e) => Err(e),
                Ok(c) => {
                    let combined = match acc {
                        None => c,
                        Some(cur) => if op_is_and {
                            cur && c
                        } else {
                            cur || c
                        },
                    };
                    spec_complex_cond(vars, toks, j, op_is_and, Some(combined))
                },
            }
        }
    }
}

#[via_fn]
proof fn spec_complex_cond_dec(
    vars: Variables,
    toks: Seq<Seq<char>>,
    i: int,
    op_is_and: bool,
    acc: Option<bool>,
) {
    if 0 <= i < toks.len() {
        lemma_group_end(toks, i);
    }
}

/// Whether the token list holds a combiner word.
pub open spec fn spec_has_combiner(toks: Seq<Seq<char>>) -> bool {
    exists|i: int| 0 <= i < toks.len() && ((#[trigger] toks[i]) == ("and")@ || toks[i] == ("or")@)
}

/// What a condition evaluates to.
pub open spec fn spec_evaluate_condition(vars: Variables, s: Seq<char>) -> Result<bool, ErrSpec> {
    let toks = spec_condition_tokens(s);
    if toks.len() >= 3 && spec_has_combiner(toks) {
        spec_complex_cond(vars, toks, 0, true, None)
    } else if toks.len() < 3 {
        Err(ErrSpec::MalformedCommand(s))
    } else {
        spec_simple_cond(vars, toks)
    }
}

/// Evaluates one atomic comparison over the token range [from, to).
fn evaluate_simple_condition(vars: &Variables, toks: &Vec<String>, from: usize, to: usize) -> (r:
    Result<bool, InterpError>)
    requires
        vars.wf(),
        from <= to <= toks@.len(),
    ensures
        ({
            let spec = spec_simple_cond(*vars, toks@.map_values(|t: String| t@).subrange(from as int, to as int));
            match r {
                Ok(b) => spec == Ok::<bool, ErrSpec>(b),
                Err(e) => spec == Err::<bool, ErrSpec>(emodel(e)),
            }
        }),
{
    let ghost m = toks@.map_values(|t: String| t@);
    let ghost g = m.subrange(from as int, to as int);
    if to - from < 3 {
        let mut window: Vec<String> = Vec::new();
        let mut i: usize = from;
        while i < to
            invariant
                from <= i <= to <= toks@.len(),
                m == toks@.map_values(|t: String| t@),
                m.len() == toks@.len(),
                window@.map_values(|t: String| t@) == m.subrange(from as int, i as int),
                window@.len() == i - from,
            decreases to - i,
        {
            let ghost w0 = window@;
            let t = crate::value::clone_string(&toks[i]);
            window.push(t);
            proof {
                assert(m[i as int] == toks@[i as int]@);
                assert forall|k: int| 0 <= k < window@.len() implies (#[trigger] window@[k])@
                    == m.subrange(from as int, i + 1)[k] by {
                    if k < w0.len() {
                        assert(window@[k] == w0[k]);
                        assert(w0.map_values(|t: String| t@)[k] == m.subrange(
                            from as int,
                            i as int,
                        )[k]);
                    }
                }
                assert(window@.map_values(|t: String| t@) =~= m.subrange(from as int, i + 1));
            }
            i = i + 1;
        }
        let joined = join_space(&window, 0);
        proof {
            assert(window@.map_values(|t: String| t@) =~= g);
        }
        return Err(InterpError::MalformedCommand(joined));
    }
    proof {
        assert(g.len() == to - from >= 3);
        assert(g[0] == m[from as int] && m[from as int] == toks@[from as int]@);
        assert(g[1] == m[from as int + 1] && m[from as int + 1] == toks@[from as int + 1]@);
    }
    let left = match resolve_to_string(vars, toks[from].as_str()) {
        Ok(t) => t,
        Err(e) => {
            return Err(e);
        },
    };
    // join the right-hand side tokens [from+2, to)
    let mut window: Vec<String> = Vec::new();
    let mut i: usize = from + 2;
    while i < to
        invariant
            from + 2 <= i <= to <= toks@.len(),
            m == toks@.map_values(|t: String| t@),
            m.len() == toks@.len(),
            window@.map_values(|t: String| t@) == m.subrange(from + 2, i as int),
            window@.len() == i - from - 2,
        decreases to - i,
    {
        let ghost w0 = window@;
        let t = crate::value::clone_string(&toks[i]);
        window.push(t);
        proof {
            assert(m[i as int] == toks@[i as int]@);
            assert forall|k: int| 0 <= k < window@.len() implies (#[trigger] window@[k])@
                == m.subrange(from + 2, i + 1)[k] by {
                if k < w0.len() {
                    assert(window@[k] == w0[k]);
                    assert(w0.map_values(|t: String| t@)[k] == m.subrange(from + 2, i as int)[k]);
                }
            }
            assert(window@.map_values(|t: String| t@) =~= m.subrange(from + 2, i + 1));
        }
        i = i + 1;
    }
    let right_text = join_space(&window, 0);
    proof {
        lemma_join_offset(g, 2);
        assert(window@.map_values(|t: String| t@) =~= g.subrange(2, g.len() as int));
    }
    let right = match resolve_to_string(vars, right_text.as_str()) {
        Ok(t) => t,
        Err(e) => {
            return Err(e);
        },
    };
    let op = &toks[from + 1];
    let lchars = chars_of(left.as_str());
    let rchars = chars_of(right.as_str());
    let lnum = float_parse(lchars.as_slice());
    let rnum = float_parse(rchars.as_slice());
    if let (Some(a), Some(b)) = (lnum, rnum) {
        if str_eq2(op, "==") || str_eq2(op, "eq") {
            Ok(float_almost_eq(a, b))
        } else if str_eq2(op, "!=") || str_eq2(op, "ne") {
            let d = float_abs(float_sub(a, b));
            Ok(match float_cmp(d, F64_EPSILON_BITS) {
                Some(c) => c == 1,
                None => false,
            })
        } else if str_eq2(op, ">") || str_eq2(op, "gt") {
            Ok(match float_cmp(a, b) {
                Some(c) => c == 1,
                None => false,
            })
        } else if str_eq2(op, "<") || str_eq2(op, "lt") {
            Ok(match float_cmp(a, b) {
                Some(c) => c == -1,
                None => false,
            })
        } else if str_eq2(op, ">=") || str_eq2(op, "ge") {
            Ok(match float_cmp(a, b) {
                Some(c) => c == 0 || c == 1,
                None => false,
            })
        } else if str_eq2(op, "<=") || str_eq2(op, "le") {
            Ok(match float_cmp(a, b) {
                Some(c) => c == -1 || c == 0,
                None => false,
            })
        } else {
            Err(InterpError::MalformedCommand(crate::value::clone_string(op)))
        }
    } else {
        if str_eq2(op, "==") || str_eq2(op, "eq") {
            Ok(crate::text::chars_eq(&lchars, &rchars))
        } else if str_eq2(op, "!=") || str_eq2(op, "ne") {
            Ok(!crate::text::chars_eq(&lchars, &rchars))
        } else if str_eq2(op, ">") || str_eq2(op, "gt") {
            Ok(chars_lt(&rchars, &lchars))
        } else if str_eq2(op, "<") || str_eq2(op, "lt") {
            Ok(chars_lt(&lchars, &rchars))
        } else if str_eq2(op, ">=") || str_eq2(op, "ge") {
            Ok(!chars_lt(&lchars, &rchars))
        } else if str_eq2(op, "<=") || str_eq2(op, "le") {
            Ok(!chars_lt(&rchars, &lchars))
        } else {
            Err(InterpError::MalformedCommand(crate::value::clone_string(op)))
        }
    }
}

fn str_eq2(a: &String, b: &str) -> (r: bool)
    ensures
        r == (a@ == b@),
{
    crate::text::str_eq(a.as_str(), b)
}

/// Joining from an offset equals joining the suffix from zero.
proof fn lemma_join_offset(g: Seq<Seq<char>>, off: int)
    requires
        0 <= off <= g.len(),
    ensures
        spec_join_space(g, off) == spec_join_space(g.subrange(off, g.len() as int), 0),
    decreases g.len() - off,
{
    let tail = g.subrange(off, g.len() as int);
    if off >= g.len() {
        assert(spec_join_space(g, off) =~= Seq::<char>::empty());
        assert(tail.len() == 0);
    } else if off == g.len() - 1 {
        assert(tail.len() == 1);
        assert(tail[0] == g[off]);
    } else {
        lemma_join_offset(g, off + 1);
        lemma_join_offset(tail, 1);
        let tail2 = g.subrange(off + 1, g.len() as int);
        assert(tail.subrange(1, tail.len() as int) =~= tail2);
        assert(tail[0] == g[off]);
    }
}

/// Evaluates a condition: a chain with `and`/`or` folds left to right, a
/// plain one is a single comparison; fewer than three words is malformed.
pub fn evaluate_condition(vars: &Variables, condition: &str) -> (r: Result<bool, InterpError>)
    requires
        vars.wf(),
    ensures
        ({
            let spec = spec_evaluate_condition(*vars, condition@);
            match r {
                Ok(b) => spec == Ok::<bool, ErrSpec>(b),
                Err(e) => spec == Err::<bool, ErrSpec>(emodel(e)),
            }
        }),
{
    let toks = ws_split(condition);
    let ghost m = toks@.map_values(|t: String| t@);
    let n = toks.len();
    proof {
        assert(m.len() == toks@.len());
    }
    let mut has_comb = false;
    let mut i: usize = 0;
    while i < n
        invariant
            0 <= i <= n,
            n == toks@.len(),
            m == toks@.map_values(|t: String| t@),
            m.len() == n,
            has_comb == exists|k: int|
                0 <= k < i && ((#[trigger] m[k]) == ("and")@ || m[k] == ("or")@),
        decreases n - i,
    {
        proof {
            assert(m[i as int] == toks@[i as int]@);
        }
        if str_eq2(&toks[i], "and") || str_eq2(&toks[i], "or") {
            has_comb = true;
        }
        i = i + 1;
    }
    proof {
        assert(has_comb == spec_has_combiner(m));
    }
    if n >= 3 && has_comb {
        evaluate_complex_condition(vars, &toks)
    } else if n < 3 {
        Err(InterpError::MalformedCommand(condition.to_owned()))
    } else {
        proof {
            assert(m.subrange(0, n as int) =~= m);
        }
        evaluate_simple_condition(vars, &toks, 0, n)
    }
}

/// Folds a chain of comparisons joined by `and`/`or`, left to right, with no
/// precedence between the two.
pub fn evaluate_complex_condition(vars: &Variables, toks: &Vec<String>) -> (r: Result<
    bool,
    InterpError,
>)
    requires
        vars.wf(),
    ensures
        ({
            let spec = spec_complex_cond(*vars, toks@.map_values(|t: String| t@), 0, true, None);
            match r {
                Ok(b) => spec == Ok::<bool, ErrSpec>(b),
                Err(e) => spec == Err::<bool, ErrSpec>(emodel(e)),
            }
        }),
{
    let ghost m = toks@.map_values(|t: String| t@);
    let n = toks.len();
    let mut i: usize = 0;
    let mut op_is_and = true;
    let mut acc: Option<bool> = None;
    proof {
        assert(m.len() == toks@.len());
    }
    while i < n
        invariant
            0 <= i <= n,
            n == toks@.len(),
            m == toks@.map_values(|t: String| t@),
            m.len() == n,
            vars.wf(),
            spec_complex_cond(*vars, m, 0, true, None) == spec_complex_cond(
                *vars,
                m,
                i as int,
                op_is_and,
                acc,
            ),
        decreases n - i,
    {
        proof {
            assert(m[i as int] == toks@[i as int]@);
        }
        if str_eq2(&toks[i], "and") {
            op_is_and = true;
            i = i + 1;
        } else if str_eq2(&toks[i], "or") {
            op_is_and = false;
            i = i + 1;
        } else {
            // find the end of this atomic group
            let mut j: usize = i;
            while j < n && !(str_eq2(&toks[j], "and") || str_eq2(&toks[j], "or"))
                invariant
                    i <= j <= n,
                    n == toks@.len(),
                    m == toks@.map_values(|t: String| t@),
                    m.len() == n,
                    forall|k: int| i <= k < j ==> (#[trigger] m[k]) != ("and")@ && m[k] != ("or")@,
                decreases n - j,
            {
                proof {
                    assert(m[j as int] == toks@[j as int]@);
                }
                j = j + 1;
            }
            proof {
                lemma_group_end(m, i as int);
                let je = spec_group_end(m, i as int);
                if j < n {
                    assert(m[j as int] == toks@[j as int]@);
                }
                if je < j as int {
                    assert(m[je] != ("and")@ && m[je] != ("or")@);
                }
                if je > j as int {
                    assert(m[j as int] != ("and")@ && m[j as int] != ("or")@);
                }
                assert(je == j as int);
            }
            if j - i < 3 {
                let mut window: Vec<String> = Vec::new();
                let mut w: usize = i;
                while w < j
                    invariant
                        i <= w <= j <= toks@.len(),
                        m == toks@.map_values(|t: String| t@),
                        m.len() == toks@.len(),
                        window@.map_values(|t: String| t@) == m.subrange(i as int, w as int),
                        window@.len() == w - i,
                    decreases j - w,
                {
                    let ghost w0 = window@;
                    let t = crate::value::clone_string(&toks[w]);
                    window.push(t);
                    proof {
                        assert(m[w as int] == toks@[w as int]@);
                        assert forall|k: int| 0 <= k < window@.len() implies (
                        #[trigger] window@[k])@ == m.subrange(i as int, w + 1)[k] by {
                            if k < w0.len() {
                                assert(window@[k] == w0[k]);
                                assert(w0.map_values(|t: String| t@)[k] == m.subrange(
                                    i as int,
                                    w as int,
                                )[k]);
                            }
                        }
                        assert(window@.map_values(|t: String| t@) =~= m.subrange(i as int, w + 1));
                    }
                    w = w + 1;
                }
                let joined = join_space(&window, 0);
                proof {
                    assert(window@.map_values(|t: String| t@) =~= m.subrange(i as int, j as int));
                }
                return Err(InterpError::MalformedCommand(joined));
            }
            let res = evaluate_simple_condition(vars, toks, i, j);
            match res {
                Err(e) => {
                    return Err(e);
                },
                Ok(c) => {
                    let combined = match acc {
                        None => c,
                        Some(cur) => if op_is_and {
                            cur && c
                        } else {
                            cur || c
                        },
                    };
                    acc = Some(combined);
                    i = j;
                },
            }
        }
    }
    match acc {
        Some(b) => Ok(b),
        None => {
            let joined = join_space(toks, 0);
            Err(InterpError::MalformedCommand(joined))
        },
    }
}


/// The words in [from, to), joined with single spaces.
pub fn join_space_range(toks: &Vec<String>, from: usize, to: usize) -> (r: String)
    requires
        from <= to <= toks@.len(),
    ensures
        r@ == spec_join_space(toks@.map_values(|t: String| t@).subrange(from as int, to as int), 0),
{
    let ghost m = toks@.map_values(|t: String| t@);
    let mut window: Vec<String> = Vec::new();
    let mut i: usize = from;
    while i < to
        invariant
            from <= i <= to <= toks@.len(),
            m == toks@.map_values(|t: String| t@),
            m.len() == toks@.len(),
            window@.map_values(|t: String| t@) == m.subrange(from as int, i as int),
            window@.len() == i - from,
        decreases to - i,
    {
        let ghost w0 = window@;
        let t = crate::value::clone_string(&toks[i]);
        window.push(t);
        proof {
            assert(m[i as int] == toks@[i as int]@);
            assert forall|k: int| 0 <= k < window@.len() implies (#[trigger] window@[k])@
                == m.subrange(from as int, i + 1)[k] by {
                if k < w0.len() {
                    assert(window@[k] == w0[k]);
                    assert(w0.map_values(|t: String| t@)[k] == m.subrange(from as int, i as int)[k]);
                }
            }
            assert(window@.map_values(|t: String| t@) =~= m.subrange(from as int, i + 1));
        }
        i = i + 1;
    }
    join_space(&window, 0)
}

} // verus!
