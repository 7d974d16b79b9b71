//! The command dispatcher and the control-flow engine.
//!
//! `execute_command` maps a tokenized line to its handler. In capture mode
//! (inside `$(...)`) a command returns its text instead of printing, and the
//! interactive-only commands fail fast. Recursive evaluation — command
//! substitution, loop bodies, block bodies — runs on a nesting-and-iteration
//! budget (`fuel`); a budget of zero fails rather than recurse further, so
//! no evaluation runs unboundedly.

use vstd::prelude::*;

use crate::errors::{emodel, ErrSpec, InterpError};
use crate::expr::{spec_lex_all, lex_expression, tmodel, Token, TokenSpec};
use crate::interp::{vars_model_eq, Host, Interp};
use crate::parse::{parse_value, spec_parse_value};
use crate::store::{spec_table_lookup, Variables};
use crate::text::string_of;
use crate::tokenize::tokenize_input;
use crate::value::{vmodel, ParsedValue, ValSpec};

verus! {

/// A copy of a token.
pub fn clone_token(t: &Token) -> (r: Token)
    ensures
        tmodel(r) == tmodel(*t),
{
    match t {
        Token::Text(s) => Token::Text(crate::value::clone_string(s)),
        Token::Variable(s) => Token::Variable(crate::value::clone_string(s)),
        Token::Command(s) => Token::Command(crate::value::clone_string(s)),
        Token::ArrayStart => Token::ArrayStart,
        Token::ArrayEnd => Token::ArrayEnd,
        Token::Comma => Token::Comma,
    }
}

/// What a single-token expression evaluates to, where no command runs: a
/// variable token reads the store in the five-table priority order (int,
/// float, string, array, dictionary) and fails on a name bound in none — no
/// fallback to literal parsing, unlike `resolve_to_string` — and a text
/// token parses as a literal.
pub open spec fn spec_eval_leaf(vars: crate::store::Variables, t: TokenSpec) -> Result<
    ValSpec,
    ErrSpec,
> {
    match t {
        TokenSpec::Variable(name) => match spec_table_lookup(vars.ints(), name) {
            Some(ValSpec::Int(i)) => Ok(ValSpec::Int(i)),
            _ => match spec_table_lookup(vars.floats(), name) {
                Some(ValSpec::Float(b)) => Ok(ValSpec::Float(b)),
                _ => match spec_table_lookup(vars.strings(), name) {
                    Some(ValSpec::Str(s)) => Ok(ValSpec::Str(s)),
                    _ => match spec_table_lookup(vars.arrays(), name) {
                        Some(ValSpec::Array(a)) => Ok(ValSpec::Array(a)),
                        _ => match spec_table_lookup(vars.dicts(), name) {
                            Some(ValSpec::Dict(d)) => Ok(ValSpec::Dict(d)),
                            _ => Err(ErrSpec::UndefinedVariable(name)),
                        },
                    },
                },
            },
        },
        TokenSpec::Text(text) => Ok(spec_parse_value(text)),
        _ => Err(ErrSpec::MalformedCommand(Seq::empty())),
    }
}

/// A token an expression can evaluate without running a command.
pub open spec fn spec_leaf(t: TokenSpec) -> bool {
    t is Text || t is Variable
}

/// The single-leaf groups of a flat array literal's interior, where the
/// interior is such a thing: each group is exactly one leaf token, groups are
/// separated by commas, and stray commas are skipped. None where a group is
/// empty-less-simple: several tokens, a nested array, or a substitution.
pub open spec fn spec_flat_groups(interior: Seq<TokenSpec>, i: int) -> Option<Seq<TokenSpec>>
    decreases interior.len() - i,
{
    if i < 0 {
        None
    } else if i >= interior.len() {
        Some(Seq::empty())
    } else if interior[i] is Comma {
        spec_flat_groups(interior, i + 1)
    } else if spec_leaf(interior[i]) && (i + 1 == interior.len() || interior[i + 1] is Comma) {
        match spec_flat_groups(interior, i + 1) {
            Some(rest) => Some(seq![interior[i]] + rest),
            None => None,
        }
    } else {
        None
    }
}

/// Every token a flat grouping returns is a leaf.
proof fn lemma_flat_groups_leafs(interior: Seq<TokenSpec>, i: int)
    ensures
        spec_flat_groups(interior, i) matches Some(ls) ==> forall|j: int|
            0 <= j < ls.len() ==> spec_leaf(#[trigger] ls[j]),
    decreases interior.len() - i,
{
    if 0 <= i < interior.len() {
        if interior[i] is Comma {
            lemma_flat_groups_leafs(interior, i + 1);
        } else if spec_leaf(interior[i]) && (i + 1 == interior.len() || interior[i + 1] is Comma) {
            lemma_flat_groups_leafs(interior, i + 1);
            if spec_flat_groups(interior, i + 1) is Some {
                let rest = spec_flat_groups(interior, i + 1)->0;
                let ls = seq![interior[i]] + rest;
                assert forall|j: int| 0 <= j < ls.len() implies spec_leaf(#[trigger] ls[j]) by {
                    if j >= 1 {
                        assert(ls[j] == rest[j - 1]);
                    }
                }
            }
        }
    }
}

/// Evaluates leaf tokens left to right; the first failure wins.
pub open spec fn spec_eval_leafs(
    vars: crate::store::Variables,
    leafs: Seq<TokenSpec>,
    i: int,
) -> Result<Seq<ValSpec>, ErrSpec>
    decreases leafs.len() - i,
{
    if i < 0 || i >= leafs.len() {
        Ok(Seq::empty())
    } else {
        match spec_eval_leaf(vars, leafs[i]) {
            Err(e) => Err(e),
            Ok(v) => match spec_eval_leafs(vars, leafs, i + 1) {
                Err(e) => Err(e),
                Ok(rest) => Ok(seq![v] + rest),
            },
        }
    }
}

/// The reading of an expression's token stream where no command runs: one
/// leaf token, or a flat array of leaf tokens. None where a command
/// substitution or a nested array leaves the outcome to the dispatcher.
pub open spec fn spec_eval_pure(vars: crate::store::Variables, toks: Seq<TokenSpec>) -> Option<
    Result<ValSpec, ErrSpec>,
> {
    if toks.len() >= 2 && toks[0] is ArrayStart && toks[toks.len() - 1] is ArrayEnd {
        match spec_flat_groups(toks.subrange(1, toks.len() - 1), 0) {
            Some(leafs) => match spec_eval_leafs(vars, leafs, 0) {
                Ok(vs) => Some(Ok(ValSpec::Array(vs))),
                Err(e) => Some(Err(e)),
            },
            None => None,
        }
    } else if toks.len() == 1 && spec_leaf(toks[0]) {
        Some(spec_eval_leaf(vars, toks[0]))
    } else {
        None
    }
}

/// How an evaluation result relates to the pure reading, where one exists.
pub open spec fn spec_pure_outcome(
    vars: crate::store::Variables,
    toks: Seq<TokenSpec>,
    r: Result<ParsedValue, InterpError>,
) -> bool {
    match spec_eval_pure(vars, toks) {
        Some(out) => match r {
            Ok(v) => out == Ok::<ValSpec, ErrSpec>(vmodel(v)),
            Err(e) => out == Err::<ValSpec, ErrSpec>(emodel(e)),
        },
        None => true,
    }
}

/// Evaluates a token list: an outer `[...]` is an array whose groups between
/// top-level commas (nested brackets kept whole) evaluate recursively;
/// otherwise the first token decides (variable lookup, command substitution,
/// or literal text). Where the stream has a pure reading — one leaf token or
/// a flat array of them — the result is that reading and nothing changes.
#[verifier::rlimit(60)]
fn parse_tokens<H: Host>(
    interp: &mut Interp,
    host: &mut H,
    tokens: &Vec<Token>,
    fuel: u64,
) -> (r: Result<ParsedValue, InterpError>)
    requires
        old(interp).wf(),
    ensures
        final(interp).wf(),
        spec_pure_outcome(
            old(interp).vars,
            tokens@.map_values(|t: Token| tmodel(t)),
            r,
        ),
        spec_eval_pure(old(interp).vars, tokens@.map_values(|t: Token| tmodel(t))) is Some
            ==> spec_interp_same(*old(interp), *final(interp)),
    decreases fuel, 5int, tokens@.len(),
{
    let ghost toks = tokens@.map_values(|t: Token| tmodel(t));
    let n = tokens.len();
    proof {
        assert(toks.len() == n);
    }
    // An outer [ ... ] is an array literal over token groups.
    let is_array = n >= 2 && matches!(tokens[0], Token::ArrayStart) && (matches!(
        tokens[n - 1],
        Token::ArrayEnd,
    ));
    if is_array {
        let ghost interior = toks.subrange(1, n - 1);
        let ghost leafsopt = spec_flat_groups(interior, 0);
        let ghost flat = leafsopt is Some;
        let ghost leafs: Seq<TokenSpec> = if flat {
            leafsopt->0
        } else {
            Seq::empty()
        };
        let ghost vars0 = old(interp).vars;
        proof {
            assert(toks[0] == tmodel(tokens@[0]));
            assert(toks[n - 1] == tmodel(tokens@[n - 1]));
        }
        let mut elements: Vec<ParsedValue> = Vec::new();
        let mut group: Vec<Token> = Vec::new();
        let mut depth: i128 = 0;
        let ghost mut k: int = 0;
        let mut i: usize = 1;
        proof {
            assert(crate::value::vmodel_seq(elements@) =~= Seq::<ValSpec>::empty());
        }
        while i < n - 1
            invariant
                1 <= i <= n - 1,
                n == tokens@.len(),
                toks == tokens@.map_values(|t: Token| tmodel(t)),
                n >= 2,
                interior == toks.subrange(1, n - 1),
                leafsopt == spec_flat_groups(interior, 0),
                flat == (leafsopt is Some),
                flat ==> leafs == leafsopt->0,
                interp.wf(),
                group@.len() < i,
                -(i as int) <= depth <= i as int,
                flat ==> {
                    &&& spec_interp_same(*old(interp), *interp)
                    &&& vars0 == old(interp).vars
                    &&& depth == 0
                    &&& 0 <= k <= leafs.len()
                    &&& spec_eval_leafs(vars0, leafs, 0) == (match spec_eval_leafs(
                        vars0,
                        leafs,
                        k,
                    ) {
                        Ok(rest) => Ok::<Seq<ValSpec>, ErrSpec>(
                            crate::value::vmodel_seq(elements@) + rest,
                        ),
                        Err(e) => Err::<Seq<ValSpec>, ErrSpec>(e),
                    })
                    &&& ((group@.len() == 0 && spec_flat_groups(interior, i - 1) == Some(
                        leafs.subrange(k, leafs.len() as int),
                    )) || (group@.map_values(|t: Token| tmodel(t)) =~= seq![leafs[k]] && k
                        < leafs.len() && (i - 1 == interior.len() || interior[i - 1] is Comma)
                        && spec_flat_groups(interior, i - 1) == Some(
                        leafs.subrange(k + 1, leafs.len() as int),
                    )))
                },
            decreases n - 1 - i,
        {
            proof {
                assert(interior[i - 1] == toks[i as int]);
                assert(toks[i as int] == tmodel(tokens@[i as int]));
            }
            let is_comma = matches!(tokens[i], Token::Comma);
            let is_start = matches!(tokens[i], Token::ArrayStart);
            let is_end = matches!(tokens[i], Token::ArrayEnd);
            if is_comma && depth == 0 {
                if group.len() > 0 {
                    let ghost g0 = group@;
                    let ghost e0 = elements@;
                    let v = parse_tokens(interp, host, &group, fuel);
                    proof {
                        if flat {
                            // the pending group is one leaf, so the recursive
                            // call returned its pure reading
                            lemma_flat_groups_leafs(interior, 0);
                            assert(spec_leaf(leafs[k]));
                            assert(g0.map_values(|t: Token| tmodel(t)) =~= seq![leafs[k]]);
                            let gm = g0.map_values(|t: Token| tmodel(t));
                            assert(gm.len() == 1 && gm[0] == leafs[k]);
                            assert(spec_eval_pure(vars0, gm) == Some(
                                spec_eval_leaf(vars0, leafs[k]),
                            ));
                        }
                    }
                    match v {
                        Ok(val) => {
                            let ghost gv = val;
                            elements.push(val);
                            proof {
                                if flat {
                                    crate::value::lemma_vmodel_seq_snoc(e0, gv);
                                    assert(spec_eval_leafs(vars0, leafs, k) == (match
                                        spec_eval_leafs(vars0, leafs, k + 1) {
                                        Ok(rest) => Ok::<Seq<ValSpec>, ErrSpec>(
                                            seq![vmodel(gv)] + rest,
                                        ),
                                        Err(e) => Err::<Seq<ValSpec>, ErrSpec>(e),
                                    }));
                                    if spec_eval_leafs(vars0, leafs, k + 1) is Ok {
                                        assert(crate::value::vmodel_seq(elements@)
                                            + spec_eval_leafs(vars0, leafs, k + 1)->Ok_0
                                            =~= crate::value::vmodel_seq(e0) + (seq![vmodel(gv)]
                                            + spec_eval_leafs(vars0, leafs, k + 1)->Ok_0));
                                    }
                                    k = k + 1;
                                    // after the leaf, this comma is skipped
                                    assert(spec_flat_groups(interior, i - 1) == spec_flat_groups(
                                        interior,
                                        i as int,
                                    ));
                                }
                            }
                        },
                        Err(e) => {
                            proof {
                                if flat {
                                    assert(spec_eval_leafs(vars0, leafs, k) == Err::<
                                        Seq<ValSpec>,
                                        ErrSpec,
                                    >(emodel(e)));
                                    assert(spec_eval_leafs(vars0, leafs, 0) == Err::<
                                        Seq<ValSpec>,
                                        ErrSpec,
                                    >(emodel(e)));
                                }
                            }
                            return Err(e);
                        },
                    }
                    group = Vec::new();
                } else {
                    proof {
                        if flat {
                            assert(spec_flat_groups(interior, i - 1) == spec_flat_groups(
                                interior,
                                i as int,
                            ));
                        }
                    }
                }
            } else if is_comma {
                // a comma inside a nested array stays in its group
                group.push(clone_token(&tokens[i]));
                proof {
                    if flat {
                        assert(false);
                    }
                }
            } else if is_start {
                depth = depth + 1;
                group.push(clone_token(&tokens[i]));
                proof {
                    if flat {
                        assert(false);
                    }
                }
            } else if is_end {
                depth = depth - 1;
                group.push(clone_token(&tokens[i]));
                proof {
                    if flat {
                        assert(false);
                    }
                }
            } else {
                let ghost g0 = group@;
                group.push(clone_token(&tokens[i]));
                proof {
                    if flat {
                        // a pending group would put a comma here, so the
                        // group is fresh and this token is its single leaf
                        if g0.len() != 0 {
                            assert(interior[i - 1] is Comma);
                        }
                        assert(g0.len() == 0);
                        assert(spec_leaf(interior[i - 1]));
                        assert(spec_flat_groups(interior, i - 1) == (match spec_flat_groups(
                            interior,
                            i as int,
                        ) {
                            Some(rest) => Some(seq![interior[i - 1]] + rest),
                            None => None,
                        }));
                        let suffix = leafs.subrange(k, leafs.len() as int);
                        let rest0 = spec_flat_groups(interior, i as int)->0;
                        assert(seq![interior[i - 1]] + rest0 =~= suffix);
                        assert(suffix.len() >= 1);
                        assert(k < leafs.len());
                        assert(suffix[0] == leafs[k]);
                        assert(interior[i - 1] == leafs[k]);
                        assert(rest0.len() == suffix.len() - 1);
                        assert forall|j: int| 0 <= j < rest0.len() implies #[trigger] rest0[j]
                            == leafs[k + 1 + j] by {
                            assert((seq![interior[i - 1]] + rest0)[j + 1] == rest0[j]);
                            assert(suffix[j + 1] == leafs[k + 1 + j]);
                        }
                        assert(rest0 =~= leafs.subrange(k + 1, leafs.len() as int));
                        assert(group@.map_values(|t: Token| tmodel(t)) =~= seq![leafs[k]]);
                        assert(i as int == interior.len() || interior[i as int] is Comma);
                    }
                }
            }
            i = i + 1;
        }
        if group.len() > 0 {
            let ghost g0 = group@;
            let ghost e0 = elements@;
            let v = parse_tokens(interp, host, &group, fuel);
            proof {
                if flat {
                    assert(spec_flat_groups(interior, n - 2) == Some(
                        leafs.subrange(k + 1, leafs.len() as int),
                    ));
                    assert(leafs.subrange(k + 1, leafs.len() as int) =~= Seq::<TokenSpec>::empty());
                    lemma_flat_groups_leafs(interior, 0);
                    assert(spec_leaf(leafs[k]));
                    assert(g0.map_values(|t: Token| tmodel(t)) =~= seq![leafs[k]]);
                    let gm = g0.map_values(|t: Token| tmodel(t));
                    assert(gm.len() == 1 && gm[0] == leafs[k]);
                    assert(spec_eval_pure(vars0, gm) == Some(spec_eval_leaf(vars0, leafs[k])));
                }
            }
            match v {
                Ok(val) => {
                    let ghost gv = val;
                    elements.push(val);
                    proof {
                        if flat {
                            crate::value::lemma_vmodel_seq_snoc(e0, gv);
                            assert(spec_eval_leafs(vars0, leafs, k) == (match spec_eval_leafs(
                                vars0,
                                leafs,
                                k + 1,
                            ) {
                                Ok(rest) => Ok::<Seq<ValSpec>, ErrSpec>(seq![vmodel(gv)] + rest),
                                Err(e) => Err::<Seq<ValSpec>, ErrSpec>(e),
                            }));
                            assert(spec_eval_leafs(vars0, leafs, k + 1) == Ok::<
                                Seq<ValSpec>,
                                ErrSpec,
                            >(Seq::empty()));
                            assert(crate::value::vmodel_seq(elements@) + Seq::<ValSpec>::empty()
                                =~= crate::value::vmodel_seq(e0) + (seq![vmodel(gv)]
                                + Seq::<ValSpec>::empty()));
                            k = k + 1;
                        }
                    }
                },
                Err(e) => {
                    proof {
                        if flat {
                            assert(spec_eval_leafs(vars0, leafs, k) == Err::<Seq<ValSpec>, ErrSpec>(
                                emodel(e),
                            ));
                        }
                    }
                    return Err(e);
                },
            }
        } else {
            proof {
                if flat {
                    assert(spec_flat_groups(interior, n - 2) == Some(
                        leafs.subrange(k, leafs.len() as int),
                    ));
                    assert(leafs.subrange(k, leafs.len() as int) =~= Seq::<TokenSpec>::empty());
                }
            }
        }
        proof {
            if flat {
                assert(k == leafs.len());
                assert(spec_eval_leafs(vars0, leafs, k) == Ok::<Seq<ValSpec>, ErrSpec>(
                    Seq::empty(),
                ));
                assert(crate::value::vmodel_seq(elements@) + Seq::<ValSpec>::empty()
                    =~= crate::value::vmodel_seq(elements@));
                assert(spec_eval_leafs(vars0, leafs, 0) == Ok::<Seq<ValSpec>, ErrSpec>(
                    crate::value::vmodel_seq(elements@),
                ));
            }
        }
        return Ok(ParsedValue::Array(elements));
    }
    if n == 0 {
        return Err(InterpError::MalformedCommand("expression".to_owned()));
    }
    match &tokens[0] {
        Token::Variable(name) => {
            proof {
                assert(toks[0] == tmodel(tokens@[0]));
            }
            if let Some(v) = interp.vars.get_int_data(name.as_str()) {
                Ok(ParsedValue::Int(v))
            } else if let Some(bits) = interp.vars.get_float_data(name.as_str()) {
                Ok(ParsedValue::Float(bits))
            } else if let Some(s) = interp.vars.get_string_data(name.as_str()) {
                Ok(ParsedValue::Str(s))
            } else if let Some(a) = interp.vars.get_array_data(name.as_str()) {
                Ok(ParsedValue::Array(a))
            } else if let Some(d) = interp.vars.get_dict_data(name.as_str()) {
                Ok(ParsedValue::Dict(d))
            } else {
                Err(InterpError::UndefinedVariable(crate::value::clone_string(name)))
            }
        },
        Token::Command(cmd) => {
            if fuel == 0 {
                return Err(InterpError::RecursionLimit);
            }
            let args = tokenize_input(cmd.as_str());
            match execute_command(interp, host, &args, true, fuel - 1) {
                Ok(output) => Ok(parse_value(output.as_str())),
                Err(e) => Err(e),
            }
        },
        Token::Text(text) => {
            proof {
                assert(toks[0] == tmodel(tokens@[0]));
            }
            Ok(parse_value(text.as_str()))
        },
        _ => Err(InterpError::MalformedCommand("expression".to_owned())),
    }
}

/// Evaluates an expression: variables, command substitutions and array
/// literals. Where the expression has a pure reading — a literal, a `$name`,
/// or a flat array of them — the result is pinned exactly and nothing
/// changes; a command substitution's result depends on the dispatched
/// command.
pub fn evaluate_expression<H: Host>(
    interp: &mut Interp,
    host: &mut H,
    expr: &str,
    fuel: u64,
) -> (r: Result<ParsedValue, InterpError>)
    requires
        old(interp).wf(),
    ensures
        final(interp).wf(),
        spec_pure_outcome(old(interp).vars, spec_lex_all(expr@, 0), r),
        spec_eval_pure(old(interp).vars, spec_lex_all(expr@, 0)) is Some ==> spec_interp_same(
            *old(interp),
            *final(interp),
        ),
    decreases fuel, 6int, 0int,
{
    let tokens = lex_expression(expr);
    parse_tokens(interp, host, &tokens, fuel)
}

/// Direct command-line interpretation is not offered; the caller falls back
/// to the prompt or to a script file.
pub fn interpret_arguments_from_command_line(args: &Vec<String>) -> (r: Result<(), InterpError>)
    ensures
        r is Err,
{
    let _ = args;
    Err(InterpError::MalformedCommand("Not implemented".to_owned()))
}

/// Stores an evaluated value into the table of its kind.
pub fn store_parsed_value(vars: &mut Variables, name: String, value: ParsedValue) -> (r: Result<
    (),
    InterpError,
>)
    requires
        old(vars).wf(),
    ensures
        final(vars).wf(),
        r is Ok,
        match vmodel(value) {
            ValSpec::Int(v) => final(vars).ints() == crate::parse::spec_dict_update(
                old(vars).ints(),
                name@,
                ValSpec::Int(v),
            ) && final(vars).floats() == old(vars).floats() && final(vars).strings() == old(vars).strings() && final(vars).arrays() == old(vars).arrays() && final(vars).dicts() == old(vars).dicts(),
            ValSpec::Float(b) => final(vars).floats() == crate::parse::spec_dict_update(
                old(vars).floats(),
                name@,
                ValSpec::Float(b),
            ) && final(vars).ints() == old(vars).ints() && final(vars).strings() == old(vars).strings() && final(vars).arrays() == old(vars).arrays() && final(vars).dicts() == old(vars).dicts(),
            ValSpec::Str(s) => final(vars).strings() == crate::parse::spec_dict_update(
                old(vars).strings(),
                name@,
                ValSpec::Str(s),
            ) && final(vars).ints() == old(vars).ints() && final(vars).floats() == old(vars).floats() && final(vars).arrays() == old(vars).arrays() && final(vars).dicts() == old(vars).dicts(),
            ValSpec::Array(a) => final(vars).arrays() == crate::parse::spec_dict_update(
                old(vars).arrays(),
                name@,
                ValSpec::Array(a),
            ) && final(vars).ints() == old(vars).ints() && final(vars).floats() == old(vars).floats() && final(vars).strings() == old(vars).strings() && final(vars).dicts()
                == old(vars).dicts(),
            ValSpec::Dict(d) => final(vars).dicts() == crate::parse::spec_dict_update(
                old(vars).dicts(),
                name@,
                ValSpec::Dict(d),
            ) && final(vars).ints() == old(vars).ints() && final(vars).floats() == old(vars).floats() && final(vars).strings() == old(vars).strings() && final(vars).arrays()
                == old(vars).arrays(),
        },
{
    match value {
        ParsedValue::Int(v) => vars.add_data_to_int(name, v),
        ParsedValue::Float(b) => vars.add_data_to_float(name, b),
        ParsedValue::Str(s) => vars.add_data_to_string(name, s),
        ParsedValue::Array(a) => vars.add_data_to_array(name, a),
        ParsedValue::Dict(d) => vars.add_data_to_dict(name, d),
    }
    Ok(())
}

/// What `rm` does: the name leaves the first scalar table holding it, in the
/// order int, float, string; a name in none of the three is an error.
pub fn cmd_rm(vars: &mut Variables, name: &str) -> (r: Result<String, InterpError>)
    requires
        old(vars).wf(),
    ensures
        final(vars).wf(),
        final(vars).arrays() == old(vars).arrays(),
        final(vars).dicts() == old(vars).dicts(),
        ({
            let ints = old(vars).ints();
            let floats = old(vars).floats();
            let strings = old(vars).strings();
            if spec_table_lookup(ints, name@) is Some {
                r is Ok && final(vars).ints() == crate::store::spec_table_remove(ints, name@)
                    && final(vars).floats() == floats && final(vars).strings() == strings
            } else if spec_table_lookup(floats, name@) is Some {
                r is Ok && final(vars).floats() == crate::store::spec_table_remove(floats, name@)
                    && final(vars).ints() == ints && final(vars).strings() == strings
            } else if spec_table_lookup(strings, name@) is Some {
                r is Ok && final(vars).strings() == crate::store::spec_table_remove(strings, name@)
                    && final(vars).ints() == ints && final(vars).floats() == floats
            } else {
                r is Err && emodel(r->Err_0) == crate::errors::ErrSpec::UndefinedVariable(name@)
                    && final(vars).ints() == ints && final(vars).floats() == floats && final(vars).strings() == strings
            }
        }),
{
    if vars.get_int_data(name).is_some() {
        vars.remove_int_data(name);
        return Ok(String::new());
    }
    if vars.get_float_data(name).is_some() {
        vars.remove_float_data(name);
        return Ok(String::new());
    }
    if vars.get_string_data(name).is_some() {
        vars.remove_string_data(name);
        return Ok(String::new());
    }
    Err(InterpError::UndefinedVariable(name.to_owned()))
}


/// What setting one collection element does: a bounds-checked index into an
/// existing array, an arbitrary key into an existing dictionary; an unbound
/// name gets a padded fresh array under a numeric key, a one-pair dictionary
/// under a textual one.
pub open spec fn spec_collection_set(
    old_v: Variables,
    new_v: Variables,
    coll: Seq<char>,
    key: Seq<char>,
    v: ValSpec,
    r: Result<String, InterpError>,
) -> bool {
    let arrays = old_v.arrays();
    let dicts = old_v.dicts();
    match spec_table_lookup(arrays, coll) {
        Some(ValSpec::Array(a)) => match crate::numtext::parse_usize_spec(key) {
            Some(idx) => if idx < a.len() {
                r is Ok && new_v.arrays() == crate::parse::spec_dict_update(
                    arrays,
                    coll,
                    ValSpec::Array(a.update(idx as int, v)),
                ) && new_v.dicts() == dicts
            } else {
                (r matches Err(e) && e is IndexOutOfBounds) && new_v.arrays() == arrays
                    && new_v.dicts() == dicts
            },
            None => (r matches Err(e) && e is BadNumber) && new_v.arrays() == arrays
                && new_v.dicts() == dicts,
        },
        _ => match spec_table_lookup(dicts, coll) {
            Some(ValSpec::Dict(d)) => r is Ok && new_v.dicts() == crate::parse::spec_dict_update(
                dicts,
                coll,
                ValSpec::Dict(crate::parse::spec_dict_update(d, key, v)),
            ) && new_v.arrays() == arrays,
            _ => match crate::numtext::parse_usize_spec(key) {
                Some(idx) => r is Ok && new_v.dicts() == dicts && new_v.arrays()
                    == crate::parse::spec_dict_update(
                    arrays,
                    coll,
                    ValSpec::Array(
                        Seq::new(idx as nat, |n: int| ValSpec::Str(Seq::empty())).push(v),
                    ),
                ),
                None => r is Ok && new_v.arrays() == arrays && new_v.dicts()
                    == crate::parse::spec_dict_update(
                    dicts,
                    coll,
                    ValSpec::Dict(seq![(key, v)]),
                ),
            },
        },
    }
}

/// Sets one element of a collection: a bounds-checked index into an existing
/// array, an arbitrary key into an existing dictionary; where the name is
/// unbound, a numeric key creates an array padded with empty strings and a
/// textual key creates a one-pair dictionary.
pub fn set_collection_value(vars: &mut Variables, coll: &str, key: &str, value: ParsedValue) -> (r:
    Result<String, InterpError>)
    requires
        old(vars).wf(),
    ensures
        final(vars).wf(),
        final(vars).ints() == old(vars).ints(),
        final(vars).floats() == old(vars).floats(),
        final(vars).strings() == old(vars).strings(),
        spec_collection_set(*old(vars), *final(vars), coll@, key@, vmodel(value), r),
{
    let keychars = crate::text::chars_of(key);
    if let Some(arr) = vars.get_array_data(coll) {
        let mut arr = arr;
        match crate::numtext::parse_usize_chars(&keychars) {
            None => {
                return Err(InterpError::BadNumber(key.to_owned()));
            },
            Some(idx) => {
                let ghost am = crate::value::vmodel_seq(arr@);
                let ghost ab = arr@;
                proof {
                    crate::value::lemma_vmodel_seq_len(arr@);
                }
                if idx < arr.len() {
                    arr[idx] = value;
                    proof {
                        crate::value::lemma_vmodel_seq_len(arr@);
                        assert forall|n: int|
                            0 <= n < arr@.len() implies #[trigger] crate::value::vmodel_seq(
                            arr@,
                        )[n] == am.update(idx as int, vmodel(value))[n] by {
                            if n != idx as int {
                                assert(arr@[n] == ab[n]);
                                assert(am[n] == vmodel(ab[n]));
                            } else {
                                assert(arr@[n] == value);
                            }
                        }
                        assert(crate::value::vmodel_seq(arr@) =~= am.update(
                            idx as int,
                            vmodel(value),
                        ));
                    }
                    vars.add_data_to_array(coll.to_owned(), arr);
                    return Ok(String::new());
                } else {
                    return Err(InterpError::IndexOutOfBounds(coll.to_owned(), idx));
                }
            },
        }
    } else if let Some(d) = vars.get_dict_data(coll) {
        let mut d = d;
        crate::parse::dict_update(&mut d, key.to_owned(), value);
        vars.add_data_to_dict(coll.to_owned(), d);
        return Ok(String::new());
    } else {
        match crate::numtext::parse_usize_chars(&keychars) {
            Some(idx) => {
                let mut arr: Vec<ParsedValue> = Vec::new();
                proof {
                    assert(crate::value::vmodel_seq(arr@) =~= Seq::new(
                        0nat,
                        |k: int| ValSpec::Str(Seq::empty()),
                    ));
                }
                let mut n: usize = 0;
                while n < idx
                    invariant
                        0 <= n <= idx,
                        crate::value::vmodel_seq(arr@) =~= Seq::new(
                            n as nat,
                            |k: int| ValSpec::Str(Seq::empty()),
                        ),
                        arr@.len() == n,
                    decreases idx - n,
                {
                    let ghost a0 = arr@;
                    let filler = ParsedValue::Str(String::new());
                    let ghost gf = filler;
                    arr.push(filler);
                    proof {
                        crate::value::lemma_vmodel_seq_snoc(a0, gf);
                        assert(crate::value::vmodel_seq(arr@) =~= Seq::new(
                            (n + 1) as nat,
                            |k: int| ValSpec::Str(Seq::empty()),
                        ));
                    }
                    n = n + 1;
                }
                let ghost a1 = arr@;
                let ghost gv = value;
                arr.push(value);
                proof {
                    crate::value::lemma_vmodel_seq_snoc(a1, gv);
                    assert(crate::value::vmodel_seq(arr@) =~= Seq::new(
                        idx as nat,
                        |n: int| ValSpec::Str(Seq::empty()),
                    ).push(vmodel(gv)));
                }
                vars.add_data_to_array(coll.to_owned(), arr);
                return Ok(String::new());
            },
            None => {
                let mut d: Vec<(String, ParsedValue)> = Vec::new();
                crate::parse::dict_update(&mut d, key.to_owned(), value);
                proof {
                    assert(crate::value::vmodel_pairs(Seq::<(String, ParsedValue)>::empty())
                        =~= Seq::<(Seq<char>, ValSpec)>::empty());
                    crate::parse::lemma_key_at(Seq::<(Seq<char>, ValSpec)>::empty(), key@);
                    assert(crate::value::vmodel_pairs(d@) =~= seq![(key@, vmodel(value))]);
                }
                vars.add_data_to_dict(coll.to_owned(), d);
                return Ok(String::new());
            },
        }
    }
}

/// Whether an argument is a whole `$(...)` substitution.
pub open spec fn spec_is_subst(s: Seq<char>) -> bool {
    s.len() >= 3 && s[0] == '$' && s[1] == '(' && s[s.len() - 1] == ')'
}

/// The inner text of a `$(...)` argument, where the argument has that shape.
fn command_inner(raw: &str) -> (r: Option<String>)
    ensures
        match r {
            Some(inner) => spec_is_subst(raw@) && inner@ == raw@.subrange(
                2,
                raw@.len() - 1,
            ),
            None => !spec_is_subst(raw@),
        },
{
    let cs = crate::text::chars_of(raw);
    let n = cs.len();
    if n >= 3 && cs[0] == '$' && cs[1] == '(' && cs[n - 1] == ')' {
        let inner = crate::parse::vec_subrange(&cs, 2, n - 1);
        Some(string_of(inner.as_slice()))
    } else {
        None
    }
}

/// Builds a Vec<String> copy of args[from..to].
fn args_range(args: &Vec<String>, from: usize, to: usize) -> (r: Vec<String>)
    requires
        from <= to <= args@.len(),
{
    let mut out: Vec<String> = Vec::new();
    let mut i = from;
    while i < to
        invariant
            from <= i <= to <= args@.len(),
        decreases to - i,
    {
        out.push(crate::value::clone_string(&args[i]));
        i = i + 1;
    }
    out
}

/// Resolves one argument of a file command: a `$(...)` substitution runs in
/// capture mode, a `$name` must be a string variable, anything else is taken
/// as written.
fn resolve_file_arg<H: Host>(
    interp: &mut Interp,
    host: &mut H,
    raw: &str,
    fuel: u64,
) -> (r: Result<String, InterpError>)
    requires
        old(interp).wf(),
    ensures
        final(interp).wf(),
        !spec_is_subst(raw@) ==> spec_interp_same(*old(interp), *final(interp)) && (if raw@.len()
            >= 1 && raw@[0] == '$' {
            match spec_table_lookup(old(interp).vars.strings(), raw@.subrange(1, raw@.len() as int)) {
                Some(ValSpec::Str(s)) => r matches Ok(v) && v@ == s,
                _ => r matches Err(e) && emodel(e) == ErrSpec::UndefinedVariable(
                    raw@.subrange(1, raw@.len() as int),
                ),
            }
        } else {
            r matches Ok(v) && v@ == raw@
        }),
    decreases fuel, 8int, 0int,
{
    if let Some(innertext) = command_inner(raw) {
        if fuel == 0 {
            return Err(InterpError::RecursionLimit);
        }
        let args = tokenize_input(innertext.as_str());
        return execute_command(interp, host, &args, true, fuel - 1);
    }
    let cs = crate::text::chars_of(raw);
    if cs.len() >= 1 && cs[0] == '$' {
        let tail = crate::parse::vec_subrange(&cs, 1, cs.len());
        let name = string_of(tail.as_slice());
        match interp.vars.get_string_data(name.as_str()) {
            Some(v) => {
                return Ok(v);
            },
            None => {
                return Err(InterpError::UndefinedVariable(name));
            },
        }
    }
    Ok(raw.to_owned())
}

/// A plain filename: trimmed, then one quote stripped from each end.
pub open spec fn spec_plain_filename(s: Seq<char>) -> Seq<char> {
    let t0 = crate::text::spec_trim(s);
    let t1 = if t0.len() >= 1 && t0[0] == '"' {
        t0.subrange(1, t0.len() as int)
    } else {
        t0
    };
    let t2 = if t1.len() >= 1 && t1[t1.len() - 1] == '"' {
        t1.subrange(0, t1.len() - 1)
    } else {
        t1
    };
    let t3 = if t2.len() >= 1 && t2[0] == '\'' {
        t2.subrange(1, t2.len() as int)
    } else {
        t2
    };
    if t3.len() >= 1 && t3[t3.len() - 1] == '\'' {
        t3.subrange(0, t3.len() - 1)
    } else {
        t3
    }
}

/// Resolves the filename argument of `save_state`/`load_state`: `$(...)`
/// runs and is trimmed, `$name` must name a string variable, and plain text
/// loses surrounding quotes.
pub fn resolve_filename<H: Host>(
    interp: &mut Interp,
    host: &mut H,
    raw: &str,
    fuel: u64,
) -> (r: Result<String, InterpError>)
    requires
        old(interp).wf(),
    ensures
        final(interp).wf(),
        !spec_is_subst(raw@) ==> spec_interp_same(*old(interp), *final(interp)) && (if raw@.len()
            >= 2 && raw@[0] == '$' && crate::tokenize::spec_is_valid_identifier(
            raw@.subrange(1, raw@.len() as int),
        ) {
            match spec_table_lookup(old(interp).vars.strings(), raw@.subrange(1, raw@.len() as int)) {
                Some(ValSpec::Str(s)) => r matches Ok(name) && name@ == s,
                _ => r matches Err(e) && emodel(e) == ErrSpec::UndefinedVariable(
                    raw@.subrange(1, raw@.len() as int),
                ),
            }
        } else {
            r matches Ok(name) && name@ == spec_plain_filename(raw@)
        }),
    decreases fuel, 8int, 0int,
{
    if let Some(innertext) = command_inner(raw) {
        if fuel == 0 {
            return Err(InterpError::RecursionLimit);
        }
        let args = tokenize_input(innertext.as_str());
        match execute_command(interp, host, &args, true, fuel - 1) {
            Ok(out) => {
                let cs = crate::text::chars_of(out.as_str());
                let tr = crate::text::trim_chars(&cs);
                return Ok(string_of(tr.as_slice()));
            },
            Err(e) => {
                return Err(e);
            },
        }
    }
    let cs = crate::text::chars_of(raw);
    if cs.len() >= 2 && cs[0] == '$' {
        let tail = crate::parse::vec_subrange(&cs, 1, cs.len());
        let name = string_of(tail.as_slice());
        if crate::tokenize::is_valid_identifier(name.as_str()) {
            return match interp.vars.get_string_data(name.as_str()) {
                Some(v) => Ok(v),
                None => Err(InterpError::UndefinedVariable(name)),
            };
        }
    }
    // plain text: trim, then strip one quote from each end independently
    let mut t = crate::text::trim_chars(&cs);
    if t.len() >= 1 && t[0] == '"' {
        t = crate::parse::vec_subrange(&t, 1, t.len());
    }
    if t.len() >= 1 && t[t.len() - 1] == '"' {
        t = crate::parse::vec_subrange(&t, 0, t.len() - 1);
    }
    if t.len() >= 1 && t[0] == '\'' {
        t = crate::parse::vec_subrange(&t, 1, t.len());
    }
    if t.len() >= 1 && t[t.len() - 1] == '\'' {
        t = crate::parse::vec_subrange(&t, 0, t.len() - 1);
    }
    Ok(string_of(t.as_slice()))
}


/// The store after one value lands under a name: the table of the value's
/// kind gains the binding, the other four stay.
pub open spec fn spec_stored(old_i: Interp, new_i: Interp, name: Seq<char>, v: ValSpec) -> bool {
    &&& new_i.out == old_i.out
    &&& match v {
        ValSpec::Int(x) => new_i.vars.ints() == crate::parse::spec_dict_update(
            old_i.vars.ints(),
            name,
            ValSpec::Int(x),
        ) && new_i.vars.floats() == old_i.vars.floats() && new_i.vars.strings()
            == old_i.vars.strings() && new_i.vars.arrays() == old_i.vars.arrays()
            && new_i.vars.dicts() == old_i.vars.dicts(),
        ValSpec::Float(b) => new_i.vars.floats() == crate::parse::spec_dict_update(
            old_i.vars.floats(),
            name,
            ValSpec::Float(b),
        ) && new_i.vars.ints() == old_i.vars.ints() && new_i.vars.strings()
            == old_i.vars.strings() && new_i.vars.arrays() == old_i.vars.arrays()
            && new_i.vars.dicts() == old_i.vars.dicts(),
        ValSpec::Str(s) => new_i.vars.strings() == crate::parse::spec_dict_update(
            old_i.vars.strings(),
            name,
            ValSpec::Str(s),
        ) && new_i.vars.ints() == old_i.vars.ints() && new_i.vars.floats()
            == old_i.vars.floats() && new_i.vars.arrays() == old_i.vars.arrays()
            && new_i.vars.dicts() == old_i.vars.dicts(),
        ValSpec::Array(a) => new_i.vars.arrays() == crate::parse::spec_dict_update(
            old_i.vars.arrays(),
            name,
            ValSpec::Array(a),
        ) && new_i.vars.ints() == old_i.vars.ints() && new_i.vars.floats()
            == old_i.vars.floats() && new_i.vars.strings() == old_i.vars.strings()
            && new_i.vars.dicts() == old_i.vars.dicts(),
        ValSpec::Dict(d) => new_i.vars.dicts() == crate::parse::spec_dict_update(
            old_i.vars.dicts(),
            name,
            ValSpec::Dict(d),
        ) && new_i.vars.ints() == old_i.vars.ints() && new_i.vars.floats()
            == old_i.vars.floats() && new_i.vars.strings() == old_i.vars.strings()
            && new_i.vars.arrays() == old_i.vars.arrays(),
    }
}

/// Sets a variable from an expression: `set <name> <expr>`. Where the
/// expression has a pure reading, the value lands in the table of its kind
/// (or the evaluation error comes back and nothing changes).
pub fn set_simple_variable<H: Host>(
    interp: &mut Interp,
    host: &mut H,
    args: &Vec<String>,
    fuel: u64,
) -> (r: Result<String, InterpError>)
    requires
        old(interp).wf(),
    ensures
        final(interp).wf(),
        args@.len() < 3 ==> r is Err && spec_interp_same(*old(interp), *final(interp)),
        args@.len() >= 3 ==> ({
            let expr = crate::resolve::spec_join_space(args@.map_values(|t: String| t@), 2);
            match spec_eval_pure(old(interp).vars, spec_lex_all(expr, 0)) {
                Some(out) => spec_flags_same(*old(interp), *final(interp)) && (match out {
                    Ok(v) => r is Ok && spec_stored(*old(interp), *final(interp), args@[1]@, v),
                    Err(e) => (r matches Err(got) && emodel(got) == e) && vars_model_eq(
                        final(interp).vars,
                        old(interp).vars,
                    ) && final(interp).out == old(interp).out,
                }),
                None => true,
            }
        }),
    decreases fuel, 8int, 0int,
{
    if args.len() < 3 {
        return Err(InterpError::MalformedCommand("set <name> <value>".to_owned()));
    }
    let name = crate::value::clone_string(&args[1]);
    let raw_value = crate::resolve::join_space(args, 2);
    match evaluate_expression(interp, host, raw_value.as_str(), fuel) {
        Ok(v) => {
            let _ = store_parsed_value(&mut interp.vars, name, v);
            Ok(String::new())
        },
        Err(e) => Err(e),
    }
}

/// Sets one element of a collection: `set <coll> <key> <value>`, the value
/// read from a `$(...)` substitution or as a literal.
pub fn set_collection_element<H: Host>(
    interp: &mut Interp,
    host: &mut H,
    args: &Vec<String>,
    fuel: u64,
) -> (r: Result<String, InterpError>)
    requires
        old(interp).wf(),
    ensures
        final(interp).wf(),
        args@.len() < 4 ==> r is Err && spec_interp_same(*old(interp), *final(interp)),
        args@.len() >= 4 && !spec_is_subst(
            crate::resolve::spec_join_space(args@.map_values(|t: String| t@), 3),
        ) ==> spec_flags_same(*old(interp), *final(interp)) && final(interp).out == old(interp).out
            && final(interp).vars.ints() == old(interp).vars.ints() && final(interp).vars.floats()
            == old(interp).vars.floats() && final(interp).vars.strings()
            == old(interp).vars.strings() && spec_collection_set(
            old(interp).vars,
            final(interp).vars,
            args@[1]@,
            args@[2]@,
            spec_parse_value(crate::resolve::spec_join_space(args@.map_values(|t: String| t@), 3)),
            r,
        ),
    decreases fuel, 8int, 0int,
{
    if args.len() < 4 {
        return Err(
            InterpError::MalformedCommand("set <collection_name> <key/index> <value>".to_owned()),
        );
    }
    let value_str = crate::resolve::join_space(args, 3);
    let parsed: ParsedValue = if let Some(innertext) = command_inner(value_str.as_str()) {
        if fuel == 0 {
            return Err(InterpError::RecursionLimit);
        }
        let cmd_args = tokenize_input(innertext.as_str());
        match execute_command(interp, host, &cmd_args, true, fuel - 1) {
            Ok(output) => parse_value(output.as_str()),
            Err(e) => {
                return Err(e);
            },
        }
    } else {
        parse_value(value_str.as_str())
    };
    set_collection_value(&mut interp.vars, args[1].as_str(), args[2].as_str(), parsed)
}


/// The length the `len` command reports: an array's element count, a
/// dictionary's pair count, or a string's character count, in lookup order;
/// a name bound as none of the three fails.
pub fn cmd_len(vars: &Variables, name: &str) -> (r: Result<usize, InterpError>)
    requires
        vars.wf(),
    ensures
        match spec_table_lookup(vars.arrays(), name@) {
            Some(ValSpec::Array(a)) => r matches Ok(l) && l == a.len(),
            _ => match spec_table_lookup(vars.dicts(), name@) {
                Some(ValSpec::Dict(d)) => r matches Ok(l) && l == d.len(),
                _ => match spec_table_lookup(vars.strings(), name@) {
                    Some(ValSpec::Str(s)) => r matches Ok(l) && l == s.len(),
                    _ => r matches Err(e) && emodel(e) == ErrSpec::TypeMismatch(name@),
                },
            },
        },
{
    if let Some(arr) = vars.get_array_data(name) {
        proof {
            crate::value::lemma_vmodel_seq_len(arr@);
        }
        Ok(arr.len())
    } else if let Some(d) = vars.get_dict_data(name) {
        proof {
            crate::value::lemma_vmodel_pairs_len(d@);
        }
        Ok(d.len())
    } else if let Some(s) = vars.get_string_data(name) {
        let cs = crate::text::chars_of(s.as_str());
        Ok(cs.len())
    } else {
        Err(InterpError::TypeMismatch(name.to_owned()))
    }
}

/// The element the `get` command reads: a bounds-checked index into an
/// array, or a key into a dictionary, with the errors each case owes.
pub fn cmd_get(vars: &Variables, name: &str, key: &str) -> (r: Result<ParsedValue, InterpError>)
    requires
        vars.wf(),
    ensures
        match r {
            Ok(got) => spec_get_of(*vars, name@, key@) == Ok::<ValSpec, ErrSpec>(vmodel(got)),
            Err(e) => spec_get_of(*vars, name@, key@) == Err::<ValSpec, ErrSpec>(emodel(e)),
        },
{
    if let Some(arr) = vars.get_array_data(name) {
        let kc = crate::text::chars_of(key);
        match crate::numtext::parse_usize_chars(&kc) {
            None => Err(InterpError::BadNumber(key.to_owned())),
            Some(idx) => {
                proof {
                    crate::value::lemma_vmodel_seq_len(arr@);
                }
                if idx < arr.len() {
                    Ok(crate::value::clone_value(&arr[idx]))
                } else {
                    Err(InterpError::IndexOutOfBounds(name.to_owned(), idx))
                }
            },
        }
    } else if let Some(d) = vars.get_dict_data(name) {
        match crate::store::table_get(&d, key) {
            Some(v) => Ok(v),
            None => Err(InterpError::KeyNotFound(name.to_owned(), key.to_owned())),
        }
    } else {
        Err(InterpError::UndefinedVariable(name.to_owned()))
    }
}

/// What `pop` does: removes and returns an array's last element; an empty or
/// unbound array fails and changes nothing.
pub fn cmd_pop(vars: &mut Variables, name: &str) -> (r: Result<ParsedValue, InterpError>)
    requires
        old(vars).wf(),
    ensures
        final(vars).wf(),
        final(vars).ints() == old(vars).ints(),
        final(vars).floats() == old(vars).floats(),
        final(vars).strings() == old(vars).strings(),
        final(vars).dicts() == old(vars).dicts(),
        match spec_table_lookup(old(vars).arrays(), name@) {
            Some(ValSpec::Array(a)) => if a.len() == 0 {
                r matches Err(e) && emodel(e) == ErrSpec::EmptyCollection(name@) && final(vars).arrays() == old(vars).arrays()
            } else {
                r matches Ok(v) && vmodel(v) == a.last() && final(vars).arrays()
                    == crate::parse::spec_dict_update(
                    old(vars).arrays(),
                    name@,
                    ValSpec::Array(a.drop_last()),
                )
            },
            _ => r matches Err(e) && emodel(e) == ErrSpec::UndefinedVariable(name@) && final(vars).arrays() == old(vars).arrays(),
        },
{
    match vars.get_array_data(name) {
        Some(arr) => {
            let mut arr = arr;
            let ghost a0 = arr@;
            proof {
                crate::value::lemma_vmodel_seq_len(arr@);
            }
            match arr.pop() {
                Some(v) => {
                    proof {
                        crate::value::lemma_vmodel_seq_len(arr@);
                        assert forall|n: int|
                            0 <= n < arr@.len() implies #[trigger] crate::value::vmodel_seq(
                            arr@,
                        )[n] == crate::value::vmodel_seq(a0).drop_last()[n] by {
                            assert(arr@[n] == a0[n]);
                            crate::value::lemma_vmodel_seq_len(a0);
                        }
                        crate::value::lemma_vmodel_seq_len(a0);
                        assert(crate::value::vmodel_seq(arr@) =~= crate::value::vmodel_seq(
                            a0,
                        ).drop_last());
                        assert(vmodel(v) == crate::value::vmodel_seq(a0).last());
                    }
                    vars.add_data_to_array(name.to_owned(), arr);
                    Ok(v)
                },
                None => Err(InterpError::EmptyCollection(name.to_owned())),
            }
        },
        None => Err(InterpError::UndefinedVariable(name.to_owned())),
    }
}


/// Nothing about the context changed.
pub open spec fn spec_interp_same(a: Interp, b: Interp) -> bool {
    &&& vars_model_eq(b.vars, a.vars)
    &&& b.out == a.out
    &&& b.break_flag == a.break_flag
    &&& b.continue_flag == a.continue_flag
    &&& b.exit_code == a.exit_code
}

/// The loop flags and the exit request are as they were.
pub open spec fn spec_flags_same(a: Interp, b: Interp) -> bool {
    &&& b.break_flag == a.break_flag
    &&& b.continue_flag == a.continue_flag
    &&& b.exit_code == a.exit_code
}

/// One line was printed (buffered), in capture mode nothing is.
pub open spec fn spec_said(a: Interp, b: Interp, capture: bool, text: Seq<char>, r: Result<
    String,
    InterpError,
>) -> bool {
    if capture {
        &&& r matches Ok(s) && s@ == text
        &&& b.out == a.out
    } else {
        &&& r matches Ok(s) && s@ == Seq::<char>::empty()
        &&& b.out_model() == a.out_model().push(text)
    }
}

/// The length `len` reports, in lookup order, or None for a name bound as
/// none of array, dictionary or string.
pub open spec fn spec_len_of(vars: Variables, name: Seq<char>) -> Option<int> {
    match spec_table_lookup(vars.arrays(), name) {
        Some(ValSpec::Array(a)) => Some(a.len() as int),
        _ => match spec_table_lookup(vars.dicts(), name) {
            Some(ValSpec::Dict(d)) => Some(d.len() as int),
            _ => match spec_table_lookup(vars.strings(), name) {
                Some(ValSpec::Str(s)) => Some(s.len() as int),
                _ => None,
            },
        },
    }
}

/// What `get` reads: a bounds-checked array index or a dictionary key.
pub open spec fn spec_get_of(vars: Variables, name: Seq<char>, key: Seq<char>) -> Result<
    ValSpec,
    ErrSpec,
> {
    match spec_table_lookup(vars.arrays(), name) {
        Some(ValSpec::Array(a)) => match crate::numtext::parse_usize_spec(key) {
            Some(idx) => if idx < a.len() {
                Ok(a[idx as int])
            } else {
                Err(ErrSpec::IndexOutOfBounds(name, idx as int))
            },
            None => Err(ErrSpec::BadNumber(key)),
        },
        _ => match spec_table_lookup(vars.dicts(), name) {
            Some(ValSpec::Dict(d)) => match spec_table_lookup(d, key) {
                Some(v) => Ok(v),
                None => Err(ErrSpec::KeyNotFound(name, key)),
            },
            _ => Err(ErrSpec::UndefinedVariable(name)),
        },
    }
}

/// How an arithmetic command's operand reads where no substitution runs: a
/// bound scalar name gives its value, anything else its literal parse.
pub open spec fn spec_operand_pure(vars: Variables, raw: Seq<char>) -> Option<ValSpec> {
    if spec_is_subst(raw) {
        None
    } else if crate::tokenize::spec_is_valid_identifier(raw) {
        match spec_table_lookup(vars.ints(), raw) {
            Some(ValSpec::Int(v)) => Some(ValSpec::Int(v)),
            _ => match spec_table_lookup(vars.floats(), raw) {
                Some(ValSpec::Float(b)) => Some(ValSpec::Float(b)),
                _ => match spec_table_lookup(vars.strings(), raw) {
                    Some(ValSpec::Str(s)) => Some(ValSpec::Str(s)),
                    _ => Some(spec_parse_value(raw)),
                },
            },
        }
    } else {
        Some(spec_parse_value(raw))
    }
}

/// The outcome of `quit`/`exit`: the parsed code, or zero.
pub open spec fn spec_exit_code(args: Seq<Seq<char>>) -> int {
    if args.len() >= 2 {
        match crate::numtext::parse_i32_spec(args[1]) {
            Some(v) => v as int,
            None => 0,
        }
    } else {
        0
    }
}


/// What `push_to_string_back` appends where no substitution runs: a bound
/// scalar's rendering, else the text as written.
pub open spec fn spec_push_piece(vars: Variables, raw: Seq<char>) -> Option<Seq<char>> {
    if spec_is_subst(raw) {
        None
    } else if crate::tokenize::spec_is_valid_identifier(raw) {
        match spec_table_lookup(vars.ints(), raw) {
            Some(ValSpec::Int(v)) => Some(crate::numtext::int_text(v)),
            _ => match spec_table_lookup(vars.floats(), raw) {
                Some(ValSpec::Float(b)) => Some(crate::float::float_dec_of(b)),
                _ => match spec_table_lookup(vars.strings(), raw) {
                    Some(ValSpec::Str(s)) => Some(s),
                    _ => Some(raw),
                },
            },
        }
    } else {
        Some(raw)
    }
}

/// The table updates of an arithmetic command that stored `val`.
pub open spec fn spec_arith_tables(old_v: Variables, new_v: Variables, name: Seq<char>, val: ValSpec) -> bool {
    match val {
        ValSpec::Int(v) => new_v.ints() == crate::parse::spec_dict_update(
            old_v.ints(),
            name,
            ValSpec::Int(v),
        ) && new_v.floats() == old_v.floats() && new_v.strings() == old_v.strings(),
        ValSpec::Float(b) => new_v.floats() == crate::parse::spec_dict_update(
            old_v.floats(),
            name,
            ValSpec::Float(b),
        ) && new_v.ints() == old_v.ints() && new_v.strings() == old_v.strings(),
        ValSpec::Str(s) => new_v.strings() == crate::parse::spec_dict_update(
            old_v.strings(),
            name,
            ValSpec::Str(s),
        ) && new_v.ints() == old_v.ints() && new_v.floats() == old_v.floats(),
        _ => false,
    }
}


/// A dictionary's keys, joined with ", ".
pub open spec fn spec_keys_text(d: crate::store::TableModel, i: int) -> Seq<char>
    decreases d.len() - i,
{
    if i < 0 || i >= d.len() {
        Seq::empty()
    } else if i == d.len() - 1 {
        d[i].0
    } else {
        d[i].0 + seq![',', ' '] + spec_keys_text(d, i + 1)
    }
}

/// A dictionary's values, rendered and joined with ", ".
pub open spec fn spec_values_text(d: crate::store::TableModel, i: int) -> Seq<char>
    decreases d.len() - i,
{
    if i < 0 || i >= d.len() {
        Seq::empty()
    } else if i == d.len() - 1 {
        crate::value::spec_value_text(d[i].1)
    } else {
        crate::value::spec_value_text(d[i].1) + seq![',', ' '] + spec_values_text(d, i + 1)
    }
}

/// What dispatching owes, command by command. Commands whose work runs
/// through another dispatch (a substitution, a loop body) are pinned on their
/// own errors and their substitution-free paths; what a nested dispatch
/// returns is that dispatch's business.
pub open spec fn spec_dispatch_post(
    old_i: Interp,
    new_i: Interp,
    args: Seq<Seq<char>>,
    capture: bool,
    r: Result<String, InterpError>,
) -> bool {
    &&& (args.len() == 0 ==> (r matches Ok(s) && s@ == Seq::<char>::empty()) && spec_interp_same(
        old_i,
        new_i,
    ))
    &&& (args.len() > 0 && !spec_known_command(args[0]) ==> spec_interp_same(old_i, new_i) && (
    r matches Err(e) && emodel(e) == (if capture {
        ErrSpec::IllegalInCaptureMode(args[0])
    } else {
        ErrSpec::UnknownCommand(args[0])
    })))
    &&& (args.len() > 0 && args[0] == ("//")@ ==> (r matches Ok(s) && s@ == Seq::<char>::empty())
        && spec_interp_same(old_i, new_i))
    &&& (args.len() > 0 && args[0] == ("break")@ ==> vars_model_eq(new_i.vars, old_i.vars)
        && new_i.out == old_i.out && new_i.continue_flag == old_i.continue_flag && new_i.exit_code
        == old_i.exit_code && (if capture {
        r matches Err(e) && emodel(e) == ErrSpec::IllegalInCaptureMode(args[0])
            && new_i.break_flag == old_i.break_flag
    } else {
        r is Ok && new_i.break_flag
    }))
    &&& (args.len() > 0 && args[0] == ("continue")@ ==> vars_model_eq(new_i.vars, old_i.vars)
        && new_i.out == old_i.out && new_i.break_flag == old_i.break_flag && new_i.exit_code
        == old_i.exit_code && (if capture {
        r matches Err(e) && emodel(e) == ErrSpec::IllegalInCaptureMode(args[0])
            && new_i.continue_flag == old_i.continue_flag
    } else {
        r is Ok && new_i.continue_flag
    }))
    &&& (args.len() > 0 && (args[0] == ("quit")@ || args[0] == ("exit")@) ==> vars_model_eq(
        new_i.vars,
        old_i.vars,
    ) && (if capture {
        spec_interp_same(old_i, new_i) && (r matches Err(e) && emodel(e)
            == ErrSpec::IllegalInCaptureMode(args[0]))
    } else {
        r is Ok && new_i.exit_code == Some(spec_exit_code(args) as i32) && new_i.break_flag
            == old_i.break_flag && new_i.continue_flag == old_i.continue_flag
    }))
    &&& (args.len() > 0 && (args[0] == ("help")@ || args[0] == ("command_list")@ || args[0] == (
    "clear")@) ==> spec_interp_same(old_i, new_i) && (if capture {
        r matches Err(e) && emodel(e) == ErrSpec::IllegalInCaptureMode(args[0])
    } else {
        r is Ok
    }))
    &&& (args.len() >= 2 && args[0] == ("print")@ && !spec_is_subst(
        crate::resolve::spec_join_space(args, 1),
    ) ==> vars_model_eq(new_i.vars, old_i.vars) && spec_flags_same(old_i, new_i) && spec_said(
        old_i,
        new_i,
        capture,
        crate::resolve::spec_subst(old_i.vars, crate::resolve::spec_join_space(args, 1), 0),
        r,
    ))
    &&& (args.len() > 0 && args[0] == ("vl")@ ==> vars_model_eq(new_i.vars, old_i.vars)
        && spec_flags_same(old_i, new_i) && spec_said(
        old_i,
        new_i,
        capture,
        crate::store::spec_vl(
            old_i.vars,
            if args.len() >= 2 {
                args[1]
            } else {
                Seq::empty()
            },
        ),
        r,
    ))
    &&& (args.len() >= 2 && args[0] == ("rm")@ ==> new_i.out == old_i.out && spec_flags_same(
        old_i,
        new_i,
    ) && new_i.vars.arrays() == old_i.vars.arrays() && new_i.vars.dicts() == old_i.vars.dicts()
        && ({
        let name = args[1];
        let ints = old_i.vars.ints();
        let floats = old_i.vars.floats();
        let strings = old_i.vars.strings();
        if spec_table_lookup(ints, name) is Some {
            r is Ok && new_i.vars.ints() == crate::store::spec_table_remove(ints, name)
                && new_i.vars.floats() == floats && new_i.vars.strings() == strings
        } else if spec_table_lookup(floats, name) is Some {
            r is Ok && new_i.vars.floats() == crate::store::spec_table_remove(floats, name)
                && new_i.vars.ints() == ints && new_i.vars.strings() == strings
        } else if spec_table_lookup(strings, name) is Some {
            r is Ok && new_i.vars.strings() == crate::store::spec_table_remove(strings, name)
                && new_i.vars.ints() == ints && new_i.vars.floats() == floats
        } else {
            (r matches Err(e) && emodel(e) == ErrSpec::UndefinedVariable(name)) && vars_model_eq(
                new_i.vars,
                old_i.vars,
            )
        }
    }))
    &&& (args.len() == 1 && args[0] == ("rm")@ ==> r is Err && spec_interp_same(old_i, new_i))
    &&& (args.len() >= 2 && args[0] == ("len")@ ==> vars_model_eq(new_i.vars, old_i.vars)
        && spec_flags_same(old_i, new_i) && (match spec_len_of(old_i.vars, args[1]) {
        Some(l) => spec_said(old_i, new_i, capture, crate::numtext::int_text(l), r),
        None => (r matches Err(e) && emodel(e) == ErrSpec::TypeMismatch(args[1])) && new_i.out
            == old_i.out,
    }))
    &&& (args.len() >= 3 && args[0] == ("get")@ ==> vars_model_eq(new_i.vars, old_i.vars)
        && spec_flags_same(old_i, new_i) && (match spec_get_of(old_i.vars, args[1], args[2]) {
        Ok(v) => spec_said(old_i, new_i, capture, crate::value::spec_value_text(v), r),
        Err(e) => (r matches Err(got) && emodel(got) == e) && new_i.out == old_i.out,
    }))
    &&& (args.len() >= 2 && args[0] == ("pop")@ ==> spec_flags_same(old_i, new_i)
        && new_i.vars.ints() == old_i.vars.ints() && new_i.vars.floats() == old_i.vars.floats()
        && new_i.vars.strings() == old_i.vars.strings() && new_i.vars.dicts()
        == old_i.vars.dicts() && ({
        let name = args[1];
        match spec_table_lookup(old_i.vars.arrays(), name) {
            Some(ValSpec::Array(a)) => if a.len() == 0 {
                (r matches Err(e) && emodel(e) == ErrSpec::EmptyCollection(name))
                    && new_i.vars.arrays() == old_i.vars.arrays() && new_i.out == old_i.out
            } else {
                new_i.vars.arrays() == crate::parse::spec_dict_update(
                    old_i.vars.arrays(),
                    name,
                    ValSpec::Array(a.drop_last()),
                ) && spec_said(old_i, new_i, capture, crate::value::spec_value_text(a.last()), r)
            },
            _ => (r matches Err(e) && emodel(e) == ErrSpec::UndefinedVariable(name))
                && new_i.vars.arrays() == old_i.vars.arrays() && new_i.out == old_i.out,
        }
    }))

    &&& (args.len() > 0 && args[0] == ("set")@ && !capture ==> (if args.len() < 3 {
        r is Err && spec_interp_same(old_i, new_i)
    } else {
        match spec_eval_pure(
            old_i.vars,
            crate::expr::spec_lex_all(crate::resolve::spec_join_space(args, 2), 0),
        ) {
            Some(out) => spec_flags_same(old_i, new_i) && (match out {
                Ok(v) => r is Ok && spec_stored(old_i, new_i, args[1], v),
                Err(e) => (r matches Err(got) && emodel(got) == e) && vars_model_eq(
                    new_i.vars,
                    old_i.vars,
                ) && new_i.out == old_i.out,
            }),
            None => true,
        }
    }))
    &&& (args.len() > 0 && args[0] == ("set")@ && capture ==> (if args.len() < 4 {
        r is Err && spec_interp_same(old_i, new_i)
    } else {
        !spec_is_subst(crate::resolve::spec_join_space(args, 3)) ==> spec_flags_same(old_i, new_i)
            && new_i.out == old_i.out && new_i.vars.ints() == old_i.vars.ints()
            && new_i.vars.floats() == old_i.vars.floats() && new_i.vars.strings()
            == old_i.vars.strings() && spec_collection_set(
            old_i.vars,
            new_i.vars,
            args[1],
            args[2],
            spec_parse_value(crate::resolve::spec_join_space(args, 3)),
            r,
        )
    }))
    &&& (args.len() > 0 && (args[0] == ("add")@ || args[0] == ("sub")@ || args[0] == ("mul")@
        || args[0] == ("div")@) ==> (if args.len() < 3 {
        r is Err && spec_interp_same(old_i, new_i)
    } else {
        match spec_operand_pure(old_i.vars, crate::resolve::spec_join_space(args, 2)) {
            Some(v) => spec_flags_same(old_i, new_i) && new_i.out == old_i.out
                && new_i.vars.arrays() == old_i.vars.arrays()
                && new_i.vars.dicts() == old_i.vars.dicts() && (match crate::arith::spec_arith_outcome(
                old_i.vars,
                args[0],
                args[1],
                v,
            ) {
                Ok(val) => r is Ok && spec_arith_tables(old_i.vars, new_i.vars, args[1], val),
                Err(e) => (r matches Err(got) && emodel(got) == e) && vars_model_eq(
                    new_i.vars,
                    old_i.vars,
                ),
            }),
            None => true,
        }
    }))
    &&& (args.len() > 0 && args[0] == ("push")@ ==> (if args.len() < 3 {
        r is Err && spec_interp_same(old_i, new_i)
    } else {
        match spec_eval_pure(
            old_i.vars,
            crate::expr::spec_lex_all(crate::resolve::spec_join_space(args, 2), 0),
        ) {
            Some(out) => spec_flags_same(old_i, new_i) && new_i.out == old_i.out && (match out {
                Ok(v) => r is Ok && new_i.vars.ints() == old_i.vars.ints() && new_i.vars.floats()
                    == old_i.vars.floats() && new_i.vars.strings() == old_i.vars.strings()
                    && new_i.vars.dicts() == old_i.vars.dicts() && new_i.vars.arrays()
                    == crate::parse::spec_dict_update(
                    old_i.vars.arrays(),
                    args[1],
                    ValSpec::Array(
                        match spec_table_lookup(old_i.vars.arrays(), args[1]) {
                            Some(ValSpec::Array(a)) => a.push(v),
                            _ => seq![v],
                        },
                    ),
                ),
                Err(e) => (r matches Err(got) && emodel(got) == e) && vars_model_eq(
                    new_i.vars,
                    old_i.vars,
                ),
            }),
            None => true,
        }
    }))
    &&& (args.len() >= 2 && args[0] == ("base64_encode")@ ==> vars_model_eq(new_i.vars, old_i.vars)
        && spec_flags_same(old_i, new_i) && (match spec_table_lookup(old_i.vars.strings(), args[1]) {
        Some(ValSpec::Str(s)) => spec_said(
            old_i,
            new_i,
            capture,
            crate::b64::b64_encode_of(vstd::utf8::encode_utf8(s)),
            r,
        ),
        _ => (r matches Err(e) && emodel(e) == ErrSpec::UndefinedVariable(args[1])) && new_i.out
            == old_i.out,
    }))
    &&& (args.len() >= 2 && args[0] == ("base64_decode")@ ==> vars_model_eq(new_i.vars, old_i.vars)
        && spec_flags_same(old_i, new_i) && (match spec_table_lookup(old_i.vars.strings(), args[1]) {
        Some(ValSpec::Str(s)) => match crate::b64::b64_decode_of(s) {
            Some(bytes) => if vstd::utf8::valid_utf8(bytes) {
                r is Ok && (capture ==> (r matches Ok(out) && vstd::utf8::encode_utf8(out@)
                    == bytes) && new_i.out == old_i.out)
            } else {
                (r matches Err(e) && e is Io) && new_i.out == old_i.out
            },
            None => (r matches Err(e) && e is Io) && new_i.out == old_i.out,
        },
        _ => (r matches Err(e) && emodel(e) == ErrSpec::UndefinedVariable(args[1])) && new_i.out
            == old_i.out,
    }))
    &&& (args.len() > 0 && args[0] == ("num_to_string")@ ==> (if args.len() < 3 {
        r is Err && spec_interp_same(old_i, new_i)
    } else {
        !spec_is_subst(
            crate::text::spec_trim(crate::resolve::spec_join_space(args, 2)),
        ) ==> spec_flags_same(old_i, new_i) && r is Ok && new_i.out == old_i.out
            && new_i.vars.strings()
            == crate::parse::spec_dict_update(
            old_i.vars.strings(),
            args[1],
            ValSpec::Str(
                crate::resolve::spec_resolve(
                    old_i.vars,
                    crate::text::spec_trim(crate::resolve::spec_join_space(args, 2)),
                ),
            ),
        ) && new_i.vars.ints() == old_i.vars.ints() && new_i.vars.floats() == old_i.vars.floats()
            && new_i.vars.arrays() == old_i.vars.arrays() && new_i.vars.dicts()
            == old_i.vars.dicts()
    }))
    &&& (args.len() > 0 && args[0] == ("push_to_string_back")@ ==> (if args.len() < 3 {
        r is Err && spec_interp_same(old_i, new_i)
    } else {
        match spec_push_piece(old_i.vars, crate::resolve::spec_join_space(args, 2)) {
            Some(p) => spec_flags_same(old_i, new_i) && r is Ok && new_i.out == old_i.out
                && new_i.vars.strings()
                == crate::parse::spec_dict_update(
                old_i.vars.strings(),
                args[1],
                ValSpec::Str(
                    match spec_table_lookup(old_i.vars.strings(), args[1]) {
                        Some(ValSpec::Str(cur)) => cur + p,
                        _ => p,
                    },
                ),
            ) && new_i.vars.ints() == old_i.vars.ints() && new_i.vars.floats()
                == old_i.vars.floats() && new_i.vars.arrays() == old_i.vars.arrays()
                && new_i.vars.dicts() == old_i.vars.dicts(),
            None => true,
        }
    }))

    &&& (args.len() > 0 && (args[0] == ("keys")@ || args[0] == ("values")@) ==> vars_model_eq(
        new_i.vars,
        old_i.vars,
    ) && spec_flags_same(old_i, new_i) && (if args.len() < 2 {
        r is Err && new_i.out == old_i.out
    } else {
        match spec_table_lookup(old_i.vars.dicts(), args[1]) {
            Some(ValSpec::Dict(d)) => spec_said(
                old_i,
                new_i,
                capture,
                seq!['['] + (if args[0] == ("keys")@ {
                    spec_keys_text(d, 0)
                } else {
                    spec_values_text(d, 0)
                }) + seq![']'],
                r,
            ),
            _ => (r matches Err(e) && emodel(e) == ErrSpec::UndefinedVariable(args[1])) && new_i.out
                == old_i.out,
        }
    }))
    &&& (args.len() >= 3 && args[0] == ("remove_string_char")@ && args[2].len() >= 1 && args[2][0]
        != '$' ==> spec_flags_same(old_i, new_i) && new_i.out == old_i.out && (match
    crate::numtext::parse_i32_spec(args[2]) {
        Some(v) => if v < 0 {
            r is Err && vars_model_eq(new_i.vars, old_i.vars)
        } else {
            new_i.vars.ints() == old_i.vars.ints() && new_i.vars.floats() == old_i.vars.floats()
                && new_i.vars.arrays() == old_i.vars.arrays() && new_i.vars.dicts()
                == old_i.vars.dicts() && (match spec_table_lookup(old_i.vars.strings(), args[1]) {
                Some(ValSpec::Str(s)) => if v < s.len() {
                    r is Ok && new_i.vars.strings() == crate::parse::spec_dict_update(
                        old_i.vars.strings(),
                        args[1],
                        ValSpec::Str(s.remove(v as int)),
                    )
                } else {
                    (r matches Err(e) && e is IndexOutOfBounds) && new_i.vars.strings()
                        == old_i.vars.strings()
                },
                _ => (r matches Err(e) && e is UndefinedVariable) && new_i.vars.strings()
                    == old_i.vars.strings(),
            })
        },
        None => (r matches Err(e) && e is BadNumber) && vars_model_eq(new_i.vars, old_i.vars),
    }))
    &&& (args.len() >= 3 && args[0] == ("repeat")@ && args[1].len() >= 1 && args[1][0] != '$'
        ==> (match crate::numtext::parse_usize_spec(args[1]) {
        Some(c) => c == 0 ==> r is Ok && spec_interp_same(old_i, new_i),
        None => (r matches Err(e) && e is BadNumber) && spec_interp_same(old_i, new_i),
    }))
    &&& (args.len() > 0 && args[0] == ("repeat")@ && args.len() < 3 ==> r is Err
        && spec_interp_same(old_i, new_i))
    &&& (args.len() > 0 && args[0] == ("if")@ ==> (if args.len() < 4 {
        r is Err && spec_interp_same(old_i, new_i)
    } else {
        !(exists|j: int| 0 <= j < args.len() && args[j] == ("then")@) ==> r is Err
            && spec_interp_same(old_i, new_i)
    }))
    &&& (args.len() > 0 && args[0] == ("while")@ ==> (if args.len() < 4 {
        r is Err && spec_interp_same(old_i, new_i)
    } else {
        !(exists|j: int| 0 <= j < args.len() && args[j] == ("do")@) ==> r is Err
            && spec_interp_same(old_i, new_i)
    }))
    &&& (args.len() > 0 && args[0] == ("for")@ ==> (if args.len() < 5 {
        r is Err && spec_interp_same(old_i, new_i)
    } else {
        args[2] != ("in")@ ==> r is Err && spec_interp_same(old_i, new_i)
    }))
    &&& (args.len() > 0 && (args[0] == ("save_state")@ || args[0] == ("load_state")@ || args[0]
        == ("read_file")@ || args[0] == ("execute_file")@) && args.len() < 2 ==> r is Err
        && spec_interp_same(old_i, new_i))
    &&& (args.len() > 0 && args[0] == ("to_file")@ && args.len() < 3 ==> r is Err
        && spec_interp_same(old_i, new_i))
    &&& (args.len() > 0 && args[0] == ("write_file")@ && args.len() < 4 ==> r is Err
        && spec_interp_same(old_i, new_i))
    &&& (args.len() > 0 && args[0] == ("multi_arg_command")@ ==> vars_model_eq(
        new_i.vars,
        old_i.vars,
    ) && spec_flags_same(old_i, new_i) && (args.len() < 2 ==> r is Err && spec_interp_same(
        old_i,
        new_i,
    )))
    &&& (args.len() >= 2 && args[0] == ("save_state")@ && !spec_is_subst(
        crate::resolve::spec_join_space(args, 1),
    ) ==> vars_model_eq(new_i.vars, old_i.vars) && spec_flags_same(old_i, new_i))
    &&& (args.len() >= 2 && args[0] == ("load_state")@ && !spec_is_subst(
        crate::resolve::spec_join_space(args, 1),
    ) ==> spec_flags_same(old_i, new_i) && (r is Err ==> vars_model_eq(new_i.vars, old_i.vars)))
    &&& (args.len() >= 2 && args[0] == ("read_file")@ && !spec_is_subst(args[1]) ==> vars_model_eq(
        new_i.vars,
        old_i.vars,
    ) && spec_flags_same(old_i, new_i))
    &&& (args.len() >= 4 && args[0] == ("write_file")@ && !spec_is_subst(args[1]) && !spec_is_subst(
        args[2],
    ) && !spec_is_subst(args[3]) ==> vars_model_eq(new_i.vars, old_i.vars) && spec_flags_same(
        old_i,
        new_i,
    ) && new_i.out == old_i.out)
}

/// The command names the dispatcher knows.
pub open spec fn spec_known_command(c: Seq<char>) -> bool {
    ||| c == ("//")@
    ||| c == ("get_random_num")@
    ||| c == ("get_random_char")@
    ||| c == ("quit")@
    ||| c == ("exit")@
    ||| c == ("help")@
    ||| c == ("command_list")@
    ||| c == ("repeat")@
    ||| c == ("set")@
    ||| c == ("rm")@
    ||| c == ("print")@
    ||| c == ("execute_file")@
    ||| c == ("vl")@
    ||| c == ("to_file")@
    ||| c == ("add")@
    ||| c == ("sub")@
    ||| c == ("mul")@
    ||| c == ("div")@
    ||| c == ("num_to_string")@
    ||| c == ("push_to_string_back")@
    ||| c == ("clear")@
    ||| c == ("if")@
    ||| c == ("while")@
    ||| c == ("for")@
    ||| c == ("break")@
    ||| c == ("continue")@
    ||| c == ("save_state")@
    ||| c == ("load_state")@
    ||| c == ("base64_encode")@
    ||| c == ("base64_decode")@
    ||| c == ("remove_string_char")@
    ||| c == ("push")@
    ||| c == ("pop")@
    ||| c == ("len")@
    ||| c == ("keys")@
    ||| c == ("values")@
    ||| c == ("get")@
    ||| c == ("multi_arg_command")@
    ||| c == ("write_file")@
    ||| c == ("read_file")@
}

/// Dispatches one tokenized command.
///
/// `spec_dispatch_post` is the contract, command by command: dispatch rules
/// (empty input, unknown names with capture-mode wording, the loop flags,
/// the exit request), the store commands exactly, and, for the commands that
/// run a substitution or a loop body, their own errors and their
/// substitution-free behaviour.
#[verifier::rlimit(100)]
#[verifier::spinoff_prover]
pub fn execute_command<H: Host>(
    interp: &mut Interp,
    host: &mut H,
    args: &Vec<String>,
    capture_output: bool,
    fuel: u64,
) -> (r: Result<String, InterpError>)
    requires
        old(interp).wf(),
    ensures
        final(interp).wf(),
        spec_dispatch_post(
            *old(interp),
            *final(interp),
            args@.map_values(|t: String| t@),
            capture_output,
            r,
        ),
    decreases fuel, 9int, 0int,
{
    let n = args.len();
    if n == 0 {
        return Ok(String::new());
    }
    let cmd: &str = args[0].as_str();
    proof {
        reveal_strlit("//");
        reveal_strlit("break");
        reveal_strlit("continue");
        reveal_strlit("quit");
        reveal_strlit("exit");
        reveal_strlit("help");
        reveal_strlit("command_list");
        reveal_strlit("clear");
        reveal_strlit("print");
        reveal_strlit("vl");
        reveal_strlit("get_random_num");
        reveal_strlit("get_random_char");
        reveal_strlit("repeat");
        reveal_strlit("set");
        reveal_strlit("rm");
        reveal_strlit("execute_file");
        reveal_strlit("to_file");
        reveal_strlit("add");
        reveal_strlit("sub");
        reveal_strlit("mul");
        reveal_strlit("div");
        reveal_strlit("num_to_string");
        reveal_strlit("push_to_string_back");
        reveal_strlit("if");
        reveal_strlit("while");
        reveal_strlit("for");
        reveal_strlit("save_state");
        reveal_strlit("load_state");
        reveal_strlit("base64_encode");
        reveal_strlit("base64_decode");
        reveal_strlit("remove_string_char");
        reveal_strlit("push");
        reveal_strlit("pop");
        reveal_strlit("len");
        reveal_strlit("keys");
        reveal_strlit("values");
        reveal_strlit("get");
        reveal_strlit("multi_arg_command");
        reveal_strlit("write_file");
        reveal_strlit("read_file");
        assert(("//")@.len() == 2);
        assert(("break")@.len() == 5);
        assert(("continue")@.len() == 8);
        assert(("quit")@.len() == 4);
        assert(("exit")@.len() == 4);
        assert(("help")@.len() == 4);
        assert(("command_list")@.len() == 12);
        assert(("clear")@.len() == 5);
        assert(("print")@.len() == 5);
        assert(("vl")@.len() == 2);
        assert(("get_random_num")@.len() == 14);
        assert(("get_random_char")@.len() == 15);
        assert(("repeat")@.len() == 6);
        assert(("set")@.len() == 3);
        assert(("rm")@.len() == 2);
        assert(("execute_file")@.len() == 12);
        assert(("to_file")@.len() == 7);
        assert(("add")@.len() == 3);
        assert(("sub")@.len() == 3);
        assert(("mul")@.len() == 3);
        assert(("div")@.len() == 3);
        assert(("num_to_string")@.len() == 13);
        assert(("push_to_string_back")@.len() == 19);
        assert(("if")@.len() == 2);
        assert(("while")@.len() == 5);
        assert(("for")@.len() == 3);
        assert(("save_state")@.len() == 10);
        assert(("load_state")@.len() == 10);
        assert(("base64_encode")@.len() == 13);
        assert(("base64_decode")@.len() == 13);
        assert(("remove_string_char")@.len() == 18);
        assert(("push")@.len() == 4);
        assert(("pop")@.len() == 3);
        assert(("len")@.len() == 3);
        assert(("keys")@.len() == 4);
        assert(("values")@.len() == 6);
        assert(("get")@.len() == 3);
        assert(("multi_arg_command")@.len() == 17);
        assert(("write_file")@.len() == 10);
        assert(("read_file")@.len() == 9);
        assert(("//")@[0] == '/');
        assert(("break")@[0] == 'b');
        assert(("continue")@[0] == 'c');
        assert(("quit")@[0] == 'q');
        assert(("exit")@[0] == 'e');
        assert(("help")@[0] == 'h');
        assert(("command_list")@[0] == 'c');
        assert(("clear")@[0] == 'c');
        assert(("print")@[0] == 'p');
        assert(("vl")@[0] == 'v');
        assert(("get_random_num")@[0] == 'g');
        assert(("get_random_char")@[0] == 'g');
        assert(("repeat")@[0] == 'r');
        assert(("set")@[0] == 's');
        assert(("rm")@[0] == 'r');
        assert(("execute_file")@[0] == 'e');
        assert(("to_file")@[0] == 't');
        assert(("add")@[0] == 'a');
        assert(("sub")@[0] == 's');
        assert(("mul")@[0] == 'm');
        assert(("div")@[0] == 'd');
        assert(("num_to_string")@[0] == 'n');
        assert(("push_to_string_back")@[0] == 'p');
        assert(("if")@[0] == 'i');
        assert(("while")@[0] == 'w');
        assert(("for")@[0] == 'f');
        assert(("save_state")@[0] == 's');
        assert(("load_state")@[0] == 'l');
        assert(("base64_encode")@[0] == 'b');
        assert(("base64_decode")@[0] == 'b');
        assert(("remove_string_char")@[0] == 'r');
        assert(("push")@[0] == 'p');
        assert(("pop")@[0] == 'p');
        assert(("len")@[0] == 'l');
        assert(("keys")@[0] == 'k');
        assert(("values")@[0] == 'v');
        assert(("get")@[0] == 'g');
        assert(("multi_arg_command")@[0] == 'm');
        assert(("write_file")@[0] == 'w');
        assert(("read_file")@[0] == 'r');
        assert(("set")@[1] == 'e' && ("sub")@[1] == 'u');
        assert(("base64_encode")@[7] == 'e' && ("base64_decode")@[7] == 'd');
    }
    if crate::text::str_eq(cmd, "//") {
        Ok(String::new())
    } else if crate::text::str_eq(cmd, "break") {
        proof {
            reveal_strlit("break");
            reveal_strlit("continue");
            reveal_strlit("quit");
            reveal_strlit("exit");
            assert(("break")@.len() == 5);
            assert(("continue")@.len() == 8);
            assert(("quit")@.len() == 4);
            assert(("exit")@.len() == 4);
            assert(cmd@ == args@[0]@ && cmd@ == ("break")@);
            reveal_strlit("print");
            reveal_strlit("vl");
            assert(("print")@[0] == 'p' && ("vl")@[0] == 'v');
            assert(("break")@[0] == 'b');
            assert(args@[0]@ != ("continue")@ && args@[0]@ != ("quit")@ && args@[0]@ != ("exit")@
                && args@[0]@ != ("print")@ && args@[0]@ != ("vl")@);
        }
        if capture_output {
            Err(InterpError::IllegalInCaptureMode(crate::value::clone_string(&args[0])))
        } else {
            interp.set_break_flag(true);
            Ok(String::new())
        }
    } else if crate::text::str_eq(cmd, "continue") {
        proof {
            reveal_strlit("break");
            reveal_strlit("continue");
            reveal_strlit("quit");
            reveal_strlit("exit");
            assert(("break")@.len() == 5);
            assert(("continue")@.len() == 8);
            assert(("quit")@.len() == 4);
            assert(("exit")@.len() == 4);
            assert(cmd@ == args@[0]@ && cmd@ == ("continue")@);
            reveal_strlit("print");
            reveal_strlit("vl");
            assert(("print")@[0] == 'p' && ("vl")@[0] == 'v');
            assert(args@[0]@ != ("break")@ && args@[0]@ != ("quit")@ && args@[0]@ != ("exit")@
                && args@[0]@ != ("print")@ && args@[0]@ != ("vl")@);
        }
        if capture_output {
            Err(InterpError::IllegalInCaptureMode(crate::value::clone_string(&args[0])))
        } else {
            interp.set_continue_flag(true);
            Ok(String::new())
        }
    } else if crate::text::str_eq(cmd, "quit") || crate::text::str_eq(cmd, "exit") {
        proof {
            reveal_strlit("break");
            reveal_strlit("continue");
            reveal_strlit("quit");
            reveal_strlit("exit");
            assert(("break")@.len() == 5);
            assert(("continue")@.len() == 8);
            assert(("quit")@.len() == 4);
            assert(("exit")@.len() == 4);
            assert(cmd@ == args@[0]@);
            reveal_strlit("print");
            reveal_strlit("vl");
            assert(("print")@[0] == 'p' && ("vl")@[0] == 'v');
            assert(("quit")@[0] == 'q' && ("exit")@[0] == 'e');
            assert(args@[0]@ != ("break")@ && args@[0]@ != ("continue")@ && args@[0]@
                != ("print")@ && args@[0]@ != ("vl")@);
        }
        if capture_output {
            return Err(InterpError::IllegalInCaptureMode(crate::value::clone_string(&args[0])));
        }
        let code: i32 = if n >= 2 {
            let cs = crate::text::chars_of(args[1].as_str());
            match crate::numtext::parse_i32_chars(&cs) {
                Some(v) => v,
                None => 0,
            }
        } else {
            0
        };
        let mut msg = crate::text::chars_of("Program exit with code ");
        let mut digits = crate::numtext::int_to_chars(code);
        msg.append(&mut digits);
        interp.emit(string_of(msg.as_slice()));
        interp.exit_code = Some(code);
        Ok(String::new())
    } else if crate::text::str_eq(cmd, "print") {
        if n < 2 {
            return Err(InterpError::MalformedCommand("print <name or literal>".to_owned()));
        }
        let raw = crate::resolve::join_space(args, 1);
        if let Some(innertext) = command_inner(raw.as_str()) {
            if fuel == 0 {
                return Err(InterpError::RecursionLimit);
            }
            let cmd_args = tokenize_input(innertext.as_str());
            match execute_command(interp, host, &cmd_args, capture_output, fuel - 1) {
                Ok(result) => {
                    if capture_output {
                        return Ok(result);
                    }
                    interp.emit(result);
                    return Ok(String::new());
                },
                Err(e) => {
                    return Err(e);
                },
            }
        }
        let substituted = crate::resolve::substitute_variables_in_string(&interp.vars, raw.as_str());
        if capture_output {
            Ok(substituted)
        } else {
            interp.emit(substituted);
            Ok(String::new())
        }
    } else if crate::text::str_eq(cmd, "vl") {
        proof {
            reveal_strlit("");
            assert(("")@ =~= Seq::<char>::empty());
        }
        let listing = if n >= 2 {
            interp.vars.vl(args[1].as_str())
        } else {
            interp.vars.vl("")
        };
        if capture_output {
            Ok(listing)
        } else {
            interp.emit(listing);
            Ok(String::new())
        }
    } else if crate::text::str_eq(cmd, "help") {
        if capture_output {
            return Err(InterpError::IllegalInCaptureMode(crate::value::clone_string(&args[0])));
        }
        if n >= 2 {
            host.show_command_help(args[1].as_str());
        } else {
            host.show_all_help();
        }
        Ok(String::new())
    } else if crate::text::str_eq(cmd, "command_list") {
        if capture_output {
            return Err(InterpError::IllegalInCaptureMode(crate::value::clone_string(&args[0])));
        }
        host.show_command_list();
        Ok(String::new())
    } else if crate::text::str_eq(cmd, "clear") {
        if capture_output {
            return Err(InterpError::IllegalInCaptureMode(crate::value::clone_string(&args[0])));
        }
        host.clear_screen();
        Ok(String::new())
    } else if crate::text::str_eq(cmd, "get_random_num") {
        if n != 3 {
            return Err(InterpError::MalformedCommand("get_random_num <min> <max>".to_owned()));
        }
        let a = crate::text::chars_of(args[1].as_str());
        let b = crate::text::chars_of(args[2].as_str());
        if let (Some(min), Some(max)) = (
            crate::numtext::parse_i32_chars(&a),
            crate::numtext::parse_i32_chars(&b),
        ) {
            if min >= max {
                return Err(InterpError::MalformedCommand("min must be less than max".to_owned()));
            }
            let v = crate::rng::get_random_num(min, max);
            let text = string_of(crate::numtext::int_to_chars(v).as_slice());
            if capture_output {
                return Ok(text);
            }
            interp.emit(text);
            return Ok(String::new());
        }
        if let (Some(minb), Some(maxb)) = (
            crate::float::float_parse(a.as_slice()),
            crate::float::float_parse(b.as_slice()),
        ) {
            let lt = match crate::float::float_cmp(minb, maxb) {
                Some(c) => c == -1,
                None => false,
            };
            if !lt {
                return Err(InterpError::MalformedCommand("min must be less than max".to_owned()));
            }
            let v = crate::rng::get_random_float(minb, maxb);
            let text = string_of(crate::float::float_display(v).as_slice());
            if capture_output {
                return Ok(text);
            }
            interp.emit(text);
            return Ok(String::new());
        }
        Err(InterpError::BadNumber(crate::resolve::join_space(args, 1)))
    } else if crate::text::str_eq(cmd, "get_random_char") {
        let mode: i32 = if n >= 2 {
            let cs = crate::text::chars_of(args[1].as_str());
            match crate::numtext::parse_i32_chars(&cs) {
                Some(v) => v,
                None => 0,
            }
        } else {
            0
        };
        match crate::rng::get_random_char(mode) {
            Ok(c) => {
                let mut one: Vec<char> = Vec::new();
                one.push(c);
                let text = string_of(one.as_slice());
                if capture_output {
                    Ok(text)
                } else {
                    interp.emit(text);
                    Ok(String::new())
                }
            },
            Err(e) => Err(e),
        }
    } else if crate::text::str_eq(cmd, "set") {
        if !capture_output {
            set_simple_variable(interp, host, args, fuel)
        } else {
            set_collection_element(interp, host, args, fuel)
        }
    } else if crate::text::str_eq(cmd, "rm") {
        if n < 2 {
            return Err(InterpError::MalformedCommand("rm <name>".to_owned()));
        }
        cmd_rm(&mut interp.vars, args[1].as_str())
    } else if crate::text::str_eq(cmd, "add") || crate::text::str_eq(cmd, "sub")
        || crate::text::str_eq(cmd, "mul") || crate::text::str_eq(cmd, "div") {
        if n < 3 {
            return Err(InterpError::MalformedCommand("add <name> <operand>".to_owned()));
        }
        let raw = crate::resolve::join_space(args, 2);
        let operand: ParsedValue = if let Some(innertext) = command_inner(raw.as_str()) {
            if fuel == 0 {
                return Err(InterpError::RecursionLimit);
            }
            let cmd_args = tokenize_input(innertext.as_str());
            match execute_command(interp, host, &cmd_args, true, fuel - 1) {
                Ok(output) => parse_value(output.as_str()),
                Err(e) => {
                    return Err(e);
                },
            }
        } else if crate::tokenize::is_valid_identifier(raw.as_str()) {
            if let Some(v) = interp.vars.get_int_data(raw.as_str()) {
                ParsedValue::Int(v)
            } else if let Some(b) = interp.vars.get_float_data(raw.as_str()) {
                ParsedValue::Float(b)
            } else if let Some(s) = interp.vars.get_string_data(raw.as_str()) {
                ParsedValue::Str(s)
            } else {
                parse_value(raw.as_str())
            }
        } else {
            parse_value(raw.as_str())
        };
        match crate::arith::perform_arithmetic(
            &mut interp.vars,
            args[0].as_str(),
            args[1].as_str(),
            operand,
        ) {
            Ok(()) => Ok(String::new()),
            Err(e) => Err(e),
        }
    } else if crate::text::str_eq(cmd, "num_to_string") {
        if n < 3 {
            return Err(
                InterpError::MalformedCommand("num_to_string <target_variable> <source>".to_owned()),
            );
        }
        let joined = crate::resolve::join_space(args, 2);
        let jc = crate::text::chars_of(joined.as_str());
        let jt = crate::text::trim_chars(&jc);
        let raw = string_of(jt.as_slice());
        let text: String = if let Some(innertext) = command_inner(raw.as_str()) {
            if fuel == 0 {
                return Err(InterpError::RecursionLimit);
            }
            let cmd_args = tokenize_input(innertext.as_str());
            match execute_command(interp, host, &cmd_args, true, fuel - 1) {
                Ok(result) => result,
                Err(e) => {
                    return Err(e);
                },
            }
        } else {
            match crate::resolve::resolve_to_string(&interp.vars, raw.as_str()) {
                Ok(v) => v,
                Err(e) => {
                    return Err(e);
                },
            }
        };
        interp.vars.add_data_to_string(crate::value::clone_string(&args[1]), text);
        Ok(String::new())
    } else if crate::text::str_eq(cmd, "push_to_string_back") {
        if n < 3 {
            return Err(
                InterpError::MalformedCommand(
                    "push_to_string_back <variable_name> <value>".to_owned(),
                ),
            );
        }
        let raw = crate::resolve::join_space(args, 2);
        let piece: String = if let Some(innertext) = command_inner(raw.as_str()) {
            if fuel == 0 {
                return Err(InterpError::RecursionLimit);
            }
            let cmd_args = tokenize_input(innertext.as_str());
            match execute_command(interp, host, &cmd_args, true, fuel - 1) {
                Ok(output) => output,
                Err(e) => {
                    return Err(e);
                },
            }
        } else if crate::tokenize::is_valid_identifier(raw.as_str()) {
            if let Some(v) = interp.vars.get_int_data(raw.as_str()) {
                string_of(crate::numtext::int_to_chars(v).as_slice())
            } else if let Some(b) = interp.vars.get_float_data(raw.as_str()) {
                string_of(crate::float::float_display(b).as_slice())
            } else if let Some(s) = interp.vars.get_string_data(raw.as_str()) {
                s
            } else {
                raw
            }
        } else {
            raw
        };
        let name = args[1].as_str();
        let newv = match interp.vars.get_string_data(name) {
            Some(cur) => crate::text::string_concat(cur.as_str(), piece.as_str()),
            None => piece,
        };
        interp.vars.add_data_to_string(name.to_owned(), newv);
        Ok(String::new())
    } else if crate::text::str_eq(cmd, "push") {
        if n < 3 {
            return Err(InterpError::MalformedCommand("push <array_name> <value>".to_owned()));
        }
        let value_str = crate::resolve::join_space(args, 2);
        let v = match evaluate_expression(interp, host, value_str.as_str(), fuel) {
            Ok(v) => v,
            Err(e) => {
                return Err(e);
            },
        };
        let name = args[1].as_str();
        let ghost gv = v;
        match interp.vars.get_array_data(name) {
            Some(arr) => {
                let mut arr = arr;
                let ghost a0 = arr@;
                arr.push(v);
                proof {
                    crate::value::lemma_vmodel_seq_snoc(a0, gv);
                    assert(crate::value::vmodel_seq(arr@) =~= crate::value::vmodel_seq(a0).push(
                        vmodel(gv),
                    ));
                }
                interp.vars.add_data_to_array(name.to_owned(), arr);
            },
            None => {
                let mut arr: Vec<ParsedValue> = Vec::new();
                let ghost a0 = arr@;
                arr.push(v);
                proof {
                    crate::value::lemma_vmodel_seq_snoc(a0, gv);
                    assert(crate::value::vmodel_seq(a0) =~= Seq::<ValSpec>::empty());
                    assert(crate::value::vmodel_seq(arr@) =~= seq![vmodel(gv)]);
                    assert(crate::value::vmodel_seq(arr@) =~= Seq::<ValSpec>::empty().push(
                        vmodel(gv),
                    ));
                }
                interp.vars.add_data_to_array(name.to_owned(), arr);
            },
        }
        Ok(String::new())
    } else if crate::text::str_eq(cmd, "pop") {
        if n < 2 {
            return Err(InterpError::MalformedCommand("pop <array_name>".to_owned()));
        }
        match cmd_pop(&mut interp.vars, args[1].as_str()) {
            Ok(v) => {
                let text = crate::value::value_to_string(&v);
                if capture_output {
                    Ok(text)
                } else {
                    interp.emit(text);
                    Ok(String::new())
                }
            },
            Err(e) => Err(e),
        }
    } else if crate::text::str_eq(cmd, "len") {
        if n < 2 {
            return Err(InterpError::MalformedCommand("len <variable_name>".to_owned()));
        }
        let length: usize = match cmd_len(&interp.vars, args[1].as_str()) {
            Ok(l) => l,
            Err(e) => {
                return Err(e);
            },
        };
        let text = string_of(crate::numtext::usize_to_chars(length).as_slice());
        if capture_output {
            Ok(text)
        } else {
            interp.emit(text);
            Ok(String::new())
        }
    } else if crate::text::str_eq(cmd, "keys") || crate::text::str_eq(cmd, "values") {
        if n < 2 {
            return Err(InterpError::MalformedCommand("keys <dict_name>".to_owned()));
        }
        let name = args[1].as_str();
        let want_keys = crate::text::str_eq(cmd, "keys");
        match interp.vars.get_dict_data(name) {
            Some(d) => {
                let ghost m = crate::value::vmodel_pairs(d@);
                proof {
                    crate::value::lemma_vmodel_pairs_len(d@);
                }
                let mut out: Vec<char> = Vec::new();
                out.push('[');
                let dn = d.len();
                let mut i: usize = 0;
                let ghost mut done: Seq<char> = Seq::empty();
                while i < dn
                    invariant
                        0 <= i <= dn,
                        dn == d@.len(),
                        m == crate::value::vmodel_pairs(d@),
                        m.len() == dn,
                        forall|j: int|
                            0 <= j < dn ==> m[j] == ((#[trigger] d@[j]).0@, vmodel(d@[j].1)),
                        out@ == seq!['['] + done,
                        want_keys ==> spec_keys_text(m, 0) == done + spec_keys_text(m, i as int),
                        !want_keys ==> spec_values_text(m, 0) == done + spec_values_text(
                            m,
                            i as int,
                        ),
                    decreases dn - i,
                {
                    let ghost piece: Seq<char> = if want_keys {
                        m[i as int].0
                    } else {
                        crate::value::spec_value_text(m[i as int].1)
                    };
                    if want_keys {
                        let mut k = crate::text::chars_of(d[i].0.as_str());
                        out.append(&mut k);
                    } else {
                        let mut v = crate::value::value_chars(&d[i].1);
                        out.append(&mut v);
                    }
                    if i + 1 < dn {
                        out.push(',');
                        out.push(' ');
                        proof {
                            done = done + piece + seq![',', ' '];
                            assert(out@ =~= seq!['['] + done);
                            if want_keys {
                                assert(spec_keys_text(m, i as int) == piece + seq![',', ' ']
                                    + spec_keys_text(m, i + 1));
                                assert(spec_keys_text(m, 0) =~= done + spec_keys_text(m, i + 1));
                            } else {
                                assert(spec_values_text(m, i as int) == piece + seq![',', ' ']
                                    + spec_values_text(m, i + 1));
                                assert(spec_values_text(m, 0) =~= done + spec_values_text(
                                    m,
                                    i + 1,
                                ));
                            }
                        }
                    } else {
                        proof {
                            done = done + piece;
                            assert(out@ =~= seq!['['] + done);
                            if want_keys {
                                assert(spec_keys_text(m, i as int) == piece);
                                assert(spec_keys_text(m, i + 1) =~= Seq::<char>::empty());
                                assert(spec_keys_text(m, 0) =~= done + spec_keys_text(m, i + 1));
                            } else {
                                assert(spec_values_text(m, i as int) == piece);
                                assert(spec_values_text(m, i + 1) =~= Seq::<char>::empty());
                                assert(spec_values_text(m, 0) =~= done + spec_values_text(
                                    m,
                                    i + 1,
                                ));
                            }
                        }
                    }
                    i = i + 1;
                }
                out.push(']');
                proof {
                    if want_keys {
                        assert(spec_keys_text(m, dn as int) =~= Seq::<char>::empty());
                        assert(spec_keys_text(m, 0) =~= done);
                        assert(out@ =~= seq!['['] + spec_keys_text(m, 0) + seq![']']);
                    } else {
                        assert(spec_values_text(m, dn as int) =~= Seq::<char>::empty());
                        assert(spec_values_text(m, 0) =~= done);
                        assert(out@ =~= seq!['['] + spec_values_text(m, 0) + seq![']']);
                    }
                }
                let text = string_of(out.as_slice());
                if capture_output {
                    Ok(text)
                } else {
                    interp.emit(text);
                    Ok(String::new())
                }
            },
            None => Err(InterpError::UndefinedVariable(name.to_owned())),
        }
    } else if crate::text::str_eq(cmd, "get") {
        if n < 3 {
            return Err(
                InterpError::MalformedCommand("get <collection_name> <key/index>".to_owned()),
            );
        }
        match cmd_get(&interp.vars, args[1].as_str(), args[2].as_str()) {
            Ok(v) => {
                let text = crate::value::value_to_string(&v);
                if capture_output {
                    Ok(text)
                } else {
                    interp.emit(text);
                    Ok(String::new())
                }
            },
            Err(e) => Err(e),
        }
    } else if crate::text::str_eq(cmd, "base64_encode") {
        if n < 2 {
            return Err(
                InterpError::MalformedCommand(
                    "base64_encode <encode string variable name>".to_owned(),
                ),
            );
        }
        match interp.vars.get_string_data(args[1].as_str()) {
            None => Err(InterpError::UndefinedVariable(crate::value::clone_string(&args[1]))),
            Some(input) => {
                let encoded = crate::b64::encode_base64(input.as_str());
                if capture_output {
                    Ok(encoded)
                } else {
                    interp.emit(encoded);
                    Ok(String::new())
                }
            },
        }
    } else if crate::text::str_eq(cmd, "base64_decode") {
        if n < 2 {
            return Err(
                InterpError::MalformedCommand(
                    "base64_decode <decode string variable name>".to_owned(),
                ),
            );
        }
        match interp.vars.get_string_data(args[1].as_str()) {
            None => Err(InterpError::UndefinedVariable(crate::value::clone_string(&args[1]))),
            Some(input) => {
                match crate::b64::decode_base64(input.as_str()) {
                    Ok(decoded) => {
                        if capture_output {
                            Ok(decoded)
                        } else {
                            interp.emit(decoded);
                            Ok(String::new())
                        }
                    },
                    Err(e) => Err(e),
                }
            },
        }
    } else if crate::text::str_eq(cmd, "remove_string_char") {
        if n < 3 {
            return Err(
                InterpError::MalformedCommand(
                    "remove_string_char <variable_name> <index>".to_owned(),
                ),
            );
        }
        let index_arg = args[2].as_str();
        let idx: i32 = if let Some(innertext) = command_inner(index_arg) {
            if fuel == 0 {
                return Err(InterpError::RecursionLimit);
            }
            let cmd_args = tokenize_input(innertext.as_str());
            match execute_command(interp, host, &cmd_args, true, fuel - 1) {
                Ok(output) => {
                    let oc = crate::text::chars_of(output.as_str());
                    let ot = crate::text::trim_chars(&oc);
                    match crate::numtext::parse_i32_chars(&ot) {
                        Some(v) => v,
                        None => {
                            return Err(InterpError::BadNumber(output));
                        },
                    }
                },
                Err(e) => {
                    return Err(e);
                },
            }
        } else {
            let ic = crate::text::chars_of(index_arg);
            if ic.len() >= 1 && ic[0] == '$' {
                let tail = crate::parse::vec_subrange(&ic, 1, ic.len());
                let vname = string_of(tail.as_slice());
                if crate::tokenize::is_valid_identifier(vname.as_str()) {
                    match interp.vars.get_int_data(vname.as_str()) {
                        Some(v) => v,
                        None => {
                            return Err(InterpError::UndefinedVariable(vname));
                        },
                    }
                } else {
                    match crate::numtext::parse_i32_chars(&ic) {
                        Some(v) => v,
                        None => {
                            return Err(InterpError::BadNumber(index_arg.to_owned()));
                        },
                    }
                }
            } else {
                match crate::numtext::parse_i32_chars(&ic) {
                    Some(v) => v,
                    None => {
                        return Err(InterpError::BadNumber(index_arg.to_owned()));
                    },
                }
            }
        };
        if idx < 0 {
            return Err(InterpError::MalformedCommand("Index cannot be negative".to_owned()));
        }
        match interp.vars.remove_string_char(args[1].as_str(), idx as usize) {
            Ok(()) => {
                if capture_output {
                    match interp.vars.get_string_data(args[1].as_str()) {
                        Some(s) => Ok(s),
                        None => Ok(String::new()),
                    }
                } else {
                    Ok(String::new())
                }
            },
            Err(e) => Err(e),
        }
    } else if crate::text::str_eq(cmd, "save_state") {
        if n < 2 {
            return Err(InterpError::MalformedCommand("save_state <filename>".to_owned()));
        }
        let raw = crate::resolve::join_space(args, 1);
        let filename = match resolve_filename(interp, host, raw.as_str(), fuel) {
            Ok(f) => f,
            Err(e) => {
                return Err(e);
            },
        };
        let text = crate::state::render_state(&interp.vars);
        match host.write_file(filename.as_str(), text.as_str(), false) {
            Ok(()) => {
                if !capture_output {
                    let msg = crate::text::string_concat("State saved to ", filename.as_str());
                    interp.emit(msg);
                }
                Ok(String::new())
            },
            Err(m) => Err(InterpError::Io(m)),
        }
    } else if crate::text::str_eq(cmd, "load_state") {
        if n < 2 {
            return Err(InterpError::MalformedCommand("load_state <filename>".to_owned()));
        }
        let raw = crate::resolve::join_space(args, 1);
        let filename = match resolve_filename(interp, host, raw.as_str(), fuel) {
            Ok(f) => f,
            Err(e) => {
                return Err(e);
            },
        };
        let content = match host.read_file(filename.as_str()) {
            Ok(c) => c,
            Err(m) => {
                return Err(InterpError::Io(m));
            },
        };
        match crate::state::parse_state(content.as_str()) {
            Ok(vars) => {
                interp.vars = vars;
                if !capture_output {
                    let msg = crate::text::string_concat("State loaded from ", filename.as_str());
                    interp.emit(msg);
                }
                Ok(String::new())
            },
            Err((_, e)) => Err(e),
        }
    } else if crate::text::str_eq(cmd, "to_file") {
        if n < 3 {
            return Err(
                InterpError::MalformedCommand("to_file <filename> <command...>".to_owned()),
            );
        }
        if fuel == 0 {
            return Err(InterpError::RecursionLimit);
        }
        let raw = crate::resolve::join_space(args, 2);
        let output = if let Some(innertext) = command_inner(raw.as_str()) {
            let cmd_args = tokenize_input(innertext.as_str());
            match execute_command(interp, host, &cmd_args, true, fuel - 1) {
                Ok(o) => o,
                Err(e) => {
                    return Err(e);
                },
            }
        } else {
            let cmd_args = args_range(args, 2, n);
            match execute_command(interp, host, &cmd_args, true, fuel - 1) {
                Ok(o) => o,
                Err(e) => {
                    return Err(e);
                },
            }
        };
        match host.write_file(args[1].as_str(), output.as_str(), true) {
            Ok(()) => Ok(String::new()),
            Err(m) => Err(InterpError::Io(m)),
        }
    } else if crate::text::str_eq(cmd, "write_file") {
        if n < 4 {
            return Err(
                InterpError::MalformedCommand(
                    "write_file <filename> <content> <append>".to_owned(),
                ),
            );
        }
        let filename = match resolve_file_arg(interp, host, args[1].as_str(), fuel) {
            Ok(v) => v,
            Err(e) => {
                return Err(e);
            },
        };
        let content = match resolve_file_arg(interp, host, args[2].as_str(), fuel) {
            Ok(v) => v,
            Err(e) => {
                return Err(e);
            },
        };
        let mode = match resolve_file_arg(interp, host, args[3].as_str(), fuel) {
            Ok(v) => v,
            Err(e) => {
                return Err(e);
            },
        };
        let append = if crate::text::str_eq(mode.as_str(), "a") {
            true
        } else if crate::text::str_eq(mode.as_str(), "w") {
            false
        } else {
            return Err(InterpError::MalformedCommand(mode));
        };
        match host.write_file(filename.as_str(), content.as_str(), append) {
            Ok(()) => Ok(String::new()),
            Err(m) => Err(InterpError::Io(m)),
        }
    } else if crate::text::str_eq(cmd, "read_file") {
        if n < 2 {
            return Err(InterpError::MalformedCommand("read_file <filename>".to_owned()));
        }
        let filename = match resolve_file_arg(interp, host, args[1].as_str(), fuel) {
            Ok(v) => v,
            Err(e) => {
                return Err(e);
            },
        };
        match host.read_file(filename.as_str()) {
            Ok(content) => {
                if capture_output {
                    Ok(content)
                } else {
                    let msg = crate::text::string_concat("Read content: ", content.as_str());
                    interp.emit(msg);
                    Ok(String::new())
                }
            },
            Err(m) => Err(InterpError::Io(m)),
        }
    } else if crate::text::str_eq(cmd, "execute_file") {
        if n < 2 {
            return Err(InterpError::MalformedCommand("execute_file <filename>".to_owned()));
        }
        if fuel == 0 {
            return Err(InterpError::RecursionLimit);
        }
        match host.read_file(args[1].as_str()) {
            Ok(content) => {
                match run_script(interp, host, content.as_str(), fuel - 1) {
                    Ok(()) => {},
                    Err((line, _)) => {
                        let mut msg = crate::text::chars_of("Error in line ");
                        let mut num = crate::numtext::usize_to_chars(line);
                        msg.append(&mut num);
                        interp.emit(string_of(msg.as_slice()));
                    },
                }
                Ok(String::new())
            },
            Err(m) => Err(InterpError::Io(m)),
        }
    } else if crate::text::str_eq(cmd, "multi_arg_command") {
        if n < 2 {
            return Err(
                InterpError::MalformedCommand("multi_arg_command <arg1> <arg2> ...".to_owned()),
            );
        }
        let joined = crate::resolve::join_space(args, 1);
        let cs = crate::text::chars_of(joined.as_str());
        let mut i: usize = 0;
        while i < cs.len()
            invariant
                0 <= i <= cs@.len(),
                interp.wf(),
                vars_model_eq(interp.vars, old(interp).vars),
                spec_flags_same(*old(interp), *interp),
            decreases cs@.len() - i,
        {
            let mut line: Vec<char> = Vec::new();
            let mut head = crate::text::chars_of("Arg ");
            line.append(&mut head);
            let mut num = crate::numtext::usize_to_chars(i + 1);
            line.append(&mut num);
            line.push(':');
            line.push(' ');
            line.push(cs[i]);
            interp.emit(string_of(line.as_slice()));
            i = i + 1;
        }
        Ok(String::new())
    } else if crate::text::str_eq(cmd, "repeat") {
        cmd_repeat(interp, host, args, capture_output, fuel)
    } else if crate::text::str_eq(cmd, "if") {
        let res = cmd_if(interp, host, args, capture_output, fuel);
        proof {
            let m = args@.map_values(|t: String| t@);
            if exists|j: int| 0 <= j < args@.len() && (#[trigger] args@[j])@ == ("then")@ {
                let j = choose|j: int| 0 <= j < args@.len() && (#[trigger] args@[j])@ == ("then")@;
                assert(m[j] == ("then")@);
            }
        }
        res
    } else if crate::text::str_eq(cmd, "while") {
        let res = cmd_while(interp, host, args, capture_output, fuel);
        proof {
            let m = args@.map_values(|t: String| t@);
            if exists|j: int| 0 <= j < args@.len() && (#[trigger] args@[j])@ == ("do")@ {
                let j = choose|j: int| 0 <= j < args@.len() && (#[trigger] args@[j])@ == ("do")@;
                assert(m[j] == ("do")@);
            }
        }
        res
    } else if crate::text::str_eq(cmd, "for") {
        cmd_for(interp, host, args, capture_output, fuel)
    } else {
        if capture_output {
            Err(InterpError::IllegalInCaptureMode(crate::value::clone_string(&args[0])))
        } else {
            Err(InterpError::UnknownCommand(crate::value::clone_string(&args[0])))
        }
    }
}


/// `repeat <count> <command...>`: resolves the count (a literal, `$name` int
/// variable, or `$(...)` substitution), then runs the command that many times
/// in capture mode, gathering non-empty outputs.
fn cmd_repeat<H: Host>(
    interp: &mut Interp,
    host: &mut H,
    args: &Vec<String>,
    capture_output: bool,
    fuel: u64,
) -> (r: Result<String, InterpError>)
    requires
        old(interp).wf(),
    ensures
        final(interp).wf(),
        args@.len() < 3 ==> r is Err && spec_interp_same(*old(interp), *final(interp)),
        args@.len() >= 3 && args@[1]@.len() >= 1 && args@[1]@[0] != '$' ==> (match
        crate::numtext::parse_usize_spec(args@[1]@) {
            Some(c) => c == 0 ==> r is Ok && spec_interp_same(*old(interp), *final(interp)),
            None => (r matches Err(e) && e is BadNumber) && spec_interp_same(
                *old(interp),
                *final(interp),
            ),
        }),
    decreases fuel, 8int, 0int,
{
    let n = args.len();
    if n < 3 {
        return Err(InterpError::MalformedCommand("repeat <count> <command...>".to_owned()));
    }
    let count_raw = args[1].as_str();
    let count: usize = if let Some(innertext) = command_inner(count_raw) {
        if fuel == 0 {
            return Err(InterpError::RecursionLimit);
        }
        let cmd_args = tokenize_input(innertext.as_str());
        match execute_command(interp, host, &cmd_args, true, fuel - 1) {
            Ok(output) => {
                let oc = crate::text::chars_of(output.as_str());
                let ot = crate::text::trim_chars(&oc);
                match crate::numtext::parse_usize_chars(&ot) {
                    Some(v) => v,
                    None => {
                        return Err(InterpError::BadNumber(output));
                    },
                }
            },
            Err(e) => {
                return Err(e);
            },
        }
    } else {
        let cc = crate::text::chars_of(count_raw);
        if cc.len() >= 1 && cc[0] == '$' {
            let tail = crate::parse::vec_subrange(&cc, 1, cc.len());
            let vname = string_of(tail.as_slice());
            if crate::tokenize::is_valid_identifier(vname.as_str()) {
                match interp.vars.get_int_data(vname.as_str()) {
                    Some(v) => {
                        if v < 0 {
                            return Err(
                                InterpError::MalformedCommand("Count cannot be negative".to_owned()),
                            );
                        }
                        v as usize
                    },
                    None => {
                        return Err(InterpError::UndefinedVariable(vname));
                    },
                }
            } else {
                match crate::numtext::parse_usize_chars(&cc) {
                    Some(v) => v,
                    None => {
                        return Err(InterpError::BadNumber(count_raw.to_owned()));
                    },
                }
            }
        } else {
            match crate::numtext::parse_usize_chars(&cc) {
                Some(v) => v,
                None => {
                    return Err(InterpError::BadNumber(count_raw.to_owned()));
                },
            }
        }
    };
    let raw_command = crate::resolve::join_space(args, 2);
    let cmd_args: Vec<String> = if let Some(innertext) = command_inner(raw_command.as_str()) {
        tokenize_input(innertext.as_str())
    } else {
        tokenize_input(raw_command.as_str())
    };
    if count > 0 && fuel == 0 {
        return Err(InterpError::RecursionLimit);
    }
    let mut results: Vec<char> = Vec::new();
    let mut first = true;
    let mut k: usize = 0;
    while k < count
        invariant
            0 <= k <= count,
            interp.wf(),
            count > 0 ==> fuel >= 1,
            args@.len() >= 3,
            args@[1]@.len() >= 1 && args@[1]@[0] != '$' ==> crate::numtext::parse_usize_spec(
                args@[1]@,
            ) == Some(count),
            args@[1]@.len() >= 1 && args@[1]@[0] != '$' && count == 0 ==> spec_interp_same(
                *old(interp),
                *interp,
            ),
        decreases count - k,
    {
        if interp.exit_code.is_some() {
            break ;
        }
        match execute_command(interp, host, &cmd_args, true, fuel - 1) {
            Ok(res) => {
                if res.as_str().len() > 0 {
                    if capture_output {
                        if !first {
                            results.push('\n');
                        }
                        let mut rc = crate::text::chars_of(res.as_str());
                        results.append(&mut rc);
                        first = false;
                    } else {
                        interp.emit(res);
                    }
                }
            },
            Err(e) => {
                return Err(e);
            },
        }
        k = k + 1;
    }
    if capture_output {
        Ok(string_of(results.as_slice()))
    } else {
        Ok(String::new())
    }
}

/// Runs the sub-commands of a block or a single command, stopping on an
/// error, a raised loop flag, or a requested exit.
fn run_body<H: Host>(
    interp: &mut Interp,
    host: &mut H,
    commands: &Vec<String>,
    capture_output: bool,
    fuel: u64,
) -> (r: Result<(), InterpError>)
    requires
        old(interp).wf(),
    ensures
        final(interp).wf(),
    decreases fuel, 7int, 0int,
{
    if fuel == 0 {
        return Err(InterpError::RecursionLimit);
    }
    let mut i: usize = 0;
    while i < commands.len()
        invariant
            0 <= i <= commands@.len(),
            interp.wf(),
            fuel >= 1,
        decreases commands@.len() - i,
    {
        if interp.should_break() || interp.should_continue() || interp.exit_code.is_some() {
            return Ok(());
        }
        let cmd_args = tokenize_input(commands[i].as_str());
        match execute_command(interp, host, &cmd_args, capture_output, fuel - 1) {
            Ok(_) => {},
            Err(e) => {
                return Err(e);
            },
        }
        i = i + 1;
    }
    Ok(())
}

/// The body commands of a control construct: a `{ ... }` block splits on
/// top-level semicolons, anything else is one command.
fn body_commands(parts: &Vec<String>) -> (r: Vec<String>)
{
    let n = parts.len();
    if n >= 1 && crate::text::str_eq(parts[0].as_str(), "{") {
        let inner = if n >= 2 {
            let joined = crate::resolve::join_space_range(parts, 1, n - 1);
            joined
        } else {
            String::new()
        };
        let jc = crate::text::chars_of(inner.as_str());
        let jt = crate::text::trim_chars(&jc);
        crate::tokenize::parse_block_commands(string_of(jt.as_slice()).as_str())
    } else {
        let mut one: Vec<String> = Vec::new();
        one.push(crate::resolve::join_space(parts, 0));
        one
    }
}

/// `if cond then A [else B]`, with `{ ... }` block bodies.
fn cmd_if<H: Host>(
    interp: &mut Interp,
    host: &mut H,
    args: &Vec<String>,
    capture_output: bool,
    fuel: u64,
) -> (r: Result<String, InterpError>)
    requires
        old(interp).wf(),
    ensures
        final(interp).wf(),
        args@.len() < 4 ==> r is Err && spec_interp_same(*old(interp), *final(interp)),
        args@.len() >= 4 && !(exists|j: int|
            0 <= j < args@.len() && (#[trigger] args@[j])@ == ("then")@) ==> r is Err
            && spec_interp_same(*old(interp), *final(interp)),
    decreases fuel, 8int, 0int,
{
    let n = args.len();
    if n < 4 {
        return Err(
            InterpError::MalformedCommand(
                "if <condition> then <command> [else <command>]".to_owned(),
            ),
        );
    }
    if fuel == 0 {
        return Err(InterpError::RecursionLimit);
    }
    // locate `then` and the optional `else`
    let mut then_index: usize = 0;
    let mut found_then = false;
    let mut i: usize = 0;
    while i < n
        invariant
            0 <= i <= n,
            n == args@.len(),
            then_index < n || !found_then,
            found_then == exists|j: int| 0 <= j < i && (#[trigger] args@[j])@ == ("then")@,
        decreases n - i,
    {
        proof {
            assert(args@.map_values(|t: String| t@)[i as int] == args@[i as int]@);
        }
        if !found_then && crate::text::str_eq(args[i].as_str(), "then") {
            then_index = i;
            found_then = true;
        }
        i = i + 1;
    }
    if !found_then || then_index < 1 {
        return Err(InterpError::MalformedCommand("Expected 'then' after condition".to_owned()));
    }
    let mut else_index: usize = 0;
    let mut found_else = false;
    let mut j: usize = 0;
    while j < n
        invariant
            0 <= j <= n,
            n == args@.len(),
            else_index < n || !found_else,
        decreases n - j,
    {
        if !found_else && crate::text::str_eq(args[j].as_str(), "else") {
            else_index = j;
            found_else = true;
        }
        j = j + 1;
    }
    let condition = crate::resolve::join_space_range(args, 1, then_index);
    let cond = match crate::resolve::evaluate_condition(&interp.vars, condition.as_str()) {
        Ok(b) => b,
        Err(e) => {
            return Err(e);
        },
    };
    if cond {
        let to = if found_else && else_index > then_index {
            else_index
        } else {
            n
        };
        if then_index + 1 < to {
            let part = args_range(args, then_index + 1, to);
            let commands = body_commands(&part);
            match run_body(interp, host, &commands, capture_output, fuel) {
                Ok(()) => {},
                Err(e) => {
                    return Err(e);
                },
            }
        }
    } else {
        if found_else && else_index + 1 < n {
            let part = args_range(args, else_index + 1, n);
            let commands = body_commands(&part);
            match run_body(interp, host, &commands, capture_output, fuel) {
                Ok(()) => {},
                Err(e) => {
                    return Err(e);
                },
            }
        }
    }
    Ok(String::new())
}

/// `while cond do BODY`: re-evaluates the condition before each pass, obeys
/// the loop flags, and spends one unit of budget per pass.
fn cmd_while<H: Host>(
    interp: &mut Interp,
    host: &mut H,
    args: &Vec<String>,
    capture_output: bool,
    fuel: u64,
) -> (r: Result<String, InterpError>)
    requires
        old(interp).wf(),
    ensures
        final(interp).wf(),
        args@.len() < 4 ==> r is Err && spec_interp_same(*old(interp), *final(interp)),
        args@.len() >= 4 && !(exists|j: int|
            0 <= j < args@.len() && (#[trigger] args@[j])@ == ("do")@) ==> r is Err
            && spec_interp_same(*old(interp), *final(interp)),
    decreases fuel, 8int, 0int,
{
    let n = args.len();
    if n < 4 {
        return Err(InterpError::MalformedCommand("while <condition> do <command>".to_owned()));
    }
    if fuel == 0 {
        return Err(InterpError::RecursionLimit);
    }
    let mut do_index: usize = 0;
    let mut found_do = false;
    let mut i: usize = 0;
    while i < n
        invariant
            0 <= i <= n,
            n == args@.len(),
            do_index < n || !found_do,
            found_do == exists|j: int| 0 <= j < i && (#[trigger] args@[j])@ == ("do")@,
        decreases n - i,
    {
        proof {
            assert(args@.map_values(|t: String| t@)[i as int] == args@[i as int]@);
        }
        if !found_do && crate::text::str_eq(args[i].as_str(), "do") {
            do_index = i;
            found_do = true;
        }
        i = i + 1;
    }
    if !found_do || do_index < 1 {
        return Err(InterpError::MalformedCommand("Expected 'do' after condition".to_owned()));
    }
    if do_index + 1 >= n {
        return Err(InterpError::MalformedCommand("No command specified after 'do'".to_owned()));
    }
    let condition = crate::resolve::join_space_range(args, 1, do_index);
    let part = args_range(args, do_index + 1, n);
    let commands = body_commands(&part);
    let mut budget: u64 = fuel;
    loop
        invariant
            interp.wf(),
            fuel >= 1,
            args@.len() >= 4,
            exists|j: int| 0 <= j < args@.len() && (#[trigger] args@[j])@ == ("do")@,
        decreases budget,
    {
        if interp.should_break() {
            interp.reset_loop_flags();
            break ;
        }
        if interp.exit_code.is_some() {
            break ;
        }
        let cond = match crate::resolve::evaluate_condition(&interp.vars, condition.as_str()) {
            Ok(b) => b,
            Err(e) => {
                return Err(e);
            },
        };
        if !cond {
            break ;
        }
        if budget == 0 {
            return Err(InterpError::RecursionLimit);
        }
        budget = budget - 1;
        interp.set_continue_flag(false);
        match run_body(interp, host, &commands, capture_output, fuel) {
            Ok(()) => {},
            Err(e) => {
                return Err(e);
            },
        }
        if interp.should_break() {
            interp.reset_loop_flags();
            break ;
        }
        if interp.should_continue() {
            interp.set_continue_flag(false);
        }
    }
    Ok(String::new())
}

/// `for var in start..end do BODY`: a half-open integer range; the loop
/// variable is a plain int variable and keeps its last value.
fn cmd_for<H: Host>(
    interp: &mut Interp,
    host: &mut H,
    args: &Vec<String>,
    capture_output: bool,
    fuel: u64,
) -> (r: Result<String, InterpError>)
    requires
        old(interp).wf(),
    ensures
        final(interp).wf(),
        args@.len() < 5 ==> r is Err && spec_interp_same(*old(interp), *final(interp)),
        args@.len() >= 5 && args@[2]@ != ("in")@ ==> r is Err && spec_interp_same(
            *old(interp),
            *final(interp),
        ),
    decreases fuel, 8int, 0int,
{
    let n = args.len();
    if n < 5 {
        return Err(
            InterpError::MalformedCommand(
                "for <variable> in <start>..<end> do <command>".to_owned(),
            ),
        );
    }
    if fuel == 0 {
        return Err(InterpError::RecursionLimit);
    }
    if !crate::text::str_eq(args[2].as_str(), "in") {
        return Err(InterpError::MalformedCommand("Expected 'in' after variable name".to_owned()));
    }
    // split the range at ".."
    let range = crate::text::chars_of(args[3].as_str());
    let mut dot: usize = 0;
    let mut found_dots = false;
    let mut i: usize = 0;
    while i < range.len() && i + 1 < range.len()
        invariant
            0 <= i <= range@.len(),
            dot + 1 < range@.len() || !found_dots,
        decreases range@.len() - i,
    {
        if !found_dots && range[i] == '.' && range[i + 1] == '.' {
            dot = i;
            found_dots = true;
        }
        i = i + 1;
    }
    if !found_dots {
        return Err(InterpError::MalformedCommand("Expected range in format start..end".to_owned()));
    }
    let start_part = crate::parse::vec_subrange(&range, 0, dot);
    let end_part = crate::parse::vec_subrange(&range, dot + 2, range.len());
    let start = match crate::numtext::parse_i32_chars(&start_part) {
        Some(v) => v,
        None => {
            return Err(InterpError::BadNumber(string_of(start_part.as_slice())));
        },
    };
    let end = match crate::numtext::parse_i32_chars(&end_part) {
        Some(v) => v,
        None => {
            return Err(InterpError::BadNumber(string_of(end_part.as_slice())));
        },
    };
    // find the body: after `do`, else from `{`, else everything after the range
    let mut body_from: usize = 4;
    let mut found_do = false;
    let mut j: usize = 0;
    while j < n
        invariant
            0 <= j <= n,
            n == args@.len(),
            body_from < n || !found_do,
        decreases n - j,
    {
        if !found_do && crate::text::str_eq(args[j].as_str(), "do") && j + 1 < n {
            body_from = j + 1;
            found_do = true;
        }
        j = j + 1;
    }
    if !found_do {
        let mut k: usize = 0;
        while k < n
            invariant
                0 <= k <= n,
                n == args@.len(),
                body_from < n || !found_do,
            decreases n - k,
        {
            if !found_do && crate::text::str_eq(args[k].as_str(), "{") {
                body_from = k;
                found_do = true;
            }
            k = k + 1;
        }
    }
    if body_from >= n {
        return Err(InterpError::MalformedCommand("No command specified after 'do'".to_owned()));
    }
    let part = args_range(args, body_from, n);
    let commands = body_commands(&part);
    let var_name = args[1].as_str();
    let mut iv: i32 = start;
    while iv < end
        invariant
            interp.wf(),
            fuel >= 1,
            start <= iv,
            iv <= end || iv == start,
            args@.len() >= 5,
            args@[2]@ == ("in")@,
        decreases end - iv,
    {
        if interp.exit_code.is_some() {
            break ;
        }
        interp.vars.add_data_to_int(var_name.to_owned(), iv);
        match run_body(interp, host, &commands, capture_output, fuel) {
            Ok(()) => {},
            Err(e) => {
                return Err(e);
            },
        }
        if interp.should_break() {
            interp.reset_loop_flags();
            return Ok(String::new());
        }
        if interp.should_continue() {
            interp.set_continue_flag(false);
        }
        iv = iv + 1;
    }
    Ok(String::new())
}

/// Runs a whole script: single lines dispatch at once, and a line holding `{`
/// opens a block that accumulates, one source line per `;`, until the brace
/// depth returns to zero. An error stops the run with its 1-based line.
pub fn run_script<H: Host>(
    interp: &mut Interp,
    host: &mut H,
    text: &str,
    fuel: u64,
) -> (r: Result<(), (usize, InterpError)>)
    requires
        old(interp).wf(),
    ensures
        final(interp).wf(),
        fuel >= 1 && text@.len() == 0 ==> r is Ok && spec_interp_same(*old(interp), *final(interp)),
        fuel >= 1 ==> (r matches Err(p) ==> 1 <= p.0 <= crate::state::spec_lines(
            text@,
            0,
            0,
        ).len()),
    decreases fuel, 8int, 0int,
{
    if fuel == 0 {
        return Err((0, InterpError::RecursionLimit));
    }
    let lines = crate::state::split_lines(text);
    proof {
        assert(lines@.map_values(|t: String| t@).len() == lines@.len());
        if text@.len() == 0 {
            assert(crate::state::spec_lines(text@, 0, 0) =~= Seq::<Seq<char>>::empty());
        }
    }
    let mut buffer: Vec<char> = Vec::new();
    let mut depth: i128 = 0;
    let mut ln: usize = 0;
    while ln < lines.len()
        invariant
            0 <= ln <= lines@.len(),
            interp.wf(),
            fuel >= 1,
            0 <= depth <= 0x3b9a_ca00,
            lines@.map_values(|t: String| t@) == crate::state::spec_lines(text@, 0, 0),
            lines@.len() == crate::state::spec_lines(text@, 0, 0).len(),
            text@.len() == 0 ==> lines@.len() == 0,
            text@.len() == 0 ==> spec_interp_same(*old(interp), *interp),
            buffer@.len() > 0 ==> ln >= 1,
        decreases lines@.len() - ln,
    {
        if interp.exit_code.is_some() {
            return Ok(());
        }
        let lc = crate::text::chars_of(lines[ln].as_str());
        let trimmed = crate::text::trim_chars(&lc);
        let opens = count_char(&trimmed, '{');
        let closes = count_char(&trimmed, '}');
        if buffer.len() > 0 {
            // inside a block: append this line, separated by ` ; `
            if buffer.len() > 0 && buffer[buffer.len() - 1] == '{' {
                buffer.push(' ');
            } else {
                buffer.push(' ');
                buffer.push(';');
                buffer.push(' ');
            }
            let mut tc = crate::parse::vec_subrange(&trimmed, 0, trimmed.len());
            buffer.append(&mut tc);
            depth = depth + opens as i128 - closes as i128;
            if depth <= 0 {
                let whole = crate::text::trim_chars(&buffer);
                let cmd_args = tokenize_input(string_of(whole.as_slice()).as_str());
                match execute_command(interp, host, &cmd_args, false, fuel - 1) {
                    Ok(_) => {},
                    Err(e) => {
                        return Err((ln + 1, e));
                    },
                }
                buffer = Vec::new();
                depth = 0;
            } else if depth > 0x3b9a_ca00 {
                return Err((ln + 1, InterpError::RecursionLimit));
            }
        } else if opens > 0 {
            let mut tc = crate::parse::vec_subrange(&trimmed, 0, trimmed.len());
            buffer.append(&mut tc);
            depth = depth + opens as i128 - closes as i128;
            if depth <= 0 {
                let whole = crate::text::trim_chars(&buffer);
                let cmd_args = tokenize_input(string_of(whole.as_slice()).as_str());
                match execute_command(interp, host, &cmd_args, false, fuel - 1) {
                    Ok(_) => {},
                    Err(e) => {
                        return Err((ln + 1, e));
                    },
                }
                buffer = Vec::new();
                depth = 0;
            } else if depth > 0x3b9a_ca00 {
                return Err((ln + 1, InterpError::RecursionLimit));
            }
        } else if trimmed.len() > 0 {
            let cmd_args = tokenize_input(string_of(trimmed.as_slice()).as_str());
            match execute_command(interp, host, &cmd_args, false, fuel - 1) {
                Ok(_) => {},
                Err(e) => {
                    return Err((ln + 1, e));
                },
            }
        }
        ln = ln + 1;
    }
    if buffer.len() > 0 {
        let whole = crate::text::trim_chars(&buffer);
        if whole.len() > 0 {
            let cmd_args = tokenize_input(string_of(whole.as_slice()).as_str());
            match execute_command(interp, host, &cmd_args, false, fuel - 1) {
                Ok(_) => {},
                Err(e) => {
                    return Err((lines.len(), e));
                },
            }
        }
    }
    Ok(())
}

/// How many times a character occurs.
fn count_char(s: &Vec<char>, c: char) -> (r: usize)
    ensures
        r <= s@.len(),
{
    let mut count: usize = 0;
    let mut i: usize = 0;
    while i < s.len()
        invariant
            0 <= i <= s@.len(),
            count <= i,
        decreases s@.len() - i,
    {
        if s[i] == c {
            count = count + 1;
        }
        i = i + 1;
    }
    count
}

} // verus!
