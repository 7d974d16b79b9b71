//! Line tokenization and block splitting.
//!
//! `tokenize_input` turns one raw line into argv-style tokens: runs of
//! whitespace separate tokens, a quote opens a span copied verbatim (no
//! escape processing) until its matching quote, the quotes themselves are
//! dropped, and a quote start or end forces a token boundary even without
//! surrounding whitespace.
//!
//! `parse_block_commands` splits a `{ ... }` block body into sub-commands at
//! top-level semicolons, keeping semicolons inside nested braces and quotes.

use vstd::prelude::*;

use crate::text::{
    char_alphabetic, chars_of, is_alphabetic, is_ident_char, is_space, spec_is_ident_char,
    spec_is_space, spec_trim, string_of, trim_chars,
};

verus! {

/// The tokens of s from index i on, with `cur` the token in progress.
pub open spec fn spec_tokenize(s: Seq<char>, i: int, cur: Seq<char>, inq: bool, qc: char) -> Seq<
    Seq<char>,
>
    decreases s.len() - i,
{
    if i >= s.len() {
        if cur.len() > 0 {
            seq![cur]
        } else {
            Seq::empty()
        }
    } else {
        let c = s[i];
        if inq {
            if c == qc {
                seq![cur] + spec_tokenize(s, i + 1, Seq::empty(), false, qc)
            } else {
                spec_tokenize(s, i + 1, cur.push(c), true, qc)
            }
        } else if c == '"' || c == '\'' {
            if cur.len() > 0 {
                seq![cur] + spec_tokenize(s, i + 1, Seq::empty(), true, c)
            } else {
                spec_tokenize(s, i + 1, cur, true, c)
            }
        } else if spec_is_space(c) {
            if cur.len() > 0 {
                seq![cur] + spec_tokenize(s, i + 1, Seq::empty(), false, qc)
            } else {
                spec_tokenize(s, i + 1, cur, false, qc)
            }
        } else {
            spec_tokenize(s, i + 1, cur.push(c), false, qc)
        }
    }
}

/// The argv-style tokens of one line.
pub open spec fn spec_tokenize_input(s: Seq<char>) -> Seq<Seq<char>> {
    spec_tokenize(s, 0, Seq::empty(), false, '\u{0}')
}

/// Splits a raw line into argument tokens, honouring quoting.
pub fn tokenize_input(input: &str) -> (r: Vec<String>)
    ensures
        r@.map_values(|t: String| t@) == spec_tokenize_input(input@),
{
    let s = chars_of(input);
    let ghost whole = spec_tokenize_input(input@);
    let mut r: Vec<String> = Vec::new();
    let ghost mut done: Seq<Seq<char>> = Seq::empty();
    let mut cur: Vec<char> = Vec::new();
    let mut inq: bool = false;
    let mut qc: char = '\u{0}';
    let mut i: usize = 0;
    while i < s.len()
        invariant
            0 <= i <= s@.len(),
            s@ == input@,
            whole == done + spec_tokenize(s@, i as int, cur@, inq, qc),
            r@.map_values(|t: String| t@) == done,
            r@.len() == done.len(),
        decreases s@.len() - i,
    {
        let c = s[i];
        if inq {
            if c == qc {
                inq = false;
                let ghost done0 = done;
                let ghost r0 = r@;
                let tok = string_of(cur.as_slice());
                r.push(tok);
                cur = Vec::new();
                proof {
                    done = done0.push(tok@);
                    assert forall|k: int| 0 <= k < r@.len() implies (#[trigger] r@[k])@
                        == done[k] by {
                        if k < r0.len() {
                            assert(r@[k] == r0[k]);
                            assert(r0.map_values(|t: String| t@)[k] == done0[k]);
                        }
                    }
                    assert(r@.map_values(|t: String| t@) =~= done);
                }
            } else {
                cur.push(c);
            }
        } else if c == '"' || c == '\'' {
            inq = true;
            qc = c;
            if cur.len() > 0 {
                let ghost done0 = done;
                let ghost r0 = r@;
                let tok = string_of(cur.as_slice());
                r.push(tok);
                cur = Vec::new();
                proof {
                    done = done0.push(tok@);
                    assert forall|k: int| 0 <= k < r@.len() implies (#[trigger] r@[k])@
                        == done[k] by {
                        if k < r0.len() {
                            assert(r@[k] == r0[k]);
                            assert(r0.map_values(|t: String| t@)[k] == done0[k]);
                        }
                    }
                    assert(r@.map_values(|t: String| t@) =~= done);
                }
            }
        } else if is_space(c) {
            if cur.len() > 0 {
                let ghost done0 = done;
                let ghost r0 = r@;
                let tok = string_of(cur.as_slice());
                r.push(tok);
                cur = Vec::new();
                proof {
                    done = done0.push(tok@);
                    assert forall|k: int| 0 <= k < r@.len() implies (#[trigger] r@[k])@
                        == done[k] by {
                        if k < r0.len() {
                            assert(r@[k] == r0[k]);
                            assert(r0.map_values(|t: String| t@)[k] == done0[k]);
                        }
                    }
                    assert(r@.map_values(|t: String| t@) =~= done);
                }
            }
        } else {
            cur.push(c);
        }
        i = i + 1;
    }
    if cur.len() > 0 {
        let ghost done0 = done;
        let ghost r0 = r@;
        let tok = string_of(cur.as_slice());
        r.push(tok);
        proof {
            done = done0.push(tok@);
            assert forall|k: int| 0 <= k < r@.len() implies (#[trigger] r@[k])@ == done[k] by {
                if k < r0.len() {
                    assert(r@[k] == r0[k]);
                    assert(r0.map_values(|t: String| t@)[k] == done0[k]);
                }
            }
            assert(r@.map_values(|t: String| t@) =~= done);
            assert(spec_tokenize(s@, s@.len() as int, cur@, inq, qc) =~= seq![cur@]);
            assert(whole =~= done);
        }
    } else {
        proof {
            assert(spec_tokenize(s@, s@.len() as int, cur@, inq, qc) =~= Seq::<Seq<char>>::empty());
            assert(whole =~= done);
        }
    }
    r
}

/// The sub-commands of a block body from index i on: split at semicolons at
/// brace depth zero outside quotes, each command trimmed, empties dropped.
pub open spec fn spec_block_commands(
    s: Seq<char>,
    i: int,
    cur: Seq<char>,
    depth: int,
    inq: bool,
    qc: char,
) -> Seq<Seq<char>>
    decreases s.len() - i,
{
    if i >= s.len() {
        if spec_trim(cur).len() > 0 {
            seq![spec_trim(cur)]
        } else {
            Seq::empty()
        }
    } else {
        let c = s[i];
        if inq {
            if c == qc {
                spec_block_commands(s, i + 1, cur.push(c), depth, false, qc)
            } else {
                spec_block_commands(s, i + 1, cur.push(c), depth, true, qc)
            }
        } else if c == '"' || c == '\'' {
            spec_block_commands(s, i + 1, cur.push(c), depth, true, c)
        } else if c == '{' {
            spec_block_commands(s, i + 1, cur.push(c), depth + 1, false, qc)
        } else if c == '}' {
            spec_block_commands(s, i + 1, cur.push(c), depth - 1, false, qc)
        } else if c == ';' && depth == 0 {
            if spec_trim(cur).len() > 0 {
                seq![spec_trim(cur)] + spec_block_commands(s, i + 1, Seq::empty(), depth, false, qc)
            } else {
                spec_block_commands(s, i + 1, Seq::empty(), depth, false, qc)
            }
        } else {
            spec_block_commands(s, i + 1, cur.push(c), depth, false, qc)
        }
    }
}

pub open spec fn spec_parse_block_commands(s: Seq<char>) -> Seq<Seq<char>> {
    spec_block_commands(s, 0, Seq::empty(), 0, false, '\u{0}')
}

/// Splits a block body into its sub-commands at top-level semicolons.
pub fn parse_block_commands(input: &str) -> (r: Vec<String>)
    ensures
        r@.map_values(|t: String| t@) == spec_parse_block_commands(input@),
{
    let s = chars_of(input);
    let ghost whole = spec_parse_block_commands(input@);
    let mut r: Vec<String> = Vec::new();
    let ghost mut done: Seq<Seq<char>> = Seq::empty();
    let mut cur: Vec<char> = Vec::new();
    let mut depth: i128 = 0;
    let mut inq: bool = false;
    let mut qc: char = '\u{0}';
    let mut i: usize = 0;
    while i < s.len()
        invariant
            0 <= i <= s@.len(),
            s@ == input@,
            -(i as int) <= depth <= i as int,
            whole == done + spec_block_commands(s@, i as int, cur@, depth as int, inq, qc),
            r@.map_values(|t: String| t@) == done,
            r@.len() == done.len(),
        decreases s@.len() - i,
    {
        let c = s[i];
        if inq {
            if c == qc {
                inq = false;
            }
            cur.push(c);
        } else if c == '"' || c == '\'' {
            inq = true;
            qc = c;
            cur.push(c);
        } else if c == '{' {
            depth = depth + 1;
            cur.push(c);
        } else if c == '}' {
            depth = depth - 1;
            cur.push(c);
        } else if c == ';' && depth == 0 {
            let piece = trim_chars(&cur);
            if piece.len() > 0 {
                let ghost done0 = done;
                let ghost r0 = r@;
                let tok = string_of(piece.as_slice());
                r.push(tok);
                proof {
                    done = done0.push(tok@);
                    assert forall|k: int| 0 <= k < r@.len() implies (#[trigger] r@[k])@
                        == done[k] by {
                        if k < r0.len() {
                            assert(r@[k] == r0[k]);
                            assert(r0.map_values(|t: String| t@)[k] == done0[k]);
                        }
                    }
                    assert(r@.map_values(|t: String| t@) =~= done);
                }
            }
            cur = Vec::new();
        } else {
            cur.push(c);
        }
        i = i + 1;
    }
    let piece = trim_chars(&cur);
    if piece.len() > 0 {
        let ghost done0 = done;
        let ghost r0 = r@;
        let tok = string_of(piece.as_slice());
        r.push(tok);
        proof {
            done = done0.push(tok@);
            assert forall|k: int| 0 <= k < r@.len() implies (#[trigger] r@[k])@ == done[k] by {
                if k < r0.len() {
                    assert(r@[k] == r0[k]);
                    assert(r0.map_values(|t: String| t@)[k] == done0[k]);
                }
            }
            assert(r@.map_values(|t: String| t@) =~= done);
            assert(spec_block_commands(s@, s@.len() as int, cur@, depth as int, inq, qc) =~= seq![
                spec_trim(cur@),
            ]);
            assert(whole =~= done);
        }
    } else {
        proof {
            assert(spec_block_commands(s@, s@.len() as int, cur@, depth as int, inq, qc)
                =~= Seq::<Seq<char>>::empty());
            assert(whole =~= done);
        }
    }
    r
}

/// What counts as a variable name: a letter or underscore, then letters,
/// digits or underscores.
pub open spec fn spec_is_valid_identifier(s: Seq<char>) -> bool {
    &&& s.len() > 0
    &&& (char_alphabetic(s[0]) || s[0] == '_')
    &&& forall|i: int| 1 <= i < s.len() ==> spec_is_ident_char(#[trigger] s[i])
}

/// Whether the text is a well-formed variable name.
pub fn is_valid_identifier(s: &str) -> (r: bool)
    ensures
        r == spec_is_valid_identifier(s@),
{
    let cs = chars_of(s);
    if cs.len() == 0 {
        return false;
    }
    let c0 = cs[0];
    if !(is_alphabetic(c0) || c0 == '_') {
        return false;
    }
    let mut i: usize = 1;
    while i < cs.len()
        invariant
            1 <= i <= cs@.len(),
            cs@ == s@,
            s@.len() > 0,
            char_alphabetic(s@[0]) || s@[0] == '_',
            forall|j: int| 1 <= j < i ==> spec_is_ident_char(#[trigger] s@[j]),
        decreases cs@.len() - i,
    {
        if !is_ident_char(cs[i]) {
            return false;
        }
        i = i + 1;
    }
    true
}

/// Puts one wrapper character around the text.
pub fn wrap_string(s: &str, wrapper: char) -> (r: String)
    ensures
        r@ == seq![wrapper] + s@ + seq![wrapper],
{
    let cs = chars_of(s);
    let mut out: Vec<char> = Vec::new();
    out.push(wrapper);
    let mut i: usize = 0;
    while i < cs.len()
        invariant
            0 <= i <= cs@.len(),
            cs@ == s@,
            out@ == seq![wrapper] + s@.subrange(0, i as int),
        decreases cs@.len() - i,
    {
        let ghost out0 = out@;
        out.push(cs[i]);
        proof {
            assert(out0.push(s@[i as int]) =~= seq![wrapper] + s@.subrange(0, i + 1));
        }
        i = i + 1;
    }
    out.push(wrapper);
    proof {
        assert(s@.subrange(0, s@.len() as int) =~= s@);
        assert(out@ =~= seq![wrapper] + s@ + seq![wrapper]);
    }
    crate::text::string_of(out.as_slice())
}

} // verus!
