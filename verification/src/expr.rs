//! The expression lexer.
//!
//! An expression is scanned into tokens: `[`, `]` and `,` are one-character
//! tokens, `$(...)` yields a command token whose text runs to the matching
//! parenthesis (nesting counted), `$name` yields a variable token, and any
//! other run of characters up to the next special character becomes a text
//! token, trimmed. Whitespace between tokens is skipped.

use vstd::prelude::*;

use crate::resolve::spec_ident_end;
use crate::text::{chars_of, is_ident_char, spec_is_ident_char, spec_trim, string_of, trim_chars};

verus! {

/// One token of an expression.
pub enum Token {
    Text(String),
    Variable(String),
    Command(String),
    ArrayStart,
    ArrayEnd,
    Comma,
}

/// The model of a token.
pub enum TokenSpec {
    Text(Seq<char>),
    Variable(Seq<char>),
    Command(Seq<char>),
    ArrayStart,
    ArrayEnd,
    Comma,
}

/// The model of a token.
pub open spec fn tmodel(t: Token) -> TokenSpec {
    match t {
        Token::Text(s) => TokenSpec::Text(s@),
        Token::Variable(s) => TokenSpec::Variable(s@),
        Token::Command(s) => TokenSpec::Command(s@),
        Token::ArrayStart => TokenSpec::ArrayStart,
        Token::ArrayEnd => TokenSpec::ArrayEnd,
        Token::Comma => TokenSpec::Comma,
    }
}

/// The index of the `)` that closes a `$(`: scanning from j with `nested`
/// open parentheses, or the length where none closes.
pub open spec fn spec_cmd_close(s: Seq<char>, j: int, nested: int) -> int
    decreases s.len() - j,
{
    if j < 0 || j >= s.len() {
        s.len() as int
    } else if s[j] == '(' {
        spec_cmd_close(s, j + 1, nested + 1)
    } else if s[j] == ')' {
        if nested == 1 {
            j
        } else {
            spec_cmd_close(s, j + 1, nested - 1)
        }
    } else {
        spec_cmd_close(s, j + 1, nested)
    }
}

proof fn lemma_cmd_close(s: Seq<char>, j: int, nested: int)
    requires
        0 <= j <= s.len(),
    ensures
        j <= spec_cmd_close(s, j, nested) <= s.len(),
    decreases s.len() - j,
{
    if j < s.len() {
        if s[j] == '(' {
            lemma_cmd_close(s, j + 1, nested + 1);
        } else if s[j] == ')' {
            if nested != 1 {
                lemma_cmd_close(s, j + 1, nested - 1);
            }
        } else {
            lemma_cmd_close(s, j + 1, nested);
        }
    }
}

/// The end of a text run that began before index j: the first special
/// character at or after j, or the length.
pub open spec fn spec_text_end(s: Seq<char>, j: int) -> int
    decreases s.len() - j,
{
    if j < 0 || j >= s.len() {
        s.len() as int
    } else if s[j] == '$' || s[j] == '[' || s[j] == ']' || s[j] == ',' {
        j
    } else {
        spec_text_end(s, j + 1)
    }
}

proof fn lemma_text_end(s: Seq<char>, j: int)
    requires
        0 <= j <= s.len(),
    ensures
        j <= spec_text_end(s, j) <= s.len(),
        forall|n: int|
            j <= n < spec_text_end(s, j) ==> !((#[trigger] s[n]) == '$' || s[n] == '[' || s[n]
                == ']' || s[n] == ','),
        spec_text_end(s, j) < s.len() ==> (s[spec_text_end(s, j)] == '$' || s[spec_text_end(s, j)]
            == '[' || s[spec_text_end(s, j)] == ']' || s[spec_text_end(s, j)] == ','),
    decreases s.len() - j,
{
    if j < s.len() && !(s[j] == '$' || s[j] == '[' || s[j] == ']' || s[j] == ',') {
        lemma_text_end(s, j + 1);
    }
}

/// Whether the lexer skips this character between tokens.
pub open spec fn spec_lex_space(c: char) -> bool {
    c == ' ' || c == '\t' || c == '\n' || c == '\r'
}

/// The next token at or after index i, with the index just past it; None at
/// the end of the text.
pub open spec fn spec_next_token(s: Seq<char>, i: int) -> (Option<TokenSpec>, int)
    decreases s.len() - i,
{
    if i < 0 || i >= s.len() {
        (None, i)
    } else {
        let c = s[i];
        if c == '[' {
            (Some(TokenSpec::ArrayStart), i + 1)
        } else if c == ']' {
            (Some(TokenSpec::ArrayEnd), i + 1)
        } else if c == ',' {
            (Some(TokenSpec::Comma), i + 1)
        } else if c == '$' {
            if i + 1 < s.len() && s[i + 1] == '(' {
                let close = spec_cmd_close(s, i + 2, 1);
                let after = if close < s.len() {
                    close + 1
                } else {
                    close
                };
                (Some(TokenSpec::Command(s.subrange(i + 2, close))), after)
            } else {
                let j = spec_ident_end(s, i + 1);
                if j > i + 1 {
                    (Some(TokenSpec::Variable(s.subrange(i + 1, j))), j)
                } else {
                    spec_next_token(s, i + 1)
                }
            }
        } else if spec_lex_space(c) {
            spec_next_token(s, i + 1)
        } else {
            let e = spec_text_end(s, i + 1);
            (Some(TokenSpec::Text(spec_trim(s.subrange(i, e)))), e)
        }
    }
}

/// The expression lexer: the text and a cursor.
pub struct Lexer {
    pub chars: Vec<char>,
    pub pos: usize,
}

impl Lexer {
    /// The text being scanned.
    pub open spec fn text(&self) -> Seq<char> {
        self.chars@
    }

    /// The cursor never runs past the end.
    pub open spec fn wf(&self) -> bool {
        self.pos <= self.chars@.len()
    }

    /// A lexer at the start of the input.
    pub fn new(input: &str) -> (r: Lexer)
        ensures
            r.wf(),
            r.text() == input@,
            r.pos == 0,
    {
        Lexer { chars: chars_of(input), pos: 0 }
    }

    /// Scans the next token, if any, and advances the cursor past it.
    pub fn next_token(&mut self) -> (r: Option<Token>)
        requires
            old(self).wf(),
        ensures
            final(self).wf(),
            final(self).text() == old(self).text(),
            ({
                let (st, sp) = spec_next_token(old(self).text(), old(self).pos as int);
                &&& final(self).pos as int == sp
                &&& match r {
                    Some(t) => st == Some(tmodel(t)),
                    None => st is None,
                }
            }),
    {
        let ghost s = self.chars@;
        while self.pos < self.chars.len()
            invariant
                self.wf(),
                self.chars@ == s,
                s == old(self).text(),
                spec_next_token(s, old(self).pos as int) == spec_next_token(s, self.pos as int),
            decreases s.len() - self.pos,
        {
            let i = self.pos;
            let c = self.chars[i];
            if c == '[' {
                self.pos = i + 1;
                return Some(Token::ArrayStart);
            } else if c == ']' {
                self.pos = i + 1;
                return Some(Token::ArrayEnd);
            } else if c == ',' {
                self.pos = i + 1;
                return Some(Token::Comma);
            } else if c == '$' {
                if i + 1 < self.chars.len() && self.chars[i + 1] == '(' {
                    // scan to the matching parenthesis
                    let mut j: usize = i + 2;
                    let mut nested: u64 = 1;
                    proof {
                        lemma_cmd_close(s, i + 2 as int, 1);
                    }
                    while j < self.chars.len() && !(self.chars[j] == ')' && nested == 1)
                        invariant
                            i + 2 <= j <= s.len(),
                            self.chars@ == s,
                            self.pos == i,
                            i + 2 <= s.len(),
                            1 <= nested <= j,
                            spec_cmd_close(s, i + 2, 1) == spec_cmd_close(
                                s,
                                j as int,
                                nested as int,
                            ),
                        decreases s.len() - j,
                    {
                        let cj = self.chars[j];
                        if cj == '(' {
                            nested = nested + 1;
                        } else if cj == ')' {
                            nested = nested - 1;
                        }
                        j = j + 1;
                    }
                    proof {
                        if j < s.len() {
                            assert(s[j as int] == ')' && nested == 1);
                            assert(spec_cmd_close(s, j as int, nested as int) == j as int);
                        } else {
                            assert(spec_cmd_close(s, j as int, nested as int) == s.len() as int);
                        }
                    }
                    let close = j;
                    let content = crate::parse::vec_subrange(&self.chars, i + 2, close);
                    let after: usize = if close < self.chars.len() {
                        close + 1
                    } else {
                        close
                    };
                    self.pos = after;
                    return Some(Token::Command(string_of(content.as_slice())));
                } else {
                    // scan an identifier
                    let mut j: usize = i + 1;
                    while j < self.chars.len() && is_ident_char(self.chars[j])
                        invariant
                            i + 1 <= j <= s.len(),
                            self.chars@ == s,
                            self.pos == i,
                            forall|n: int| i + 1 <= n < j ==> spec_is_ident_char(#[trigger] s[n]),
                        decreases s.len() - j,
                    {
                        j = j + 1;
                    }
                    proof {
                        crate::resolve::lemma_ident_end(s, i + 1);
                        let je = spec_ident_end(s, i + 1);
                        if je < j {
                            assert(spec_is_ident_char(s[je]));
                        }
                        if je > j {
                            assert(spec_is_ident_char(s[j as int]));
                        }
                        assert(je == j as int);
                    }
                    if j > i + 1 {
                        let name = crate::parse::vec_subrange(&self.chars, i + 1, j);
                        self.pos = j;
                        return Some(Token::Variable(string_of(name.as_slice())));
                    }
                    self.pos = i + 1;
                }
            } else if c == ' ' || c == '\t' || c == '\n' || c == '\r' {
                self.pos = i + 1;
            } else {
                // a text run to the next special character
                let mut j: usize = i + 1;
                while j < self.chars.len() && !(self.chars[j] == '$' || self.chars[j] == '['
                    || self.chars[j] == ']' || self.chars[j] == ',')
                    invariant
                        i + 1 <= j <= s.len(),
                        self.chars@ == s,
                        self.pos == i,
                        forall|n: int|
                            i + 1 <= n < j ==> !((#[trigger] s[n]) == '$' || s[n] == '[' || s[n]
                                == ']' || s[n] == ','),
                    decreases s.len() - j,
                {
                    j = j + 1;
                }
                proof {
                    lemma_text_end(s, i + 1);
                    let je = spec_text_end(s, i + 1);
                    if je < j {
                        assert(s[je] == '$' || s[je] == '[' || s[je] == ']' || s[je] == ',');
                    }
                    if je > j {
                        assert(!(s[j as int] == '$' || s[j as int] == '[' || s[j as int] == ']'
                            || s[j as int] == ','));
                    }
                    assert(je == j as int);
                }
                let run = crate::parse::vec_subrange(&self.chars, i, j);
                let trimmed = trim_chars(&run);
                self.pos = j;
                return Some(Token::Text(string_of(trimmed.as_slice())));
            }
        }
        None
    }
}

/// Scans a whole expression into tokens.
pub open spec fn spec_lex_all(s: Seq<char>, i: int) -> Seq<TokenSpec>
    decreases s.len() - i,
    via spec_lex_all_dec
{
    if i < 0 || i > s.len() {
        Seq::empty()
    } else {
        let (t, next) = spec_next_token(s, i);
        match t {
            None => Seq::empty(),
            Some(tok) => seq![tok] + spec_lex_all(s, next),
        }
    }
}

#[via_fn]
proof fn spec_lex_all_dec(s: Seq<char>, i: int) {
    if 0 <= i <= s.len() {
        lemma_next_token_advances(s, i);
    }
}

/// A produced token always moves the cursor forward.
proof fn lemma_next_token_advances(s: Seq<char>, i: int)
    requires
        0 <= i <= s.len(),
    ensures
        ({
            let (t, next) = spec_next_token(s, i);
            &&& next <= s.len()
            &&& (t is Some ==> i < next)
        }),
    decreases s.len() - i,
{
    if 0 <= i < s.len() {
        let c = s[i];
        if c == '$' {
            if i + 1 < s.len() && s[i + 1] == '(' {
                lemma_cmd_close(s, i + 2, 1);
            } else {
                crate::resolve::lemma_ident_end(s, i + 1);
                if spec_ident_end(s, i + 1) == i + 1 {
                    lemma_next_token_advances(s, i + 1);
                }
            }
        } else if spec_lex_space(c) {
            lemma_next_token_advances(s, i + 1);
        } else if !(c == '[' || c == ']' || c == ',') {
            lemma_text_end(s, i + 1);
        }
    }
}

/// Lexes the whole expression into a token list.
pub fn lex_expression(input: &str) -> (r: Vec<Token>)
    ensures
        r@.map_values(|t: Token| tmodel(t)) == spec_lex_all(input@, 0),
{
    let mut lexer = Lexer::new(input);
    let ghost s = input@;
    let mut out: Vec<Token> = Vec::new();
    proof {
        lemma_next_token_advances(s, 0);
    }
    loop
        invariant
            lexer.wf(),
            lexer.text() == s,
            s == input@,
            spec_lex_all(s, 0) == out@.map_values(|t: Token| tmodel(t)) + spec_lex_all(
                s,
                lexer.pos as int,
            ),
        decreases s.len() - lexer.pos + 1,
    {
        let ghost p0 = lexer.pos as int;
        let ghost out0 = out@;
        proof {
            lemma_next_token_advances(s, p0);
        }
        match lexer.next_token() {
            None => {
                proof {
                    assert(spec_lex_all(s, p0) =~= Seq::<TokenSpec>::empty());
                    assert(out@.map_values(|t: Token| tmodel(t)) =~= spec_lex_all(s, 0));
                }
                return out;
            },
            Some(t) => {
                out.push(t);
                proof {
                    assert(spec_lex_all(s, p0) == seq![tmodel(t)] + spec_lex_all(
                        s,
                        lexer.pos as int,
                    ));
                    assert forall|k: int| 0 <= k < out@.len() implies tmodel(#[trigger] out@[k]) == (
                    out0.map_values(|t: Token| tmodel(t)) + seq![tmodel(t)])[k] by {
                        if k < out0.len() {
                            assert(out@[k] == out0[k]);
                            assert(out0.map_values(|t: Token| tmodel(t))[k] == tmodel(out0[k]));
                        } else {
                            assert(out@[k] == t);
                        }
                    }
                    assert(out@.map_values(|t: Token| tmodel(t)) =~= out0.map_values(
                        |t: Token| tmodel(t),
                    ) + seq![tmodel(t)]);
                    assert(spec_lex_all(s, 0) =~= out@.map_values(|t: Token| tmodel(t))
                        + spec_lex_all(s, lexer.pos as int));
                }
            },
        }
    }
}

} // verus!
