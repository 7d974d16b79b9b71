//! Decimal text for integers: printing and parsing, with a round-trip proof.
//!
//! `int_text` is the specification of the usual decimal rendering (a `-` sign
//! for negative numbers, no leading zeros). `parse_i32_spec` and
//! `parse_usize_spec` mirror what `str::parse` accepts for those types: an
//! optional sign, then one or more decimal digits, rejected on overflow.

use vstd::prelude::*;

verus! {

pub open spec fn is_dec_digit(c: char) -> bool {
    48 <= (c as int) && (c as int) <= 57
}

pub open spec fn digit_val(c: char) -> nat {
    ((c as int) - 48) as nat
}

pub open spec fn digit_char(d: nat) -> char {
    if d == 0 {
        '0'
    } else if d == 1 {
        '1'
    } else if d == 2 {
        '2'
    } else if d == 3 {
        '3'
    } else if d == 4 {
        '4'
    } else if d == 5 {
        '5'
    } else if d == 6 {
        '6'
    } else if d == 7 {
        '7'
    } else if d == 8 {
        '8'
    } else {
        '9'
    }
}

pub open spec fn all_dec_digits(s: Seq<char>) -> bool {
    forall|i: int| 0 <= i < s.len() ==> is_dec_digit(#[trigger] s[i])
}

/// The numeric value of a non-empty run of decimal digits, most significant first.
pub open spec fn digits_val(s: Seq<char>) -> nat
    decreases s.len(),
{
    if s.len() == 0 {
        0
    } else {
        digits_val(s.drop_last()) * 10 + digit_val(s.last())
    }
}

/// The decimal digits of n, most significant first, no leading zeros.
pub open spec fn dec_digits_text(n: nat) -> Seq<char>
    decreases n,
{
    if n < 10 {
        seq![digit_char(n)]
    } else {
        dec_digits_text(n / 10).push(digit_char(n % 10))
    }
}

/// The decimal rendering of an integer, as `to_string` would print it.
pub open spec fn int_text(i: int) -> Seq<char> {
    if i < 0 {
        seq!['-'] + dec_digits_text((-i) as nat)
    } else {
        dec_digits_text(i as nat)
    }
}

/// An optional sign followed by one or more digits, as an unbounded integer.
pub open spec fn parse_int_text(s: Seq<char>) -> Option<int> {
    if s.len() > 0 && (s[0] == '-' || s[0] == '+') {
        let ds = s.subrange(1, s.len() as int);
        if ds.len() > 0 && all_dec_digits(ds) {
            if s[0] == '-' {
                Some(-(digits_val(ds) as int))
            } else {
                Some(digits_val(ds) as int)
            }
        } else {
            None
        }
    } else {
        if s.len() > 0 && all_dec_digits(s) {
            Some(digits_val(s) as int)
        } else {
            None
        }
    }
}

/// What `str::parse::<i32>` accepts: `parse_int_text`, bounded to i32.
pub open spec fn parse_i32_spec(s: Seq<char>) -> Option<i32> {
    match parse_int_text(s) {
        Some(v) => if i32::MIN <= v <= i32::MAX {
            Some(v as i32)
        } else {
            None
        },
        None => None,
    }
}

/// What `str::parse::<usize>` accepts: no `-` sign, bounded to usize.
pub open spec fn parse_usize_spec(s: Seq<char>) -> Option<usize> {
    if s.len() > 0 && s[0] == '-' {
        None
    } else {
        match parse_int_text(s) {
            Some(v) => if v <= usize::MAX {
                Some(v as usize)
            } else {
                None
            },
            None => None,
        }
    }
}

fn digit_to_char(d: u64) -> (c: char)
    requires
        d < 10,
    ensures
        c == digit_char(d as nat),
{
    match d {
        0 => '0',
        1 => '1',
        2 => '2',
        3 => '3',
        4 => '4',
        5 => '5',
        6 => '6',
        7 => '7',
        8 => '8',
        _ => '9',
    }
}

fn char_digit(c: char) -> (r: Option<u64>)
    ensures
        r is Some <==> is_dec_digit(c),
        r is Some ==> r->0 == digit_val(c) && r->0 < 10,
{
    let u = c as u32;
    if 48 <= u && u <= 57 {
        Some((u - 48) as u64)
    } else {
        None
    }
}

/// The decimal digits of n, by repeated division, written front to back.
fn u64_to_digits(n: u64) -> (r: Vec<char>)
    ensures
        r@ == dec_digits_text(n as nat),
{
    let mut acc: Vec<char> = Vec::new();
    let mut m: u64 = n;
    while m >= 10
        invariant
            dec_digits_text(n as nat) == dec_digits_text(m as nat) + acc@,
        decreases m,
    {
        let ghost acc0 = acc@;
        let d = m % 10;
        acc.insert(0, digit_to_char(d));
        proof {
            assert(dec_digits_text(m as nat) == dec_digits_text((m as nat) / 10).push(
                digit_char((m as nat) % 10),
            ));
            assert(dec_digits_text((m as nat) / 10).push(digit_char((m as nat) % 10)) + acc0
                =~= dec_digits_text((m / 10) as nat) + acc@);
        }
        m = m / 10;
    }
    let ghost acc1 = acc@;
    acc.insert(0, digit_to_char(m));
    proof {
        assert(dec_digits_text(m as nat) == seq![digit_char(m as nat)]);
        assert(dec_digits_text(m as nat) + acc1 =~= acc@);
        assert(dec_digits_text(n as nat) =~= acc@);
    }
    acc
}

/// Renders n in decimal, exactly as `usize::to_string` does.
pub fn usize_to_chars(n: usize) -> (r: Vec<char>)
    ensures
        r@ == dec_digits_text(n as nat),
        r@ == int_text(n as int),
{
    u64_to_digits(n as u64)
}

/// Renders v in decimal, exactly as `i32::to_string` does.
pub fn int_to_chars(v: i32) -> (r: Vec<char>)
    ensures
        r@ == int_text(v as int),
{
    if v < 0 {
        let mag: u64 = (-(v as i64)) as u64;
        let mut r: Vec<char> = Vec::new();
        r.push('-');
        let mut ds = u64_to_digits(mag);
        r.append(&mut ds);
        assert(r@ =~= seq!['-'] + dec_digits_text(mag as nat));
        r
    } else {
        u64_to_digits(v as u64)
    }
}

proof fn lemma_digits_val_push(s: Seq<char>, c: char)
    ensures
        digits_val(s.push(c)) == digits_val(s) * 10 + digit_val(c),
{
    assert(s.push(c).drop_last() =~= s);
    assert(s.push(c).last() == c);
}

/// Extending a digit run on the right never lowers its value.
proof fn lemma_digits_val_grows(s: Seq<char>, i: int)
    requires
        0 <= i <= s.len(),
    ensures
        digits_val(s.subrange(0, i)) <= digits_val(s),
    decreases s.len() - i,
{
    if i == s.len() {
        assert(s.subrange(0, i) =~= s);
    } else {
        let t = s.subrange(0, i + 1);
        assert(t =~= s.subrange(0, i).push(s[i]));
        lemma_digits_val_push(s.subrange(0, i), s[i]);
        lemma_digits_val_grows(s, i + 1);
    }
}

/// Parses an unsigned digit run, as `str::parse` does for the digits part.
/// Returns None on a non-digit, an empty run, or a value above bound.
fn parse_digits(s: &Vec<char>, from: usize, bound: u64) -> (r: Option<u64>)
    requires
        from <= s@.len(),
    ensures
        ({
            let ds = s@.subrange(from as int, s@.len() as int);
            match r {
                Some(v) => ds.len() > 0 && all_dec_digits(ds) && v == digits_val(ds) && v <= bound,
                None => ds.len() == 0 || !all_dec_digits(ds) || digits_val(ds) > bound,
            }
        }),
{
    let ghost ds = s@.subrange(from as int, s@.len() as int);
    if from == s.len() {
        return None;
    }
    let mut acc: u64 = 0;
    let mut i: usize = from;
    proof {
        assert(s@.subrange(from as int, from as int) =~= Seq::<char>::empty());
        assert(digits_val(Seq::<char>::empty()) == 0);
    }
    while i < s.len()
        invariant
            from <= i <= s@.len(),
            from < s@.len(),
            ds == s@.subrange(from as int, s@.len() as int),
            all_dec_digits(s@.subrange(from as int, i as int)),
            acc == digits_val(s@.subrange(from as int, i as int)),
            acc <= bound,
        decreases s@.len() - i,
    {
        let c = s[i];
        let ghost pre = s@.subrange(from as int, i as int);
        match char_digit(c) {
            None => {
                assert(ds[i - from] == c);
                assert(!all_dec_digits(ds));
                return None;
            },
            Some(d) => {
                proof {
                    lemma_digits_val_push(pre, c);
                    assert(s@.subrange(from as int, i + 1 as int) =~= pre.push(c));
                }
                // Overflow-safe check for acc * 10 + d > bound.
                let over = acc > bound / 10 || (acc == bound / 10 && d > bound % 10);
                if over {
                    proof {
                        assert(bound == (bound / 10) * 10 + bound % 10);
                        assert(digits_val(pre.push(c)) == acc * 10 + d);
                        assert(acc * 10 + d > bound) by (nonlinear_arith)
                            requires
                                acc > bound / 10 || (acc == bound / 10 && d > bound % 10),
                                bound == (bound / 10) * 10 + bound % 10,
                                bound % 10 < 10,
                                d < 10,
                        ;
                        if all_dec_digits(ds) {
                            lemma_digits_val_grows(ds, i + 1 - from as int);
                            assert(s@.subrange(from as int, i + 1 as int) =~= ds.subrange(
                                0,
                                i + 1 - from as int,
                            ));
                        }
                    }
                    return None;
                }
                proof {
                    assert(bound == (bound / 10) * 10 + bound % 10);
                    assert(acc * 10 + d <= bound) by (nonlinear_arith)
                        requires
                            acc <= bound / 10,
                            acc < bound / 10 || d <= bound % 10,
                            bound == (bound / 10) * 10 + bound % 10,
                            d < 10,
                    ;
                }
                acc = acc * 10 + d;
            },
        }
        i = i + 1;
    }
    assert(s@.subrange(from as int, i as int) =~= ds);
    Some(acc)
}

/// Parses decimal text as `str::parse::<i32>` does.
pub fn parse_i32_chars(s: &Vec<char>) -> (r: Option<i32>)
    ensures
        r == parse_i32_spec(s@),
{
    if s.len() == 0 {
        return None;
    }
    let c0 = s[0];
    if c0 == '-' || c0 == '+' {
        let ghost ds = s@.subrange(1, s@.len() as int);
        match parse_digits(s, 1, 0x8000_0000) {
            None => {
                assert(parse_i32_spec(s@) is None);
                None
            },
            Some(v) => {
                assert(ds.len() > 0 && all_dec_digits(ds) && v == digits_val(ds));
                if c0 == '-' {
                    assert(parse_int_text(s@) == Some(-(digits_val(ds) as int)));
                    if v == 0x8000_0000 {
                        assert(parse_i32_spec(s@) == Some(i32::MIN));
                        Some(i32::MIN)
                    } else {
                        let r = -((v as i64) as i32);
                        assert(r as int == -(digits_val(ds) as int));
                        assert(parse_i32_spec(s@) == Some(r));
                        Some(r)
                    }
                } else {
                    assert(parse_int_text(s@) == Some(digits_val(ds) as int));
                    if v >= 0x8000_0000 {
                        assert(parse_i32_spec(s@) is None);
                        None
                    } else {
                        assert(parse_i32_spec(s@) == Some(v as i32));
                        Some(v as i32)
                    }
                }
            },
        }
    } else {
        proof {
            assert(s@.subrange(0, s@.len() as int) =~= s@);
        }
        match parse_digits(s, 0, 0x7fff_ffff) {
            None => None,
            Some(v) => Some(v as i32),
        }
    }
}

/// Parses decimal text as `str::parse::<usize>` does.
pub fn parse_usize_chars(s: &Vec<char>) -> (r: Option<usize>)
    ensures
        r == parse_usize_spec(s@),
{
    if s.len() == 0 {
        return None;
    }
    let c0 = s[0];
    if c0 == '-' {
        return None;
    }
    let from: usize = if c0 == '+' {
        1
    } else {
        0
    };
    proof {
        assert(s@.subrange(0, s@.len() as int) =~= s@);
    }
    match parse_digits(s, from, usize::MAX as u64) {
        None => None,
        Some(v) => Some(v as usize),
    }
}

pub proof fn lemma_dec_digits_text_all_digits(n: nat)
    ensures
        all_dec_digits(dec_digits_text(n)),
        dec_digits_text(n).len() >= 1,
        digits_val(dec_digits_text(n)) == n,
    decreases n,
{
    if n < 10 {
        assert(dec_digits_text(n) =~= seq![digit_char(n)]);
        assert(is_dec_digit(digit_char(n)));
        assert(digits_val(seq![digit_char(n)]) == digit_val(digit_char(n))) by {
            let one = seq![digit_char(n)];
            assert(one.drop_last() =~= Seq::<char>::empty());
            assert(one.last() == digit_char(n));
            assert(digits_val(Seq::<char>::empty()) == 0);
        }
        assert(digit_val(digit_char(n)) == n);
    } else {
        lemma_dec_digits_text_all_digits(n / 10);
        let pre = dec_digits_text(n / 10);
        lemma_digits_val_push(pre, digit_char(n % 10));
        assert(digit_val(digit_char(n % 10)) == n % 10);
        assert(forall|i: int|
            0 <= i < pre.push(digit_char(n % 10)).len() ==> is_dec_digit(
                #[trigger] pre.push(digit_char(n % 10))[i],
            ));
    }
}

/// Printing an i32 and parsing the text back yields the same number.
pub proof fn lemma_int_text_round_trip(v: i32)
    ensures
        parse_i32_spec(int_text(v as int)) == Some(v),
{
    if v < 0 {
        let n = (-(v as int)) as nat;
        lemma_dec_digits_text_all_digits(n);
        let s = seq!['-'] + dec_digits_text(n);
        assert(s[0] == '-');
        assert(s.subrange(1, s.len() as int) =~= dec_digits_text(n));
    } else {
        let n = v as nat;
        lemma_dec_digits_text_all_digits(n);
        let s = dec_digits_text(n);
        assert(is_dec_digit(s[0]));
        assert(s[0] != '-' && s[0] != '+');
    }
}

} // verus!
