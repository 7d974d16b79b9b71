//! Characters and text: conversions between `String` and `Vec<char>`, the
//! whitespace set, trimming, and character classes.
//!
//! All scanning in the interpreter works over `Vec<char>`, whose view is the
//! same `Seq<char>` that `str` views give, so contracts compose across the
//! two representations.

use vstd::prelude::*;

verus! {

/// Relies on str::chars: the characters of the string, in order (the view of
/// a str is that same character sequence).
#[verifier::external_body]
pub fn chars_of(s: &str) -> (r: Vec<char>)
    ensures
        r@ == s@,
{
    s.chars().collect()
}

/// Relies on String's FromIterator: the string holding exactly the given
/// characters, in order.
#[verifier::external_body]
pub fn string_of(v: &[char]) -> (r: String)
    ensures
        r@ == v@,
{
    v.iter().collect()
}

/// Whether c has the Unicode White_Space property, the set that
/// char::is_whitespace documents.
pub open spec fn spec_is_space(c: char) -> bool {
    let u = c as int;
    (9 <= u && u <= 13) || u == 32 || u == 0x85 || u == 0xa0 || u == 0x1680 || (0x2000 <= u && u
        <= 0x200a) || u == 0x2028 || u == 0x2029 || u == 0x202f || u == 0x205f || u == 0x3000
}

pub fn is_space(c: char) -> (r: bool)
    ensures
        r == spec_is_space(c),
{
    let u = c as u32;
    (9 <= u && u <= 13) || u == 32 || u == 0x85 || u == 0xa0 || u == 0x1680 || (0x2000 <= u && u
        <= 0x200a) || u == 0x2028 || u == 0x2029 || u == 0x202f || u == 0x205f || u == 0x3000
}

/// What char::is_alphabetic returns: the Unicode Alphabetic property.
pub uninterp spec fn char_alphabetic(c: char) -> bool;

/// What char::is_alphanumeric returns: Alphabetic or a number category.
pub uninterp spec fn char_alphanumeric(c: char) -> bool;

/// Relies on char::is_alphabetic, a function of the character alone.
#[verifier::external_body]
pub fn is_alphabetic(c: char) -> (r: bool)
    ensures
        r == char_alphabetic(c),
{
    c.is_alphabetic()
}

/// Relies on char::is_alphanumeric, a function of the character alone.
#[verifier::external_body]
pub fn is_alphanumeric(c: char) -> (r: bool)
    ensures
        r == char_alphanumeric(c),
{
    c.is_alphanumeric()
}

/// A character of a `$name` reference or of an identifier: alphanumeric or
/// an underscore.
pub open spec fn spec_is_ident_char(c: char) -> bool {
    char_alphanumeric(c) || c == '_'
}

pub fn is_ident_char(c: char) -> (r: bool)
    ensures
        r == spec_is_ident_char(c),
{
    is_alphanumeric(c) || c == '_'
}

/// The index of the first non-whitespace character, or the length.
pub open spec fn spec_trim_start_at(s: Seq<char>) -> int
    decreases s.len(),
{
    if s.len() == 0 {
        0
    } else if spec_is_space(s[0]) {
        1 + spec_trim_start_at(s.subrange(1, s.len() as int))
    } else {
        0
    }
}

/// The index one past the last non-whitespace character, or 0.
pub open spec fn spec_trim_end_at(s: Seq<char>) -> int
    decreases s.len(),
{
    if s.len() == 0 {
        0
    } else if spec_is_space(s[s.len() - 1]) {
        spec_trim_end_at(s.drop_last())
    } else {
        s.len() as int
    }
}

/// What str::trim returns: the text with leading and trailing whitespace
/// removed.
pub open spec fn spec_trim(s: Seq<char>) -> Seq<char> {
    let a = spec_trim_start_at(s);
    let b = spec_trim_end_at(s);
    if a <= b {
        s.subrange(a, b)
    } else {
        Seq::empty()
    }
}

proof fn lemma_trim_start_at_bounds(s: Seq<char>)
    ensures
        0 <= spec_trim_start_at(s) <= s.len(),
        forall|i: int| 0 <= i < spec_trim_start_at(s) ==> spec_is_space(#[trigger] s[i]),
        spec_trim_start_at(s) < s.len() ==> !spec_is_space(s[spec_trim_start_at(s)]),
    decreases s.len(),
{
    if s.len() > 0 && spec_is_space(s[0]) {
        let t = s.subrange(1, s.len() as int);
        lemma_trim_start_at_bounds(t);
        assert forall|i: int| 0 <= i < spec_trim_start_at(s) implies spec_is_space(
            #[trigger] s[i],
        ) by {
            if i >= 1 {
                assert(s[i] == t[i - 1]);
                assert(spec_is_space(t[i - 1]));
            }
        }
    }
}

proof fn lemma_trim_end_at_bounds(s: Seq<char>)
    ensures
        0 <= spec_trim_end_at(s) <= s.len(),
        forall|i: int| spec_trim_end_at(s) <= i < s.len() ==> spec_is_space(#[trigger] s[i]),
        spec_trim_end_at(s) > 0 ==> !spec_is_space(s[spec_trim_end_at(s) - 1]),
    decreases s.len(),
{
    if s.len() > 0 && spec_is_space(s[s.len() - 1]) {
        lemma_trim_end_at_bounds(s.drop_last());
        assert(forall|i: int|
            spec_trim_end_at(s) <= i < s.len() - 1 ==> spec_is_space(#[trigger] s.drop_last()[i]));
        assert(forall|i: int| 0 <= i < s.len() - 1 ==> s.drop_last()[i] == s[i]);
    }
}

/// Trimming never lengthens the text.
pub proof fn lemma_trim_len(s: Seq<char>)
    ensures
        spec_trim(s).len() <= s.len(),
{
    lemma_trim_start_at_bounds(s);
    lemma_trim_end_at_bounds(s);
}

/// Text with non-space first and last characters trims to itself.
pub proof fn lemma_trim_noop(s: Seq<char>)
    requires
        s.len() > 0,
        !spec_is_space(s[0]),
        !spec_is_space(s[s.len() - 1]),
    ensures
        spec_trim(s) == s,
{
    lemma_trim_start_at_bounds(s);
    lemma_trim_end_at_bounds(s);
    let a = spec_trim_start_at(s);
    let b = spec_trim_end_at(s);
    if a > 0 {
        assert(spec_is_space(s[0]));
    }
    if b < s.len() {
        assert(spec_is_space(s[s.len() - 1]));
    }
    assert(s.subrange(0, s.len() as int) =~= s);
}

/// Trims whitespace from both ends, as str::trim does.
pub fn trim_chars(s: &Vec<char>) -> (r: Vec<char>)
    ensures
        r@ == spec_trim(s@),
{
    proof {
        lemma_trim_start_at_bounds(s@);
        lemma_trim_end_at_bounds(s@);
    }
    let mut a: usize = 0;
    while a < s.len() && is_space(s[a])
        invariant
            0 <= a <= s@.len(),
            forall|i: int| 0 <= i < a ==> spec_is_space(#[trigger] s@[i]),
        decreases s@.len() - a,
    {
        a = a + 1;
    }
    let mut b: usize = s.len();
    while b > a && is_space(s[b - 1])
        invariant
            a <= b <= s@.len(),
            forall|i: int| b <= i < s@.len() ==> spec_is_space(#[trigger] s@[i]),
        decreases b,
    {
        b = b - 1;
    }
    let mut r: Vec<char> = Vec::new();
    let mut i: usize = a;
    while i < b
        invariant
            a <= i <= b <= s@.len(),
            r@ == s@.subrange(a as int, i as int),
        decreases b - i,
    {
        let ghost r0 = r@;
        r.push(s[i]);
        proof {
            assert(r0.push(s@[i as int]) =~= s@.subrange(a as int, i + 1));
        }
        i = i + 1;
    }
    proof {
        let ta = spec_trim_start_at(s@);
        let tb = spec_trim_end_at(s@);
        if a < b {
            // Both ends point at non-space characters, so the scan indexes
            // agree with the spec indexes.
            assert(!spec_is_space(s@[a as int]));
            assert(!spec_is_space(s@[b - 1]));
            assert(ta == a as int) by {
                if ta < a as int {
                    assert(spec_is_space(s@[ta]));
                    assert(!spec_is_space(s@[ta]));
                }
                if ta > a as int {
                    assert(spec_is_space(s@[a as int]));
                }
            }
            assert(tb == b as int) by {
                if tb < b as int {
                    assert(spec_is_space(s@[b - 1]));
                }
                if tb > b as int {
                    assert(spec_is_space(s@[tb - 1]));
                }
            }
        } else {
            // Everything is whitespace: the spec window is empty too.
            assert(forall|i: int| 0 <= i < s@.len() ==> spec_is_space(#[trigger] s@[i]));
            if ta < tb {
                assert(!spec_is_space(s@[ta]));
            }
            assert(r@ =~= spec_trim(s@));
        }
    }
    r
}

/// The two texts, one after the other.
pub fn string_concat(a: &str, b: &str) -> (r: String)
    ensures
        r@ == a@ + b@,
{
    let mut out = chars_of(a);
    let mut tail = chars_of(b);
    out.append(&mut tail);
    proof {
        assert(out@ =~= a@ + b@);
    }
    string_of(out.as_slice())
}

/// The text with one character appended.
pub fn string_push_char(a: &str, c: char) -> (r: String)
    ensures
        r@ == a@.push(c),
{
    let mut out = chars_of(a);
    out.push(c);
    string_of(out.as_slice())
}

/// Relies on String::from_utf8: Some exactly on valid UTF-8, holding the
/// text whose UTF-8 encoding is the given bytes.
#[verifier::external_body]
pub fn utf8_to_string(bytes: &Vec<u8>) -> (r: Option<String>)
    ensures
        match r {
            Some(s) => vstd::utf8::valid_utf8(bytes@) && vstd::utf8::encode_utf8(s@) == bytes@,
            None => !vstd::utf8::valid_utf8(bytes@),
        },
{
    String::from_utf8(bytes.clone()).ok()
}

/// Relies on str's PartialEq: two string slices are equal exactly when they
/// hold the same characters.
#[verifier::external_body]
pub fn str_eq(a: &str, b: &str) -> (r: bool)
    ensures
        r == (a@ == b@),
{
    a == b
}

/// Whether two character vectors hold the same text.
pub fn chars_eq(a: &Vec<char>, b: &Vec<char>) -> (r: bool)
    ensures
        r == (a@ == b@),
{
    if a.len() != b.len() {
        assert(a@ != b@);
        return false;
    }
    let mut i: usize = 0;
    while i < a.len()
        invariant
            0 <= i <= a@.len(),
            a@.len() == b@.len(),
            forall|j: int| 0 <= j < i ==> a@[j] == b@[j],
        decreases a@.len() - i,
    {
        if a[i] != b[i] {
            assert(a@ != b@);
            return false;
        }
        i = i + 1;
    }
    proof {
        assert(a@ =~= b@);
    }
    true
}

} // verus!
