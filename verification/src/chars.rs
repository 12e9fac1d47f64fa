//! Character classes and small string helpers shared by the tokenizer,
//! the analyzers and the query sanitizer.
//!
//! Offsets in this crate are byte offsets into UTF-8 text; the spec-level
//! byte length of a character sequence is taken from `vstd::utf8`.

use vstd::prelude::*;

verus! {

/// An ASCII uppercase letter.
pub open spec fn is_upper(c: char) -> bool {
    65 <= c as u32 && c as u32 <= 90
}

/// An ASCII lowercase letter.
pub open spec fn is_lower(c: char) -> bool {
    97 <= c as u32 && c as u32 <= 122
}

/// An ASCII decimal digit.
pub open spec fn is_digit(c: char) -> bool {
    48 <= c as u32 && c as u32 <= 57
}

/// A character that may stand inside a token: an ASCII letter or digit.
/// Any other character separates tokens.
pub open spec fn is_token_char(c: char) -> bool {
    is_upper(c) || is_lower(c) || is_digit(c)
}

/// An ASCII whitespace character.
pub open spec fn is_space(c: char) -> bool {
    c as u32 == 32 || (9 <= c as u32 && c as u32 <= 13)
}

pub fn upper(c: char) -> (b: bool)
    ensures
        b == is_upper(c),
{
    let u = c as u32;
    65 <= u && u <= 90
}

pub fn lower(c: char) -> (b: bool)
    ensures
        b == is_lower(c),
{
    let u = c as u32;
    97 <= u && u <= 122
}

pub fn digit(c: char) -> (b: bool)
    ensures
        b == is_digit(c),
{
    let u = c as u32;
    48 <= u && u <= 57
}

pub fn token_char(c: char) -> (b: bool)
    ensures
        b == is_token_char(c),
{
    upper(c) || lower(c) || digit(c)
}

pub fn space(c: char) -> (b: bool)
    ensures
        b == is_space(c),
{
    let u = c as u32;
    u == 32 || (9 <= u && u <= 13)
}

/// The ASCII lowercase counterpart of a character; characters that are not
/// ASCII uppercase letters are unchanged.
pub open spec fn lower_char(c: char) -> char {
    if is_upper(c) {
        (((c as u8) + 32) as char)
    } else {
        c
    }
}

/// The ASCII uppercase counterpart of a character; characters that are not
/// ASCII lowercase letters are unchanged.
pub open spec fn upper_char(c: char) -> char {
    if is_lower(c) {
        (((c as u8) - 32) as char)
    } else {
        c
    }
}

pub fn to_lower(c: char) -> (r: char)
    ensures
        r == lower_char(c),
{
    if upper(c) {
        ((c as u8) + 32) as char
    } else {
        c
    }
}

pub fn to_upper(c: char) -> (r: char)
    ensures
        r == upper_char(c),
{
    if lower(c) {
        ((c as u8) - 32) as char
    } else {
        c
    }
}

/// A sequence of characters, each lowered by `lower_char`.
pub open spec fn to_lower_seq(s: Seq<char>) -> Seq<char> {
    s.map_values(|c: char| lower_char(c))
}

/// A sequence of characters, each raised by `upper_char`.
pub open spec fn to_upper_seq(s: Seq<char>) -> Seq<char> {
    s.map_values(|c: char| upper_char(c))
}

/// The length in bytes of the UTF-8 encoding of a character sequence.
pub open spec fn byte_len(s: Seq<char>) -> nat {
    vstd::utf8::encode_utf8(s).len()
}

pub proof fn lemma_byte_len_concat(a: Seq<char>, b: Seq<char>)
    ensures
        byte_len(a + b) == byte_len(a) + byte_len(b),
    decreases a.len(),
{
    if a.len() == 0 {
        assert(a + b =~= b);
        assert(vstd::utf8::encode_utf8(a) =~= Seq::<u8>::empty());
    } else {
        assert((a + b)[0] == a[0]);
        assert((a + b).drop_first() =~= a.drop_first() + b);
        lemma_byte_len_concat(a.drop_first(), b);
    }
}

pub proof fn lemma_byte_len_ge_len(s: Seq<char>)
    ensures
        byte_len(s) >= s.len(),
    decreases s.len(),
{
    if s.len() > 0 {
        assert(vstd::utf8::encode_scalar(s[0] as u32).len() >= 1);
        lemma_byte_len_ge_len(s.drop_first());
    }
}

/// The number of bytes of the UTF-8 encoding of a single character.
pub fn char_len(c: char) -> (n: usize)
    ensures
        n == vstd::utf8::encode_scalar(c as u32).len(),
        1 <= n <= 4,
{
    let u = c as u32;
    if u < 0x80 {
        1
    } else if u < 0x800 {
        2
    } else if u < 0x10000 {
        3
    } else {
        4
    }
}

pub proof fn lemma_byte_len_pos(s: Seq<char>)
    requires
        s.len() > 0,
    ensures
        byte_len(s) >= 1,
{
    assert(vstd::utf8::encode_scalar(s[0] as u32).len() >= 1);
}

pub proof fn lemma_byte_len_one(c: char)
    ensures
        byte_len(seq![c]) == vstd::utf8::encode_scalar(c as u32).len(),
{
    let s1 = seq![c];
    assert(s1[0] == c);
    assert(s1.drop_first() =~= Seq::<char>::empty());
    assert(vstd::utf8::encode_utf8(s1.drop_first()) =~= Seq::<u8>::empty());
    assert(vstd::utf8::encode_utf8(s1) =~= vstd::utf8::encode_scalar(c as u32)
        + Seq::<u8>::empty());
    assert(vstd::utf8::encode_scalar(c as u32) + Seq::<u8>::empty()
        =~= vstd::utf8::encode_scalar(c as u32));
}

/// Relies on `String::push`: appends a single character to the string.
#[verifier::external_body]
pub fn push_char(s: &mut String, c: char)
    ensures
        final(s)@ == old(s)@.push(c),
{
    s.push(c);
}

/// Collects the characters of a string slice into a vector.
pub fn chars_of(s: &str) -> (v: Vec<char>)
    ensures
        v@ == s@,
{
    let n = s.unicode_len();
    let mut v: Vec<char> = Vec::new();
    let mut i: usize = 0;
    while i < n
        invariant
            i <= n,
            n == s@.len(),
            v@ == s@.take(i as int),
        decreases n - i,
    {
        let c = s.get_char(i);
        v.push(c);
        i += 1;
        proof {
            assert(v@ =~= s@.take(i as int));
        }
    }
    proof {
        assert(v@ =~= s@);
    }
    v
}

/// The ASCII-lowered copy of a string.
pub fn lower_string(s: &str) -> (r: String)
    ensures
        r@ == to_lower_seq(s@),
{
    let n = s.unicode_len();
    let mut r = String::new();
    let mut i: usize = 0;
    while i < n
        invariant
            i <= n,
            n == s@.len(),
            r@ == to_lower_seq(s@).take(i as int),
        decreases n - i,
    {
        let c = to_lower(s.get_char(i));
        push_char(&mut r, c);
        i += 1;
        proof {
            assert(r@ =~= to_lower_seq(s@).take(i as int));
        }
    }
    proof {
        assert(r@ =~= to_lower_seq(s@));
    }
    r
}

/// The ASCII-raised copy of a string.
pub fn upper_string(s: &str) -> (r: String)
    ensures
        r@ == to_upper_seq(s@),
{
    let n = s.unicode_len();
    let mut r = String::new();
    let mut i: usize = 0;
    while i < n
        invariant
            i <= n,
            n == s@.len(),
            r@ == to_upper_seq(s@).take(i as int),
        decreases n - i,
    {
        let c = to_upper(s.get_char(i));
        push_char(&mut r, c);
        i += 1;
        proof {
            assert(r@ =~= to_upper_seq(s@).take(i as int));
        }
    }
    proof {
        assert(r@ =~= to_upper_seq(s@));
    }
    r
}

/// Compares two string slices character by character.
pub fn str_eq(a: &str, b: &str) -> (r: bool)
    ensures
        r == (a@ == b@),
{
    let na = a.unicode_len();
    let nb = b.unicode_len();
    if na != nb {
        proof {
            assert(a@ != b@);
        }
        return false;
    }
    let mut i: usize = 0;
    while i < na
        invariant
            i <= na,
            na == a@.len(),
            na == b@.len(),
            forall|k: int| 0 <= k < i ==> a@[k] == b@[k],
        decreases na - i,
    {
        if a.get_char(i) != b.get_char(i) {
            proof {
                assert(a@[i as int] != b@[i as int]);
            }
            return false;
        }
        i += 1;
    }
    proof {
        assert(a@ =~= b@);
    }
    true
}

} // verus!
