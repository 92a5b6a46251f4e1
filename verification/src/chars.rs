//! Character-level helpers shared by the whole crate: conversions between
//! `String` and `Vec<char>`, ASCII case folding, decimal rendering of
//! integers, and the few Unicode character classes that only the standard
//! library can decide.

use vstd::prelude::*;
use vstd::string::StringExecFns;

verus! {

/// Unicode white space, as `char::is_whitespace` decides it.
pub uninterp spec fn unicode_whitespace(c: char) -> bool;

/// Relies on char::is_whitespace: a property of the character alone.
#[verifier::external_body]
pub fn is_whitespace_char(c: char) -> (r: bool)
    ensures
        r == unicode_whitespace(c),
{
    c.is_whitespace()
}

/// Unicode lower-case letters, as `char::is_lowercase` decides it.
pub uninterp spec fn unicode_lowercase(c: char) -> bool;

/// Relies on char::is_lowercase: a property of the character alone.
#[verifier::external_body]
pub fn is_lowercase_char(c: char) -> (r: bool)
    ensures
        r == unicode_lowercase(c),
{
    c.is_lowercase()
}

/// Unicode upper-case letters, as `char::is_uppercase` decides it.
pub uninterp spec fn unicode_uppercase(c: char) -> bool;

/// Relies on char::is_uppercase: a property of the character alone.
#[verifier::external_body]
pub fn is_uppercase_char(c: char) -> (r: bool)
    ensures
        r == unicode_uppercase(c),
{
    c.is_uppercase()
}

/// Relies on String::push: appends one character at the end.
#[verifier::external_body]
pub fn push_char(s: &mut String, c: char)
    ensures
        final(s)@ == old(s)@.push(c),
{
    s.push(c);
}

/// The characters of a string, as an owned vector.
pub fn chars_vec(s: &str) -> (r: Vec<char>)
    ensures
        r@ == s@,
{
    let n = s.unicode_len();
    let mut r: Vec<char> = Vec::new();
    let mut i: usize = 0;
    while i < n
        invariant
            n == s@.len(),
            i <= n,
            r@ == s@.subrange(0, i as int),
        decreases n - i,
    {
        r.push(s.get_char(i));
        i += 1;
        proof {
            assert(r@ =~= s@.subrange(0, i as int));
        }
    }
    proof {
        assert(r@ =~= s@);
    }
    r
}

/// Builds the string whose characters are exactly `v`.
pub fn string_of(v: &Vec<char>) -> (r: String)
    ensures
        r@ == v@,
{
    let mut r = String::new();
    let n = v.len();
    let mut i: usize = 0;
    while i < n
        invariant
            n == v@.len(),
            i <= n,
            r@ == v@.subrange(0, i as int),
        decreases n - i,
    {
        push_char(&mut r, v[i]);
        i += 1;
        proof {
            assert(r@ =~= v@.subrange(0, i as int));
        }
    }
    proof {
        assert(r@ =~= v@);
    }
    r
}

/// Appends a whole string slice.
pub fn push_str_all(s: &mut String, other: &str)
    ensures
        final(s)@ == old(s)@ + other@,
{
    s.append(other);
}

/// A copy of the characters `v[i..j]`.
pub fn subvec(v: &Vec<char>, i: usize, j: usize) -> (r: Vec<char>)
    requires
        i <= j <= v@.len(),
    ensures
        r@ == v@.subrange(i as int, j as int),
{
    let mut r: Vec<char> = Vec::new();
    let mut k: usize = i;
    while k < j
        invariant
            i <= k <= j <= v@.len(),
            r@ == v@.subrange(i as int, k as int),
        decreases j - k,
    {
        r.push(v[k]);
        k += 1;
        proof {
            assert(r@ =~= v@.subrange(i as int, k as int));
        }
    }
    r
}

/// ASCII scalar values end at 127.
pub open spec fn ascii_char(c: char) -> bool {
    c as u32 <= 127
}

/// The ASCII lower-case image of a character; anything outside `A..Z` is kept.
pub open spec fn lower_char(c: char) -> char {
    if 65 <= c as u32 <= 90 {
        ((c as u32 + 32) as u8) as char
    } else {
        c
    }
}

/// The ASCII upper-case image of a character; anything outside `a..z` is kept.
pub open spec fn upper_char(c: char) -> char {
    if 97 <= c as u32 <= 122 {
        ((c as u32 - 32) as u8) as char
    } else {
        c
    }
}

/// Swaps the case of an ASCII letter and keeps everything else.
pub open spec fn switch_char(c: char) -> char {
    if 65 <= c as u32 <= 90 {
        ((c as u32 + 32) as u8) as char
    } else if 97 <= c as u32 <= 122 {
        ((c as u32 - 32) as u8) as char
    } else {
        c
    }
}

pub fn to_lower_char(c: char) -> (r: char)
    ensures
        r == lower_char(c),
{
    let u = c as u32;
    if 65 <= u && u <= 90 {
        (u as u8 + 32) as char
    } else {
        c
    }
}

pub fn to_upper_char(c: char) -> (r: char)
    ensures
        r == upper_char(c),
{
    let u = c as u32;
    if 97 <= u && u <= 122 {
        (u as u8 - 32) as char
    } else {
        c
    }
}

pub fn to_switch_char(c: char) -> (r: char)
    ensures
        r == switch_char(c),
{
    let u = c as u32;
    if 65 <= u && u <= 90 {
        (u as u8 + 32) as char
    } else if 97 <= u && u <= 122 {
        (u as u8 - 32) as char
    } else {
        c
    }
}

/// A whole sequence folded to ASCII lower case.
pub open spec fn lower_seq(s: Seq<char>) -> Seq<char> {
    s.map_values(|c: char| lower_char(c))
}

/// Folds every character of `v` to ASCII lower case.
pub fn to_lower_vec(v: &Vec<char>) -> (r: Vec<char>)
    ensures
        r@ == lower_seq(v@),
{
    let n = v.len();
    let mut r: Vec<char> = Vec::new();
    let mut i: usize = 0;
    while i < n
        invariant
            n == v@.len(),
            i <= n,
            r@ == lower_seq(v@).subrange(0, i as int),
        decreases n - i,
    {
        r.push(to_lower_char(v[i]));
        i += 1;
        proof {
            assert(r@ =~= lower_seq(v@).subrange(0, i as int));
        }
    }
    proof {
        assert(r@ =~= lower_seq(v@));
    }
    r
}

/// A whole sequence folded to ASCII upper case.
pub open spec fn upper_seq(s: Seq<char>) -> Seq<char> {
    s.map_values(|c: char| upper_char(c))
}

/// A whole sequence with the case of every ASCII letter swapped.
pub open spec fn switch_seq(s: Seq<char>) -> Seq<char> {
    s.map_values(|c: char| switch_char(c))
}

/// Folds every character of `v` to ASCII upper case.
pub fn to_upper_vec(v: &Vec<char>) -> (r: Vec<char>)
    ensures
        r@ == upper_seq(v@),
{
    let n = v.len();
    let mut r: Vec<char> = Vec::new();
    let mut i: usize = 0;
    while i < n
        invariant
            n == v@.len(),
            i <= n,
            r@ == upper_seq(v@).subrange(0, i as int),
        decreases n - i,
    {
        r.push(to_upper_char(v[i]));
        i += 1;
        proof {
            assert(r@ =~= upper_seq(v@).subrange(0, i as int));
        }
    }
    proof {
        assert(r@ =~= upper_seq(v@));
    }
    r
}

/// Swaps the case of every ASCII letter of `v`.
pub fn to_switch_vec(v: &Vec<char>) -> (r: Vec<char>)
    ensures
        r@ == switch_seq(v@),
{
    let n = v.len();
    let mut r: Vec<char> = Vec::new();
    let mut i: usize = 0;
    while i < n
        invariant
            n == v@.len(),
            i <= n,
            r@ == switch_seq(v@).subrange(0, i as int),
        decreases n - i,
    {
        r.push(to_switch_char(v[i]));
        i += 1;
        proof {
            assert(r@ =~= switch_seq(v@).subrange(0, i as int));
        }
    }
    proof {
        assert(r@ =~= switch_seq(v@));
    }
    r
}

fn vec_eq(a: &Vec<char>, b: &Vec<char>) -> (r: bool)
    ensures
        r == (a@ == b@),
{
    let n = a.len();
    if n != b.len() {
        proof {
            assert(a@.len() != b@.len());
        }
        return false;
    }
    let mut i: usize = 0;
    while i < n
        invariant
            i <= n,
            n == a@.len(),
            n == b@.len(),
            forall|j: int| 0 <= j < i ==> a@[j] == b@[j],
        decreases n - i,
    {
        if a[i] != b[i] {
            return false;
        }
        i += 1;
    }
    proof {
        assert(a@ =~= b@);
    }
    true
}

/// Exact equality of two texts.
pub fn str_eq(a: &str, b: &str) -> (r: bool)
    ensures
        r == (a@ == b@),
{
    let va = chars_vec(a);
    let vb = chars_vec(b);
    vec_eq(&va, &vb)
}

/// Equality of two texts under ASCII lower-case folding.
pub fn str_eq_nocase(a: &str, b: &str) -> (r: bool)
    ensures
        r == (lower_seq(a@) == lower_seq(b@)),
{
    let va = chars_vec(a);
    let vb = chars_vec(b);
    vec_eq(&to_lower_vec(&va), &to_lower_vec(&vb))
}

/// The decimal digit character for one value below ten.
pub open spec fn digit_char(d: int) -> char {
    ((48 + d) as u8) as char
}

/// Decimal rendering of a natural number, most significant digit first.
pub open spec fn dec_of_nat(n: nat) -> Seq<char>
    decreases n,
{
    if n < 10 {
        seq![digit_char(n as int)]
    } else {
        dec_of_nat(n / 10).push(digit_char((n % 10) as int))
    }
}

/// Decimal rendering of an integer, with a leading minus sign when negative.
pub open spec fn dec_of_int(i: int) -> Seq<char> {
    if i < 0 {
        seq!['-'] + dec_of_nat((-i) as nat)
    } else {
        dec_of_nat(i as nat)
    }
}

fn push_dec_u64(n: u64, s: &mut String)
    ensures
        final(s)@ == old(s)@ + dec_of_nat(n as nat),
    decreases n,
{
    if n < 10 {
        push_char(s, (48 + n as u8) as char);
        proof {
            assert(final(s)@ =~= old(s)@ + dec_of_nat(n as nat));
        }
    } else {
        push_dec_u64(n / 10, s);
        push_char(s, (48 + (n % 10) as u8) as char);
        proof {
            assert(final(s)@ =~= old(s)@ + dec_of_nat(n as nat));
        }
    }
}

/// Appends the decimal rendering of a machine-size count.
pub fn push_dec_usize(n: usize, s: &mut String)
    ensures
        final(s)@ == old(s)@ + dec_of_nat(n as nat),
{
    push_dec_u64(n as u64, s);
}

/// The decimal string of a signed 64-bit integer.
pub fn int_to_string(i: i64) -> (r: String)
    ensures
        r@ == dec_of_int(i as int),
{
    let mut s = String::new();
    if i < 0 {
        push_char(&mut s, '-');
        let m: u64 = (-(i as i128)) as u64;
        push_dec_u64(m, &mut s);
        proof {
            assert(s@ =~= dec_of_int(i as int));
        }
    } else {
        push_dec_u64(i as u64, &mut s);
        proof {
            assert(s@ =~= dec_of_int(i as int));
        }
    }
    s
}

} // verus!
