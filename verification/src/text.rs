//! Text primitives shared by the classifier, the row formatter and the table
//! layout engine: decimal rendering of integers, padding, and conversions
//! between `String` and `Vec<char>`.
//!
//! All executable text manipulation in this crate works on `Vec<char>`, whose
//! view is the same `Seq<char>` as the view of a `String`; a string is built
//! once, at the very end, from the finished character vector.

use vstd::prelude::*;

verus! {

/// The views of a sequence of character vectors.
pub open spec fn chars_view(v: Seq<Vec<char>>) -> Seq<Seq<char>> {
    Seq::new(v.len(), |i: int| v[i]@)
}

/// The views of a sequence of strings.
pub open spec fn strs_view(v: Seq<String>) -> Seq<Seq<char>> {
    Seq::new(v.len(), |i: int| v[i]@)
}

/// The views of a matrix of character vectors.
pub open spec fn char_matrix_view(v: Seq<Vec<Vec<char>>>) -> Seq<Seq<Seq<char>>> {
    Seq::new(v.len(), |i: int| chars_view(v[i]@))
}

/// The views of a matrix of strings.
pub open spec fn str_matrix_view(v: Seq<Vec<String>>) -> Seq<Seq<Seq<char>>> {
    Seq::new(v.len(), |i: int| strs_view(v[i]@))
}

/// The character for one decimal digit value.
pub open spec fn digit_char(d: int) -> char {
    if d == 0 {
        '0'
    } else if d == 1 {
        '1'
    } else if d == 2 {
        '2'
    } else if d == 3 {
        '3'
    } else if d == 4 {
        '4'
    } else if d == 5 {
        '5'
    } else if d == 6 {
        '6'
    } else if d == 7 {
        '7'
    } else if d == 8 {
        '8'
    } else {
        '9'
    }
}

/// Decimal digits of a non-negative integer, most significant first.
/// `0` renders as `"0"`.
pub open spec fn dec_digits(n: int) -> Seq<char>
    recommends
        n >= 0,
    decreases n,
{
    if n < 10 {
        seq![digit_char(n)]
    } else {
        dec_digits(n / 10).push(digit_char(n % 10))
    }
}

/// Decimal rendering of an integer: a leading `'-'` for negative values,
/// no sign otherwise.
pub open spec fn int_chars(v: int) -> Seq<char> {
    if v < 0 {
        seq!['-'] + dec_digits(-v)
    } else {
        dec_digits(v)
    }
}

/// Decimal rendering of an integer with a mandatory sign: a leading `'+'`
/// for non-negative values, `'-'` otherwise.
pub open spec fn signed_int_chars(v: int) -> Seq<char> {
    if v < 0 {
        seq!['-'] + dec_digits(-v)
    } else {
        seq!['+'] + dec_digits(v)
    }
}

/// `n` copies of the character `c`.
pub open spec fn char_repeat(c: char, n: nat) -> Seq<char> {
    Seq::new(n, |i: int| c)
}

/// `s` right-aligned in a field of width `w`, padded on the left with `fill`.
/// A value longer than `w` is kept whole.
pub open spec fn pad_left(s: Seq<char>, w: nat, fill: char) -> Seq<char> {
    if s.len() >= w {
        s
    } else {
        char_repeat(fill, (w - s.len()) as nat) + s
    }
}

/// `s` left-aligned in a field of width `w`, padded on the right with `fill`.
/// A value longer than `w` is kept whole.
pub open spec fn pad_right(s: Seq<char>, w: nat, fill: char) -> Seq<char> {
    if s.len() >= w {
        s
    } else {
        s + char_repeat(fill, (w - s.len()) as nat)
    }
}

/// Number of decimal digits of a non-negative integer (`digits(0) == 1`).
pub open spec fn digit_count(n: int) -> nat
    recommends
        n >= 0,
    decreases n,
{
    if n < 10 {
        1
    } else {
        1 + digit_count(n / 10)
    }
}

pub fn digit_to_char(d: u64) -> (c: char)
    requires
        d < 10,
    ensures
        c == digit_char(d as int),
{
    if d == 0 {
        '0'
    } else if d == 1 {
        '1'
    } else if d == 2 {
        '2'
    } else if d == 3 {
        '3'
    } else if d == 4 {
        '4'
    } else if d == 5 {
        '5'
    } else if d == 6 {
        '6'
    } else if d == 7 {
        '7'
    } else if d == 8 {
        '8'
    } else {
        '9'
    }
}

/// Decimal digits of `n`, most significant first.
pub fn u64_chars(n: u64) -> (r: Vec<char>)
    ensures
        r@ == dec_digits(n as int),
    decreases n,
{
    if n < 10 {
        let mut r: Vec<char> = Vec::new();
        r.push(digit_to_char(n));
        proof {
            assert(r@ =~= dec_digits(n as int));
        }
        r
    } else {
        let mut r = u64_chars(n / 10);
        r.push(digit_to_char(n % 10));
        proof {
            assert(r@ =~= dec_digits(n as int));
        }
        r
    }
}

/// Decimal rendering of `v`, with a leading `'-'` when negative.
pub fn i64_chars(v: i64) -> (r: Vec<char>)
    ensures
        r@ == int_chars(v as int),
{
    if v >= 0 {
        u64_chars(v as u64)
    } else {
        let m: u64 = if v == i64::MIN {
            9223372036854775808u64
        } else {
            (-v) as u64
        };
        assert(m as int == -(v as int));
        let mut r: Vec<char> = Vec::new();
        r.push('-');
        let digits = u64_chars(m);
        push_all(&mut r, &digits);
        proof {
            assert(r@ =~= int_chars(v as int));
        }
        r
    }
}

/// Decimal rendering of `v` with a mandatory leading sign.
pub fn i64_signed_chars(v: i64) -> (r: Vec<char>)
    ensures
        r@ == signed_int_chars(v as int),
{
    if v >= 0 {
        let mut r: Vec<char> = Vec::new();
        r.push('+');
        let digits = u64_chars(v as u64);
        push_all(&mut r, &digits);
        proof {
            assert(r@ =~= signed_int_chars(v as int));
        }
        r
    } else {
        i64_chars(v)
    }
}

/// Appends every character of `src` to `dst`, in order.
pub fn push_all(dst: &mut Vec<char>, src: &Vec<char>)
    ensures
        final(dst)@ == old(dst)@ + src@,
{
    let n = src.len();
    let mut i: usize = 0;
    while i < n
        invariant
            n == src@.len(),
            i <= n,
            dst@ == old(dst)@ + src@.subrange(0, i as int),
        decreases n - i,
    {
        dst.push(src[i]);
        proof {
            assert(dst@ =~= old(dst)@ + src@.subrange(0, i + 1));
        }
        i = i + 1;
    }
    proof {
        assert(dst@ =~= old(dst)@ + src@);
    }
}

/// `n` copies of `c` as a vector.
pub fn repeat_chars(c: char, n: usize) -> (r: Vec<char>)
    ensures
        r@ == char_repeat(c, n as nat),
{
    let mut r: Vec<char> = Vec::new();
    let mut i: usize = 0;
    while i < n
        invariant
            i <= n,
            r@ == char_repeat(c, i as nat),
        decreases n - i,
    {
        r.push(c);
        proof {
            assert(r@ =~= char_repeat(c, (i + 1) as nat));
        }
        i = i + 1;
    }
    r
}

/// `s` right-aligned to width `w`, left-padded with `fill`.
pub fn pad_left_chars(s: &Vec<char>, w: usize, fill: char) -> (r: Vec<char>)
    ensures
        r@ == pad_left(s@, w as nat, fill),
{
    let len = s.len();
    if len >= w {
        let mut r: Vec<char> = Vec::new();
        push_all(&mut r, s);
        proof {
            assert(r@ =~= pad_left(s@, w as nat, fill));
        }
        r
    } else {
        let mut r = repeat_chars(fill, w - len);
        push_all(&mut r, s);
        r
    }
}

/// `s` left-aligned to width `w`, right-padded with `fill`.
pub fn pad_right_chars(s: &Vec<char>, w: usize, fill: char) -> (r: Vec<char>)
    ensures
        r@ == pad_right(s@, w as nat, fill),
{
    let len = s.len();
    let mut r: Vec<char> = Vec::new();
    push_all(&mut r, s);
    if len < w {
        let pad = repeat_chars(fill, w - len);
        push_all(&mut r, &pad);
    }
    proof {
        assert(r@ =~= pad_right(s@, w as nat, fill));
    }
    r
}

/// The characters of `s`, in order.
pub fn str_chars(s: &str) -> (r: Vec<char>)
    ensures
        r@ == s@,
{
    let n = s.unicode_len();
    let mut r: Vec<char> = Vec::new();
    let mut i: usize = 0;
    while i < n
        invariant
            n == s@.len(),
            i <= n,
            r@ == s@.subrange(0, i as int),
        decreases n - i,
    {
        r.push(s.get_char(i));
        proof {
            assert(r@ =~= s@.subrange(0, i + 1));
        }
        i = i + 1;
    }
    proof {
        assert(r@ =~= s@);
    }
    r
}

/// Relies on `String`'s `FromIterator<char>` implementation: collecting an
/// iterator of characters yields the string of exactly those characters in
/// order.
#[verifier::external_body]
pub(crate) fn chars_to_string(v: &Vec<char>) -> (r: String)
    ensures
        r@ == v@,
{
    v.iter().collect()
}

} // verus!
