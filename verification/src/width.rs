//! Width model: the minimum column width that right-aligns a set of signed
//! integers, counting decimal digits and, for signed fields, a `'-'` column.

use vstd::prelude::*;

use crate::text::digit_count;

verus! {

/// Width needed for one value: its digit count, plus one for the sign when
/// the value is negative and the field is rendered signed.
pub open spec fn value_width(v: int, signed: bool) -> nat {
    digit_count(if v < 0 {
        -v
    } else {
        v
    }) + if signed && v < 0 {
        1nat
    } else {
        0nat
    }
}

/// Minimum width that right-aligns every value of `vs`; at least 1 even for
/// an empty sequence.
pub open spec fn field_width(vs: Seq<int>, signed: bool) -> nat
    decreases vs.len(),
{
    if vs.len() == 0 {
        1
    } else {
        let rest = field_width(vs.drop_last(), signed);
        let last = value_width(vs.last(), signed);
        if last >= rest {
            last
        } else {
            rest
        }
    }
}

/// Digit count of the magnitude of a machine integer, as a checked loop.
pub fn i64_digit_count(v: i64) -> (r: u32)
    ensures
        r == digit_count(if v < 0 {
            -(v as int)
        } else {
            v as int
        }),
        1 <= r <= 20,
{
    let mut m: u64 = if v == i64::MIN {
        9223372036854775808u64
    } else if v < 0 {
        (-v) as u64
    } else {
        v as u64
    };
    assert(m as int == if v < 0 {
        -(v as int)
    } else {
        v as int
    });
    let mut r: u32 = 1;
    proof {
        lemma_digit_count_bound(m as int);
    }
    let ghost m0 = m as int;
    while m >= 10
        invariant
            r + digit_count(m as int) == 1 + digit_count(m0),
            1 <= r,
            r + digit_count(m as int) <= 21,
        decreases m,
    {
        m = m / 10;
        r = r + 1;
    }
    r
}

/// Any unsigned 64-bit value has at most 20 decimal digits.
pub proof fn lemma_digit_count_bound(n: int)
    requires
        0 <= n < 18446744073709551616,
    ensures
        1 <= digit_count(n) <= 20,
{
    lemma_digit_count_monotone(n, 18446744073709551615);
    assert(digit_count(18446744073709551615) == 20) by {
        reveal_with_fuel(digit_count, 21);
    }
}

/// More digits never come from a smaller magnitude.
pub proof fn lemma_digit_count_monotone(a: int, b: int)
    requires
        0 <= a <= b,
    ensures
        digit_count(a) <= digit_count(b),
    decreases b,
{
    if b >= 10 {
        if a >= 10 {
            lemma_digit_count_monotone(a / 10, b / 10);
        }
    }
}

/// Every decimal digit count is at least 1.
pub proof fn lemma_digit_count_pos(n: int)
    ensures
        digit_count(n) >= 1,
{
}

/// The width of a single unsigned value is its digit count, and the width of
/// its negation in a signed field is its digit count plus one for the sign,
/// except that zero needs no sign.
pub proof fn lemma_single_value_width(v: int)
    requires
        v >= 0,
    ensures
        field_width(seq![v], false) == digit_count(v),
        field_width(seq![-v], true) == digit_count(v) + if v > 0 {
            1int
        } else {
            0int
        },
{
    lemma_digit_count_pos(v);
    assert(seq![v].drop_last() =~= Seq::<int>::empty());
    assert(seq![v].last() == v);
    assert(seq![-v].drop_last() =~= Seq::<int>::empty());
    assert(seq![-v].last() == -v);
    assert(field_width(Seq::<int>::empty(), false) == 1);
    assert(field_width(Seq::<int>::empty(), true) == 1);
    assert(value_width(v, false) == digit_count(v));
    assert(value_width(-v, true) == digit_count(v) + if v > 0 {
        1int
    } else {
        0int
    });
}

/// Width needed for one value.
pub fn compute_value_width(v: i64, signed: bool) -> (r: u32)
    ensures
        r == value_width(v as int, signed),
        1 <= r <= 21,
{
    let d = i64_digit_count(v);
    if signed && v < 0 {
        d + 1
    } else {
        d
    }
}

/// Minimum width that right-aligns every value of `values`, including a sign
/// column when `signed` is set; at least 1.
pub fn compute_field_width(values: &Vec<i64>, signed: bool) -> (r: u32)
    ensures
        r == field_width(values@.map_values(|v: i64| v as int), signed),
        1 <= r <= 21,
{
    let ghost vs = values@.map_values(|v: i64| v as int);
    let mut r: u32 = 1;
    let mut i: usize = 0;
    let n = values.len();
    while i < n
        invariant
            n == values@.len(),
            vs == values@.map_values(|v: i64| v as int),
            i <= n,
            r == field_width(vs.subrange(0, i as int), signed),
            1 <= r <= 21,
        decreases n - i,
    {
        let w = compute_value_width(values[i], signed);
        if w > r {
            r = w;
        }
        proof {
            assert(vs.subrange(0, i + 1).drop_last() =~= vs.subrange(0, i as int));
            assert(vs.subrange(0, i + 1).last() == vs[i as int]);
        }
        i = i + 1;
    }
    proof {
        assert(vs.subrange(0, n as int) =~= vs);
    }
    r
}

} // verus!
