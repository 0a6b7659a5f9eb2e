//! Decimal rendering of the numbers that appear in display rows: broker
//! ids, ports, partition ids, offsets and counts.

use vstd::prelude::*;
use vstd::string::StringExecFns;

verus! {

/// The decimal digit character for one digit value.
pub open spec fn digit_char(d: int) -> char {
    if d == 0 {
        '0'
    } else if d == 1 {
        '1'
    } else if d == 2 {
        '2'
    } else if d == 3 {
        '3'
    } else if d == 4 {
        '4'
    } else if d == 5 {
        '5'
    } else if d == 6 {
        '6'
    } else if d == 7 {
        '7'
    } else if d == 8 {
        '8'
    } else {
        '9'
    }
}

/// The decimal digits of a non-negative value, most significant first.
pub open spec fn spec_udec(n: int) -> Seq<char>
    recommends
        n >= 0,
    decreases n,
{
    if n < 10 {
        seq![digit_char(n)]
    } else {
        spec_udec(n / 10) + seq![digit_char(n % 10)]
    }
}

/// The decimal rendering of a signed value: a minus sign before the
/// digits when negative.
pub open spec fn spec_idec(n: int) -> Seq<char> {
    if n < 0 {
        seq!['-'] + spec_udec(-n)
    } else {
        spec_udec(n)
    }
}

/// The one-character string for a digit value.
fn digit_str(d: u64) -> (s: &'static str)
    requires
        d < 10,
    ensures
        s@ == seq![digit_char(d as int)],
{
    proof {
        reveal_strlit("0");
        reveal_strlit("1");
        reveal_strlit("2");
        reveal_strlit("3");
        reveal_strlit("4");
        reveal_strlit("5");
        reveal_strlit("6");
        reveal_strlit("7");
        reveal_strlit("8");
        reveal_strlit("9");
    }
    if d == 0 {
        "0"
    } else if d == 1 {
        "1"
    } else if d == 2 {
        "2"
    } else if d == 3 {
        "3"
    } else if d == 4 {
        "4"
    } else if d == 5 {
        "5"
    } else if d == 6 {
        "6"
    } else if d == 7 {
        "7"
    } else if d == 8 {
        "8"
    } else {
        "9"
    }
}

/// Renders an unsigned value in decimal.
pub fn u64_to_string(n: u64) -> (r: String)
    ensures
        r@ == spec_udec(n as int),
    decreases n,
{
    if n < 10 {
        String::from_str(digit_str(n))
    } else {
        let mut r = u64_to_string(n / 10);
        r.append(digit_str(n % 10));
        r
    }
}

/// Renders a signed value in decimal, with a minus sign when negative.
pub fn i64_to_string(n: i64) -> (r: String)
    ensures
        r@ == spec_idec(n as int),
{
    if n < 0 {
        let magnitude: u64 = ((-(n as i128)) as u64);
        let mut r = String::from_str("-");
        let digits = u64_to_string(magnitude);
        r.append(digits.as_str());
        proof {
            reveal_strlit("-");
            assert(r@ =~= seq!['-'] + spec_udec(-(n as int)));
        }
        r
    } else {
        u64_to_string(n as u64)
    }
}

/// Renders a partition or broker id in decimal.
pub fn i32_to_string(n: i32) -> (r: String)
    ensures
        r@ == spec_idec(n as int),
{
    i64_to_string(n as i64)
}

/// Renders a count in decimal.
pub fn usize_to_string(n: usize) -> (r: String)
    ensures
        r@ == spec_udec(n as int),
{
    u64_to_string(n as u64)
}

/// The display form of a partition list from index `i` on: the ids in
/// decimal, separated by a comma and a space.
pub open spec fn spec_join_partitions(parts: Seq<i32>, i: int) -> Seq<char>
    decreases parts.len() - i,
{
    if i < 0 || i >= parts.len() {
        Seq::empty()
    } else {
        let sep: Seq<char> = if i > 0 {
            ", "@
        } else {
            Seq::empty()
        };
        sep + spec_idec(parts[i] as int) + spec_join_partitions(parts, i + 1)
    }
}

/// Renders a partition list as `id, id, id`.
#[verifier::loop_isolation(false)]
pub fn join_partitions(parts: &Vec<i32>) -> (r: String)
    ensures
        r@ == spec_join_partitions(parts@, 0),
{
    let mut r = String::new();
    let mut k: usize = 0;
    while k < parts.len()
        invariant
            k <= parts.len(),
            spec_join_partitions(parts@, 0) == r@ + spec_join_partitions(parts@, k as int),
        decreases parts.len() - k,
    {
        if k > 0 {
            r.append(", ");
        }
        let piece = i32_to_string(parts[k]);
        r.append(piece.as_str());
        k = k + 1;
    }
    proof {
        assert(spec_join_partitions(parts@, parts@.len() as int) =~= Seq::<char>::empty());
        assert(r@ + spec_join_partitions(parts@, parts@.len() as int) =~= r@);
    }
    r
}

} // verus!
