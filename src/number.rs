//! Decimal integers as `str::parse::<u32>` and `str::parse::<i32>` read them.
use vstd::prelude::*;
use crate::size::{all_digits, digits_value, is_digit};

verus! {

/// `s` without one leading `+`, or also `-` when `minus` holds.
pub open spec fn unsigned_part(s: Seq<char>, minus: bool) -> Seq<char> {
    if s.len() > 0 && (s[0] == '+' || (minus && s[0] == '-')) {
        s.drop_first()
    } else {
        s
    }
}

/// An optional `+`, then one or more ASCII digits, of value at most `u32::MAX`.
pub open spec fn u32_of(s: Seq<char>) -> Option<int> {
    let b = unsigned_part(s, false);
    if b.len() > 0 && all_digits(b) && digits_value(b) <= u32::MAX {
        Some(digits_value(b) as int)
    } else {
        None
    }
}

/// An optional `+` or `-`, then one or more ASCII digits, of a value that
/// fits in `i32`.
pub open spec fn i32_of(s: Seq<char>) -> Option<int> {
    let b = unsigned_part(s, true);
    let v: int = if s.len() > 0 && s[0] == '-' {
        -digits_value(b)
    } else {
        digits_value(b) as int
    };
    if b.len() > 0 && all_digits(b) && i32::MIN <= v <= i32::MAX {
        Some(v)
    } else {
        None
    }
}

pub proof fn lemma_digits_value_prefix(s: Seq<char>, m: int)
    requires
        0 <= m <= s.len(),
    ensures
        digits_value(s.subrange(0, m)) <= digits_value(s),
    decreases s.len() - m,
{
    if m < s.len() {
        assert(s.drop_last().subrange(0, m) =~= s.subrange(0, m));
        lemma_digits_value_prefix(s.drop_last(), m);
    } else {
        assert(s.subrange(0, m) =~= s);
    }
}

/// The value of the digits `v[lo..]` when all are digits and the value is at
/// most `limit`.
fn digits_upto(v: &Vec<char>, lo: usize, limit: u64) -> (r: Option<u64>)
    requires
        lo <= v@.len(),
        limit >= 9,
    ensures
        match r {
            Some(x) => all_digits(v@.subrange(lo as int, v@.len() as int)) && digits_value(
                v@.subrange(lo as int, v@.len() as int),
            ) == x && x <= limit,
            None => !all_digits(v@.subrange(lo as int, v@.len() as int)) || digits_value(
                v@.subrange(lo as int, v@.len() as int),
            ) > limit,
        },
{
    let n = v.len();
    let ghost b = v@.subrange(lo as int, n as int);
    let mut acc: u64 = 0;
    let mut i: usize = lo;
    while i < n
        invariant
            n == v@.len(),
            lo <= i <= n,
            b == v@.subrange(lo as int, n as int),
            all_digits(v@.subrange(lo as int, i as int)),
            acc == digits_value(v@.subrange(lo as int, i as int)),
            acc <= limit,
            limit >= 9,
        decreases n - i,
    {
        let ghost next = v@.subrange(lo as int, i + 1);
        assert(next.drop_last() =~= v@.subrange(lo as int, i as int));
        let u = v[i] as u32;
        if u < 48 || u > 57 {
            assert(!is_digit(b[i - lo]));
            return None;
        }
        assert(all_digits(next)) by {
            assert forall|k: int| 0 <= k < next.len() implies is_digit(#[trigger] next[k]) by {
                if k < next.len() - 1 {
                    assert(next[k] == v@.subrange(lo as int, i as int)[k]);
                }
            }
        }
        let d = (u - 48) as u64;
        if acc > (limit - d) / 10 {
            proof {
                assert(acc * 10 + d > limit) by (nonlinear_arith)
                    requires
                        acc > (limit - d) / 10,
                        d <= limit,
                ;
                if all_digits(b) {
                    assert(b.subrange(0, i + 1 - lo) =~= next);
                    lemma_digits_value_prefix(b, i + 1 - lo);
                }
            }
            return None;
        }
        proof {
            assert(acc * 10 + d <= limit) by (nonlinear_arith)
                requires
                    acc <= (limit - d) / 10,
                    d <= 9,
            ;
        }
        acc = acc * 10 + d;
        i += 1;
    }
    Some(acc)
}

/// `str::parse::<u32>` (see `u32_of`).
pub fn parse_u32(v: &Vec<char>) -> (r: Option<u32>)
    ensures
        match r {
            Some(x) => u32_of(v@) == Some(x as int),
            None => u32_of(v@) is None,
        },
{
    let lo: usize = if v.len() > 0 && v[0] == '+' {
        1
    } else {
        0
    };
    let n = v.len();
    assert(lo == 1 ==> unsigned_part(v@, false) =~= v@.subrange(1, n as int));
    assert(lo == 0 ==> unsigned_part(v@, false) =~= v@.subrange(0, n as int));
    if lo == n {
        return None;
    }
    match digits_upto(v, lo, 4294967295) {
        Some(x) => Some(x as u32),
        None => None,
    }
}

/// `str::parse::<i32>` (see `i32_of`).
pub fn parse_i32(v: &Vec<char>) -> (r: Option<i32>)
    ensures
        match r {
            Some(x) => i32_of(v@) == Some(x as int),
            None => i32_of(v@) is None,
        },
{
    let n = v.len();
    let neg = n > 0 && v[0] == '-';
    let lo: usize = if n > 0 && (v[0] == '+' || v[0] == '-') {
        1
    } else {
        0
    };
    assert(lo == 1 ==> unsigned_part(v@, true) =~= v@.subrange(1, n as int));
    assert(lo == 0 ==> unsigned_part(v@, true) =~= v@.subrange(0, n as int));
    if lo == n {
        return None;
    }
    let limit: u64 = if neg {
        2147483648
    } else {
        2147483647
    };
    match digits_upto(v, lo, limit) {
        Some(x) => {
            if neg {
                Some((0 - (x as i64)) as i32)
            } else {
                Some(x as i32)
            }
        },
        None => None,
    }
}

} // verus!
