//! Human-readable sizes (`"12.5 MiB"`) to bytes, and signed size deltas.
//!
//! A magnitude is a decimal numeral: an optional `+`, digits with at most one
//! decimal separator (`.` or `,`), at least one digit and at most 24 digits in
//! all. It is scaled by a binary unit and rounded down to whole bytes. A size
//! that does not fit in `i64` is unknown, so that every delta is exact.
use vstd::prelude::*;
use crate::text::{
    chars_of, copy_range, find_char, index_of, is_literal, is_space, lemma_spans_shape,
    lemma_words_concat, lemma_words_word, no_space, span_view, spans, trim, trim_end, trim_start,
    trimmed, word_spans, words,
};

verus! {

pub open spec fn is_digit(c: char) -> bool {
    48 <= (c as u32) && (c as u32) <= 57
}

pub open spec fn all_digits(s: Seq<char>) -> bool {
    forall|i: int| 0 <= i < s.len() ==> is_digit(#[trigger] s[i])
}

/// The value of a string of decimal digits.
pub open spec fn digits_value(s: Seq<char>) -> nat
    decreases s.len(),
{
    if s.len() == 0 {
        0
    } else {
        digits_value(s.drop_last()) * 10 + ((s.last() as u32) - 48) as nat
    }
}

pub open spec fn pow10(n: nat) -> nat
    decreases n,
{
    if n == 0 {
        1
    } else {
        10 * pow10((n - 1) as nat)
    }
}

/// The most digits a magnitude may have.
pub const MAX_DIGITS: usize = 24;

/// A decimal numeral as (digits without the separator, digits after it).
pub open spec fn decimal(s: Seq<char>) -> Option<(Seq<char>, nat)> {
    let b = if s.len() > 0 && s[0] == '+' {
        s.drop_first()
    } else {
        s
    };
    let k = index_of(b, '.');
    if k < 0 {
        if 0 < b.len() <= MAX_DIGITS && all_digits(b) {
            Some((b, 0nat))
        } else {
            None
        }
    } else {
        let ip = b.subrange(0, k);
        let fp = b.subrange(k + 1, b.len() as int);
        if all_digits(ip) && all_digits(fp) && 0 < ip.len() + fp.len() <= MAX_DIGITS {
            Some((ip + fp, fp.len()))
        } else {
            None
        }
    }
}

/// A comma decimal separator read as a dot.
pub open spec fn comma_to_dot(s: Seq<char>) -> Seq<char> {
    s.map_values(
        |c: char|
            if c == ',' {
                '.'
            } else {
                c
            },
    )
}

/// Bytes per unit.
pub open spec fn unit_multiplier(u: Seq<char>) -> Option<nat> {
    if u == "B"@ {
        Some(1nat)
    } else if u == "KiB"@ {
        Some(1024nat)
    } else if u == "MiB"@ {
        Some(1048576nat)
    } else if u == "GiB"@ {
        Some(1073741824nat)
    } else if u == "TiB"@ {
        Some(1099511627776nat)
    } else {
        None
    }
}

/// The number of bytes that a size string denotes, or `None` when unknown.
pub open spec fn size_of(s: Seq<char>) -> Option<int> {
    let t = trim(s);
    if t == "Unknown"@ || t.len() == 0 {
        None
    } else if words(t).len() != 2 {
        None
    } else {
        match (decimal(comma_to_dot(words(t)[0])), unit_multiplier(words(t)[1])) {
            (Some(d), Some(u)) => {
                let v = digits_value(d.0) * u / pow10(d.1);
                if v <= i64::MAX {
                    Some(v as int)
                } else {
                    None
                }
            },
            _ => None,
        }
    }
}

/// The signed size change from `current` to `new`; 0 when either is unknown.
pub open spec fn size_delta(current: Seq<char>, new: Seq<char>) -> int {
    match (size_of(current), size_of(new)) {
        (Some(a), Some(b)) => b - a,
        _ => 0,
    }
}

pub proof fn lemma_digits_value_bound(s: Seq<char>)
    requires
        all_digits(s),
    ensures
        digits_value(s) < pow10(s.len()),
    decreases s.len(),
{
    if s.len() > 0 {
        let p = s.drop_last();
        assert(all_digits(p)) by {
            assert forall|i: int| 0 <= i < p.len() implies is_digit(#[trigger] p[i]) by {
                assert(p[i] == s[i]);
            }
        }
        lemma_digits_value_bound(p);
        assert(is_digit(s[s.len() - 1]));
        let v = digits_value(p);
        let d = ((s.last() as u32) - 48) as nat;
        let q = pow10(p.len());
        assert(v * 10 + d < 10 * q) by (nonlinear_arith)
            requires
                v < q,
                d <= 9,
        ;
    }
}

fn pow10_exec(n: usize) -> (r: u128)
    requires
        n <= MAX_DIGITS,
    ensures
        r == pow10(n as nat),
        r <= 1_000_000_000_000_000_000_000_000u128,
{
    let mut r: u128 = 1;
    let mut i: usize = 0;
    while i < n
        invariant
            i <= n <= MAX_DIGITS,
            r == pow10(i as nat),
        decreases n - i,
    {
        proof {
            lemma_pow10_bound((i + 1) as nat);
        }
        r = r * 10;
        i += 1;
    }
    proof {
        lemma_pow10_bound(n as nat);
    }
    r
}

pub proof fn lemma_pow10_bound(n: nat)
    requires
        n <= MAX_DIGITS,
    ensures
        1 <= pow10(n) <= 1_000_000_000_000_000_000_000_000,
{
    lemma_pow10_monotone(n, MAX_DIGITS as nat);
    reveal_with_fuel(pow10, 25);
}

pub proof fn lemma_pow10_monotone(a: nat, b: nat)
    requires
        a <= b,
    ensures
        1 <= pow10(a) <= pow10(b),
    decreases b,
{
    if a < b {
        lemma_pow10_monotone(a, (b - 1) as nat);
    } else if b > 0 {
        lemma_pow10_monotone((a - 1) as nat, (b - 1) as nat);
    }
}

fn all_digits_exec(v: &Vec<char>) -> (r: bool)
    ensures
        r == all_digits(v@),
{
    let mut i: usize = 0;
    while i < v.len()
        invariant
            i <= v@.len(),
            forall|k: int| 0 <= k < i ==> is_digit(#[trigger] v@[k]),
        decreases v@.len() - i,
    {
        let u = v[i] as u32;
        if u < 48 || u > 57 {
            return false;
        }
        i += 1;
    }
    true
}

pub(crate) fn digits_value_exec(d: &Vec<char>) -> (r: u128)
    requires
        all_digits(d@),
        d@.len() <= MAX_DIGITS,
    ensures
        r == digits_value(d@),
{
    let mut acc: u128 = 0;
    let mut i: usize = 0;
    while i < d.len()
        invariant
            i <= d@.len() <= MAX_DIGITS,
            all_digits(d@),
            acc == digits_value(d@.subrange(0, i as int)),
        decreases d@.len() - i,
    {
        let ghost next = d@.subrange(0, i + 1);
        assert(next.drop_last() =~= d@.subrange(0, i as int));
        assert(all_digits(next)) by {
            assert forall|k: int| 0 <= k < next.len() implies is_digit(#[trigger] next[k]) by {
                assert(next[k] == d@[k]);
            }
        }
        proof {
            lemma_digits_value_bound(next);
            lemma_pow10_bound(next.len());
        }
        assert(is_digit(d@[i as int]));
        let digit = (d[i] as u32 - 48) as u128;
        acc = acc * 10 + digit;
        i += 1;
    }
    assert(d@.subrange(0, d@.len() as int) =~= d@);
    acc
}

fn comma_to_dot_exec(v: &Vec<char>) -> (r: Vec<char>)
    ensures
        r@ == comma_to_dot(v@),
{
    let mut r: Vec<char> = Vec::new();
    let mut i: usize = 0;
    while i < v.len()
        invariant
            i <= v@.len(),
            r@ == comma_to_dot(v@.subrange(0, i as int)),
        decreases v@.len() - i,
    {
        let c = v[i];
        if c == ',' {
            r.push('.');
        } else {
            r.push(c);
        }
        assert(r@ =~= comma_to_dot(v@.subrange(0, i + 1)));
        i += 1;
    }
    assert(v@.subrange(0, v@.len() as int) =~= v@);
    r
}

fn decimal_exec(m: &Vec<char>) -> (r: Option<(Vec<char>, usize)>)
    ensures
        match r {
            Some(d) => decimal(m@) == Some((d.0@, d.1 as nat)) && d.0@.len() <= MAX_DIGITS
                && all_digits(d.0@),
            None => decimal(m@) is None,
        },
{
    let start: usize = if m.len() > 0 && m[0] == '+' {
        1
    } else {
        0
    };
    let b = copy_range(m, start, m.len());
    assert(start == 1 ==> b@ =~= m@.drop_first());
    assert(start == 0 ==> b@ =~= m@);
    match find_char(&b, '.') {
        None => {
            if b.len() > 0 && b.len() <= MAX_DIGITS && all_digits_exec(&b) {
                Some((b, 0))
            } else {
                None
            }
        },
        Some(k) => {
            let ip = copy_range(&b, 0, k);
            let fp = copy_range(&b, k + 1, b.len());
            if all_digits_exec(&ip) && all_digits_exec(&fp) && ip.len() + fp.len() > 0 && ip.len()
                + fp.len() <= MAX_DIGITS {
                let mut d = ip;
                let mut j: usize = 0;
                while j < fp.len()
                    invariant
                        j <= fp@.len(),
                        d@ == ip@ + fp@.subrange(0, j as int),
                    decreases fp@.len() - j,
                {
                    d.push(fp[j]);
                    assert(d@ =~= ip@ + fp@.subrange(0, j + 1));
                    j += 1;
                }
                assert(fp@.subrange(0, fp@.len() as int) =~= fp@);
                assert(all_digits(d@)) by {
                    assert forall|i: int| 0 <= i < d@.len() implies is_digit(#[trigger] d@[i]) by {
                        if i < ip@.len() {
                            assert(d@[i] == ip@[i]);
                        } else {
                            assert(d@[i] == fp@[i - ip@.len()]);
                        }
                    }
                }
                Some((d, fp.len()))
            } else {
                None
            }
        },
    }
}

fn unit_exec(u: &Vec<char>) -> (r: Option<u128>)
    ensures
        match r {
            Some(x) => unit_multiplier(u@) == Some(x as nat),
            None => unit_multiplier(u@) is None,
        },
{
    if is_literal(u, "B") {
        Some(1)
    } else if is_literal(u, "KiB") {
        Some(1024)
    } else if is_literal(u, "MiB") {
        Some(1048576)
    } else if is_literal(u, "GiB") {
        Some(1073741824)
    } else if is_literal(u, "TiB") {
        Some(1099511627776)
    } else {
        None
    }
}

/// The bytes that the size string `v` denotes (see `size_of`).
pub fn parse_size_chars(v: &Vec<char>) -> (r: Option<u64>)
    ensures
        match r {
            Some(x) => size_of(v@) == Some(x as int),
            None => size_of(v@) is None,
        },
{
    let t = trimmed(v);
    if is_literal(&t, "Unknown") || t.len() == 0 {
        return None;
    }
    let sp = word_spans(&t);
    proof {
        lemma_spans_shape(t@);
    }
    if sp.len() != 2 {
        return None;
    }
    assert(span_view(sp@)[0] == spans(t@)[0]);
    assert(span_view(sp@)[1] == spans(t@)[1]);
    let w0 = copy_range(&t, sp[0].0, sp[0].1);
    let w1 = copy_range(&t, sp[1].0, sp[1].1);
    assert(w0@ == words(t@)[0]);
    assert(w1@ == words(t@)[1]);
    let mag = comma_to_dot_exec(&w0);
    let d = match decimal_exec(&mag) {
        Some(d) => d,
        None => {
            return None;
        },
    };
    let u = match unit_exec(&w1) {
        Some(u) => u,
        None => {
            return None;
        },
    };
    let m = digits_value_exec(&d.0);
    let p = pow10_exec(d.1);
    proof {
        lemma_digits_value_bound(d.0@);
        lemma_pow10_bound(d.0@.len());
        lemma_pow10_bound(d.1 as nat);
        assert(m * u <= 1_000_000_000_000_000_000_000_000u128 * 1099511627776u128) by (
        nonlinear_arith)
            requires
                m <= 1_000_000_000_000_000_000_000_000u128,
                u <= 1099511627776u128,
        ;
    }
    let bytes = m * u / p;
    if bytes <= 9223372036854775807u128 {
        Some(bytes as u64)
    } else {
        None
    }
}

/// The bytes that a size string such as `"12.5 MiB"` denotes, or `None`
/// when it is `"Unknown"`, empty, or not a magnitude and a known unit.
pub fn parse_size_string(size_str: &str) -> (r: Option<u64>)
    ensures
        match r {
            Some(x) => size_of(size_str@) == Some(x as int),
            None => size_of(size_str@) is None,
        },
{
    let v = chars_of(size_str);
    parse_size_chars(&v)
}

/// The signed change in bytes from `current_size_str` to `new_size_str`;
/// 0 when either is unknown.
pub fn calculate_size_difference(current_size_str: &str, new_size_str: &str) -> (r: i64)
    ensures
        r == size_delta(current_size_str@, new_size_str@),
{
    let current = parse_size_string(current_size_str);
    let new = parse_size_string(new_size_str);
    match (current, new) {
        (Some(a), Some(b)) => b as i64 - a as i64,
        _ => 0,
    }
}

pub proof fn lemma_digits_no_dot(d: Seq<char>)
    requires
        all_digits(d),
    ensures
        index_of(d, '.') == -1,
        comma_to_dot(d) == d,
        no_space(d),
    decreases d.len(),
{
    if d.len() > 0 {
        let p = d.drop_last();
        assert(all_digits(p)) by {
            assert forall|i: int| 0 <= i < p.len() implies is_digit(#[trigger] p[i]) by {
                assert(p[i] == d[i]);
            }
        }
        lemma_digits_no_dot(p);
        assert(is_digit(d[d.len() - 1]));
    }
    assert(comma_to_dot(d) =~= d) by {
        assert forall|i: int| 0 <= i < d.len() implies comma_to_dot(d)[i] == d[i] by {
            assert(is_digit(d[i]));
        }
    }
    assert forall|i: int| 0 <= i < d.len() implies !is_space(#[trigger] d[i]) by {
        assert(is_digit(d[i]));
    }
}

/// A text whose first and last characters are not whitespace is its own trim.
pub proof fn lemma_trim_tight(s: Seq<char>)
    requires
        s.len() > 0,
        !is_space(s[0]),
        !is_space(s.last()),
    ensures
        trim(s) == s,
{
    assert(trim_start(s) == s);
    assert(trim_end(s) == s);
}

pub proof fn lemma_units_have_no_space(u: Seq<char>)
    requires
        unit_multiplier(u) is Some,
    ensures
        u.len() > 0,
        no_space(u),
{
    reveal_strlit("B");
    reveal_strlit("KiB");
    reveal_strlit("MiB");
    reveal_strlit("GiB");
    reveal_strlit("TiB");
    assert forall|i: int| 0 <= i < u.len() implies !is_space(#[trigger] u[i]) by {
        assert(u[i] == 'B' || u[i] == 'K' || u[i] == 'M' || u[i] == 'G' || u[i] == 'T' || u[i]
            == 'i');
    }
}

/// A size written as whole digits, a space and a unit of the table denotes
/// the digits' value times the unit's bytes.
pub proof fn lemma_size_of_whole(d: Seq<char>, u: Seq<char>)
    requires
        0 < d.len() <= MAX_DIGITS,
        all_digits(d),
        unit_multiplier(u) is Some,
        digits_value(d) * unit_multiplier(u)->0 <= i64::MAX,
    ensures
        size_of(d + " "@ + u) == Some((digits_value(d) * unit_multiplier(u)->0) as int),
{
    reveal_strlit(" ");
    reveal_strlit("Unknown");
    let s = d + seq![' '] + u;
    assert(d + " "@ + u =~= s);
    lemma_units_have_no_space(u);
    lemma_digits_no_dot(d);
    assert(s[0] == d[0]);
    assert(is_digit(d[0]));
    assert(s.last() == u.last());
    lemma_trim_tight(s);
    assert(s != "Unknown"@) by {
        assert("Unknown"@[0] == 'U');
    }
    lemma_words_word(d);
    lemma_words_word(u);
    lemma_words_concat(d, u);
    assert(words(s) =~= seq![d, u]);
    assert(d[0] != '+');
    let m = unit_multiplier(u)->0;
    assert(pow10(0) == 1);
    let v = digits_value(d) * m;
    assert(v / 1 == v);
}

/// A size of "Unknown" is unknown.
pub proof fn lemma_unknown_size()
    ensures
        size_of("Unknown"@) is None,
{
    reveal_strlit("Unknown");
    lemma_trim_tight("Unknown"@);
}

/// Size deltas across units: for sizes written as whole digits and a unit
/// of the table, matching or not, the delta is exactly the new size in bytes
/// minus the current one (negative when the package shrinks); when either
/// side is "Unknown" the delta is 0.
pub proof fn lemma_size_delta_exact(d1: Seq<char>, u1: Seq<char>, d2: Seq<char>, u2: Seq<char>)
    requires
        0 < d1.len() <= MAX_DIGITS,
        all_digits(d1),
        unit_multiplier(u1) is Some,
        digits_value(d1) * unit_multiplier(u1)->0 <= i64::MAX,
        0 < d2.len() <= MAX_DIGITS,
        all_digits(d2),
        unit_multiplier(u2) is Some,
        digits_value(d2) * unit_multiplier(u2)->0 <= i64::MAX,
    ensures
        size_delta(d1 + " "@ + u1, d2 + " "@ + u2) == digits_value(d2) * unit_multiplier(u2)->0
            - digits_value(d1) * unit_multiplier(u1)->0,
        size_delta("Unknown"@, d2 + " "@ + u2) == 0,
        size_delta(d1 + " "@ + u1, "Unknown"@) == 0,
{
    lemma_size_of_whole(d1, u1);
    lemma_size_of_whole(d2, u2);
    lemma_unknown_size();
}

} // verus!
