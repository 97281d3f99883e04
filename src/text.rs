//! Character-level text handling shared by every parser of the library:
//! whitespace, trimming, words, lines and substring search, each with a
//! mathematical definition over `Seq<char>` and an executable counterpart.
use vstd::prelude::*;

verus! {

/// The Unicode `White_Space` property, which `char::is_whitespace` tests.
pub open spec fn is_space(c: char) -> bool {
    let u = c as u32;
    (9 <= u && u <= 13) || u == 32 || u == 0x85 || u == 0xA0 || u == 0x1680 || (0x2000 <= u
        && u <= 0x200A) || u == 0x2028 || u == 0x2029 || u == 0x202F || u == 0x205F || u == 0x3000
}

pub fn is_space_char(c: char) -> (r: bool)
    ensures
        r == is_space(c),
{
    let u = c as u32;
    (9 <= u && u <= 13) || u == 32 || u == 0x85 || u == 0xA0 || u == 0x1680 || (0x2000 <= u
        && u <= 0x200A) || u == 0x2028 || u == 0x2029 || u == 0x202F || u == 0x205F || u == 0x3000
}

/// `s` without its leading whitespace.
pub open spec fn trim_start(s: Seq<char>) -> Seq<char>
    decreases s.len(),
{
    if s.len() > 0 && is_space(s[0]) {
        trim_start(s.drop_first())
    } else {
        s
    }
}

/// `s` without its trailing whitespace.
pub open spec fn trim_end(s: Seq<char>) -> Seq<char>
    decreases s.len(),
{
    if s.len() > 0 && is_space(s.last()) {
        trim_end(s.drop_last())
    } else {
        s
    }
}

/// `s` without leading and trailing whitespace (`str::trim`).
pub open spec fn trim(s: Seq<char>) -> Seq<char> {
    trim_end(trim_start(s))
}

/// The positions `[start, end)` of the maximal runs of non-whitespace
/// characters of `s`, left to right.
pub open spec fn spans(s: Seq<char>) -> Seq<(int, int)>
    decreases s.len(),
{
    if s.len() == 0 {
        seq![]
    } else {
        let n = s.len() - 1;
        let p = spans(s.drop_last());
        if is_space(s[n]) {
            p
        } else if n > 0 && !is_space(s[n - 1]) {
            p.update(p.len() - 1, (p.last().0, s.len() as int))
        } else {
            p.push((n, s.len() as int))
        }
    }
}

/// The whitespace-separated words of `s` (`str::split_whitespace`).
pub open spec fn words(s: Seq<char>) -> Seq<Seq<char>> {
    spans(s).map_values(|p: (int, int)| s.subrange(p.0, p.1))
}

/// The pieces of `s` between line feeds; there is always at least one.
pub open spec fn segments(s: Seq<char>) -> Seq<Seq<char>>
    decreases s.len(),
{
    if s.len() == 0 {
        seq![seq![]]
    } else {
        let p = segments(s.drop_last());
        if s.last() == '\n' {
            p.push(seq![])
        } else {
            p.update(p.len() - 1, p.last().push(s.last()))
        }
    }
}

/// A line without the carriage return that ended it.
pub open spec fn strip_cr(l: Seq<char>) -> Seq<char> {
    if l.len() > 0 && l.last() == '\r' {
        l.drop_last()
    } else {
        l
    }
}

/// The lines of `s` (`str::lines`): split at `\n` or `\r\n`; a final line
/// ending adds no empty line.
pub open spec fn lines(s: Seq<char>) -> Seq<Seq<char>> {
    let g = segments(s);
    let body = g.drop_last().map_values(|l: Seq<char>| strip_cr(l));
    if g.last().len() == 0 {
        body
    } else {
        body.push(g.last())
    }
}

/// `t` occurs in `s` at position `i`.
pub open spec fn occurs_at(s: Seq<char>, t: Seq<char>, i: int) -> bool {
    0 <= i && i + t.len() <= s.len() && s.subrange(i, i + t.len()) == t
}

/// `t` occurs somewhere in `s` (`str::contains`).
pub open spec fn contains(s: Seq<char>, t: Seq<char>) -> bool {
    exists|i: int| occurs_at(s, t, i)
}

/// `s` begins with `t` (`str::starts_with`).
pub open spec fn starts_with(s: Seq<char>, t: Seq<char>) -> bool {
    occurs_at(s, t, 0)
}

/// The position of the first `c` in `s`, or -1.
pub open spec fn index_of(s: Seq<char>, c: char) -> int
    decreases s.len(),
{
    if s.len() == 0 {
        -1
    } else {
        let p = index_of(s.drop_last(), c);
        if p >= 0 {
            p
        } else if s.last() == c {
            s.len() - 1
        } else {
            -1
        }
    }
}

pub open spec fn views(v: Seq<Vec<char>>) -> Seq<Seq<char>> {
    v.map_values(|x: Vec<char>| x@)
}

pub open spec fn span_view(v: Seq<(usize, usize)>) -> Seq<(int, int)> {
    v.map_values(|p: (usize, usize)| (p.0 as int, p.1 as int))
}

pub proof fn lemma_segments_nonempty(s: Seq<char>)
    ensures
        segments(s).len() >= 1,
    decreases s.len(),
{
    if s.len() > 0 {
        lemma_segments_nonempty(s.drop_last());
    }
}

/// Every span lies inside `s`, is non-empty, and a run that reaches the end
/// of `s` is the last span.
pub proof fn lemma_spans_shape(s: Seq<char>)
    ensures
        forall|k: int|
            0 <= k < spans(s).len() ==> 0 <= #[trigger] spans(s)[k].0 < spans(s)[k].1 <= s.len(),
        s.len() > 0 && !is_space(s.last()) ==> spans(s).len() > 0 && spans(s).last().1
            == s.len(),
        spans(s).len() > 0 ==> spans(s).last().1 <= s.len(),
    decreases s.len(),
{
    if s.len() > 0 {
        lemma_spans_shape(s.drop_last());
    }
}

/// The characters of `s`.
pub fn chars_of(s: &str) -> (r: Vec<char>)
    ensures
        r@ == s@,
{
    let mut r: Vec<char> = Vec::new();
    for c in it: s.chars()
        invariant
            r@ == it.seq().subrange(0, it.index() as int),
    {
        r.push(c);
    }
    r
}

/// Relies on collecting a slice of `char`s into a `String` (`FromIterator<char>`):
/// the string holds exactly those characters, in order.
#[verifier::external_body]
pub(crate) fn string_from(v: &Vec<char>, lo: usize, hi: usize) -> (r: String)
    requires
        lo <= hi <= v@.len(),
    ensures
        r@ == v@.subrange(lo as int, hi as int),
{
    v[lo..hi].iter().collect()
}

/// The characters `v[lo..hi]` as a new vector.
pub fn copy_range(v: &Vec<char>, lo: usize, hi: usize) -> (r: Vec<char>)
    requires
        lo <= hi <= v@.len(),
    ensures
        r@ == v@.subrange(lo as int, hi as int),
{
    let mut r: Vec<char> = Vec::new();
    let mut i: usize = lo;
    while i < hi
        invariant
            lo <= i <= hi <= v@.len(),
            r@ == v@.subrange(lo as int, i as int),
        decreases hi - i,
    {
        r.push(v[i]);
        assert(r@ =~= v@.subrange(lo as int, i + 1));
        i += 1;
    }
    r
}

/// The bounds of `trim(v[lo..hi])` inside `v`.
pub fn trim_bounds(v: &Vec<char>, lo: usize, hi: usize) -> (r: (usize, usize))
    requires
        lo <= hi <= v@.len(),
    ensures
        lo <= r.0 <= r.1 <= hi,
        v@.subrange(r.0 as int, r.1 as int) == trim(v@.subrange(lo as int, hi as int)),
{
    let mut a: usize = lo;
    while a < hi && is_space_char(v[a])
        invariant
            lo <= a <= hi <= v@.len(),
            trim_start(v@.subrange(lo as int, hi as int)) == trim_start(
                v@.subrange(a as int, hi as int),
            ),
        decreases hi - a,
    {
        assert(v@.subrange(a as int, hi as int).drop_first() =~= v@.subrange(a + 1, hi as int));
        a += 1;
    }
    let mut b: usize = hi;
    while b > a && is_space_char(v[b - 1])
        invariant
            lo <= a <= b <= hi <= v@.len(),
            trim_start(v@.subrange(lo as int, hi as int)) == v@.subrange(a as int, hi as int),
            trim_end(v@.subrange(a as int, hi as int)) == trim_end(
                v@.subrange(a as int, b as int),
            ),
        decreases b - a,
    {
        assert(v@.subrange(a as int, b as int).drop_last() =~= v@.subrange(a as int, b - 1));
        b -= 1;
    }
    (a, b)
}

/// `trim(v)` as a new vector.
pub fn trimmed(v: &Vec<char>) -> (r: Vec<char>)
    ensures
        r@ == trim(v@),
{
    let (a, b) = trim_bounds(v, 0, v.len());
    assert(v@.subrange(0, v@.len() as int) =~= v@);
    copy_range(v, a, b)
}

/// The word spans of `v` (`spans`).
pub fn word_spans(v: &Vec<char>) -> (r: Vec<(usize, usize)>)
    ensures
        span_view(r@) == spans(v@),
{
    let mut r: Vec<(usize, usize)> = Vec::new();
    let mut i: usize = 0;
    while i < v.len()
        invariant
            i <= v@.len(),
            span_view(r@) == spans(v@.subrange(0, i as int)),
            forall|k: int| 0 <= k < r@.len() ==> #[trigger] r@[k].1 <= i,
            i > 0 && !is_space(v@[i - 1]) ==> r@.len() > 0 && r@.last().1 == i,
        decreases v@.len() - i,
    {
        let ghost pre = v@.subrange(0, i as int);
        let ghost next = v@.subrange(0, i + 1);
        assert(next.drop_last() =~= pre);
        let c = v[i];
        if is_space_char(c) {
        } else if i > 0 && !is_space_char(v[i - 1]) {
            let last = r.len() - 1;
            let start = r[last].0;
            r.set(last, (start, i + 1));
            assert(span_view(r@) =~= spans(next));
        } else {
            r.push((i, i + 1));
            assert(span_view(r@) =~= spans(next));
        }
        i += 1;
    }
    assert(v@.subrange(0, v@.len() as int) =~= v@);
    r
}

/// The lines of `v` (`lines`), each as a vector.
pub fn split_lines(v: &Vec<char>) -> (r: Vec<Vec<char>>)
    ensures
        views(r@) == lines(v@),
{
    let mut out: Vec<Vec<char>> = Vec::new();
    let mut cur: Vec<char> = Vec::new();
    let mut i: usize = 0;
    while i < v.len()
        invariant
            i <= v@.len(),
            views(out@) == segments(v@.subrange(0, i as int)).drop_last().map_values(
                |l: Seq<char>| strip_cr(l),
            ),
            cur@ == segments(v@.subrange(0, i as int)).last(),
        decreases v@.len() - i,
    {
        let ghost pre = v@.subrange(0, i as int);
        let ghost next = v@.subrange(0, i + 1);
        assert(next.drop_last() =~= pre);
        proof {
            lemma_segments_nonempty(pre);
        }
        let c = v[i];
        if c == '\n' {
            let n = cur.len();
            if n > 0 && cur[n - 1] == '\r' {
                cur.pop();
            }
            assert(cur@ == strip_cr(segments(pre).last()));
            let ghost old_out = out@;
            let ghost g = segments(pre);
            out.push(cur);
            cur = Vec::new();
            assert(views(out@) =~= views(old_out).push(strip_cr(g.last())));
            assert(segments(next).drop_last() =~= g);
            assert(g.map_values(|l: Seq<char>| strip_cr(l)) =~= g.drop_last().map_values(
                |l: Seq<char>| strip_cr(l),
            ).push(strip_cr(g.last())));
        } else {
            cur.push(c);
            assert(segments(next).drop_last() =~= segments(pre).drop_last());
        }
        i += 1;
    }
    assert(v@.subrange(0, v@.len() as int) =~= v@);
    if cur.len() > 0 {
        out.push(cur);
        assert(views(out@) =~= lines(v@));
    }
    out
}

/// Whether `p` occurs in `v` at position `i`.
pub fn occurs_at_exec(v: &Vec<char>, p: &Vec<char>, i: usize) -> (r: bool)
    ensures
        r == occurs_at(v@, p@, i as int),
{
    if i > v.len() || p.len() > v.len() - i {
        return false;
    }
    let vlen = v.len();
    let mut j: usize = 0;
    while j < p.len()
        invariant
            vlen == v@.len(),
            i + p@.len() <= v@.len(),
            j <= p@.len(),
            v@.subrange(i as int, i + j) == p@.subrange(0, j as int),
        decreases p@.len() - j,
    {
        assert(i + j < v@.len());
        if v[i + j] != p[j] {
            assert(v@.subrange(i as int, i + p@.len())[j as int] != p@[j as int]);
            return false;
        }
        assert(v@.subrange(i as int, i + j + 1) =~= p@.subrange(0, j + 1));
        j += 1;
    }
    assert(p@.subrange(0, p@.len() as int) =~= p@);
    true
}

/// Whether `p` occurs anywhere in `v`.
pub fn contains_exec(v: &Vec<char>, p: &Vec<char>) -> (r: bool)
    ensures
        r == contains(v@, p@),
{
    if p.len() > v.len() {
        return false;
    }
    let mut i: usize = 0;
    let last = v.len() - p.len();
    loop
        invariant
            p@.len() <= v@.len(),
            last == v@.len() - p@.len(),
            i <= last,
            forall|k: int| 0 <= k < i ==> !occurs_at(v@, p@, k),
        decreases last - i,
    {
        if occurs_at_exec(v, p, i) {
            return true;
        }
        if i == last {
            return false;
        }
        i += 1;
    }
}

/// Whether the literal `p` occurs anywhere in `v`.
pub fn contains_str(v: &Vec<char>, p: &str) -> (r: bool)
    ensures
        r == contains(v@, p@),
{
    let pc = chars_of(p);
    contains_exec(v, &pc)
}

/// Whether `v` begins with the literal `p`.
pub fn starts_with_str(v: &Vec<char>, p: &str) -> (r: bool)
    ensures
        r == starts_with(v@, p@),
{
    let pc = chars_of(p);
    occurs_at_exec(v, &pc, 0)
}

/// Whether `v[lo..hi]` is exactly the literal `p`.
pub fn range_is(v: &Vec<char>, lo: usize, hi: usize, p: &str) -> (r: bool)
    requires
        lo <= hi <= v@.len(),
    ensures
        r == (v@.subrange(lo as int, hi as int) == p@),
{
    let pc = chars_of(p);
    if pc.len() != hi - lo {
        return false;
    }
    occurs_at_exec(v, &pc, lo)
}

/// The position of the first `c` in `v`, or `None`.
pub fn find_char(v: &Vec<char>, c: char) -> (r: Option<usize>)
    ensures
        match r {
            Some(k) => index_of(v@, c) == k as int,
            None => index_of(v@, c) == -1,
        },
        r is Some ==> r->0 < v@.len() && v@[r->0 as int] == c,
{
    let mut i: usize = 0;
    while i < v.len()
        invariant
            i <= v@.len(),
            index_of(v@.subrange(0, i as int), c) == -1,
        decreases v@.len() - i,
    {
        assert(v@.subrange(0, i + 1).drop_last() =~= v@.subrange(0, i as int));
        if v[i] == c {
            proof {
                lemma_index_of_prefix(v@, c, i as int + 1);
            }
            return Some(i);
        }
        i += 1;
    }
    assert(v@.subrange(0, v@.len() as int) =~= v@);
    None
}

/// Once the first `c` lies inside a prefix, the whole sequence agrees.
pub proof fn lemma_index_of_prefix(s: Seq<char>, c: char, n: int)
    requires
        0 <= n <= s.len(),
        index_of(s.subrange(0, n), c) >= 0,
    ensures
        index_of(s, c) == index_of(s.subrange(0, n), c),
    decreases s.len() - n,
{
    if n < s.len() {
        assert(s.subrange(0, n + 1).drop_last() =~= s.subrange(0, n));
        lemma_index_of_prefix(s, c, n + 1);
    } else {
        assert(s.subrange(0, n) =~= s);
    }
}

/// Whether `v` is exactly the literal `p`.
pub fn is_literal(v: &Vec<char>, p: &str) -> (r: bool)
    ensures
        r == (v@ == p@),
{
    assert(v@.subrange(0, v@.len() as int) =~= v@);
    range_is(v, 0, v.len(), p)
}

/// Whether the string `s` is exactly the literal `p`.
pub fn str_is(s: &str, p: &str) -> (r: bool)
    ensures
        r == (s@ == p@),
{
    let c = chars_of(s);
    is_literal(&c, p)
}

/// The start of `trim_start(v[lo..])` inside `v`.
pub fn skip_spaces(v: &Vec<char>, lo: usize) -> (r: usize)
    requires
        lo <= v@.len(),
    ensures
        lo <= r <= v@.len(),
        v@.subrange(r as int, v@.len() as int) == trim_start(v@.subrange(lo as int, v@.len() as int)),
{
    let n = v.len();
    let mut a: usize = lo;
    while a < n && is_space_char(v[a])
        invariant
            n == v@.len(),
            lo <= a <= n,
            trim_start(v@.subrange(lo as int, n as int)) == trim_start(v@.subrange(a as int, n as int)),
        decreases n - a,
    {
        assert(v@.subrange(a as int, n as int).drop_first() =~= v@.subrange(a + 1, n as int));
        a += 1;
    }
    a
}

/// Spans moved right by `d`.
pub open spec fn shift(s: Seq<(int, int)>, d: int) -> Seq<(int, int)> {
    s.map_values(|p: (int, int)| (p.0 + d, p.1 + d))
}

pub open spec fn no_space(s: Seq<char>) -> bool {
    forall|i: int| 0 <= i < s.len() ==> !is_space(#[trigger] s[i])
}

/// A non-empty run without whitespace is one span.
pub proof fn lemma_spans_word(w: Seq<char>)
    requires
        w.len() > 0,
        no_space(w),
    ensures
        spans(w) == seq![(0int, w.len() as int)],
    decreases w.len(),
{
    if w.len() > 1 {
        let p = w.drop_last();
        assert(no_space(p)) by {
            assert forall|i: int| 0 <= i < p.len() implies !is_space(#[trigger] p[i]) by {
                assert(p[i] == w[i]);
            }
        }
        lemma_spans_word(p);
        assert(!is_space(w[w.len() - 2]));
        assert(!is_space(w[w.len() - 1]));
        assert(spans(w) =~= seq![(0int, w.len() as int)]);
    } else {
        assert(w.drop_last() =~= Seq::<char>::empty());
        assert(spans(w.drop_last()) =~= Seq::<(int, int)>::empty());
        assert(!is_space(w[0]));
        assert(spans(w) =~= seq![(0int, w.len() as int)]);
    }
}

/// A space between two texts separates their spans.
pub proof fn lemma_spans_concat(x: Seq<char>, y: Seq<char>)
    ensures
        spans(x + seq![' '] + y) == spans(x) + shift(spans(y), x.len() as int + 1),
    decreases y.len(),
{
    let d: int = x.len() as int + 1;
    let z = x + seq![' '] + y;
    if y.len() == 0 {
        assert(z.drop_last() =~= x);
        assert(is_space(z.last()));
        assert(shift(spans(y), d) =~= seq![]);
        assert(spans(x) + shift(spans(y), d) =~= spans(x));
    } else {
        let y1 = y.drop_last();
        assert(z.drop_last() =~= x + seq![' '] + y1);
        lemma_spans_concat(x, y1);
        lemma_spans_shape(y1);
        let n: int = z.len() - 1;
        assert(z[n] == y.last());
        let q = spans(y1);
        let pp = spans(x) + shift(q, d);
        if is_space(y.last()) {
        } else if y.len() > 1 && !is_space(y[y.len() - 2]) {
            assert(z[n - 1] == y[y.len() - 2]);
            assert(y1.last() == y[y.len() - 2]);
            assert(q.len() > 0);
            assert(shift(q.update(q.len() - 1, (q.last().0, y.len() as int)), d) =~= shift(q, d).update(
                q.len() - 1,
                (q.last().0 + d, y.len() as int + d),
            ));
            assert(pp.update(pp.len() - 1, (pp.last().0, z.len() as int)) =~= spans(x) + shift(
                q.update(q.len() - 1, (q.last().0, y.len() as int)),
                d,
            ));
        } else if y.len() > 1 {
            assert(z[n - 1] == y[y.len() - 2]);
            assert(shift(q.push((y.len() as int - 1, y.len() as int)), d) =~= shift(q, d).push(
                (n, z.len() as int),
            ));
            assert(pp.push((n, z.len() as int)) =~= spans(x) + shift(
                q.push((y.len() as int - 1, y.len() as int)),
                d,
            ));
        } else {
            assert(z[n - 1] == ' ');
            assert(y1 =~= Seq::<char>::empty());
            assert(shift(q.push((0int, 1int)), d) =~= shift(q, d).push((n, z.len() as int)));
            assert(pp.push((n, z.len() as int)) =~= spans(x) + shift(q.push((0int, 1int)), d));
        }
    }
}

/// A space between two texts separates their words.
pub proof fn lemma_words_concat(x: Seq<char>, y: Seq<char>)
    ensures
        words(x + seq![' '] + y) == words(x) + words(y),
{
    let z = x + seq![' '] + y;
    let d: int = x.len() as int + 1;
    lemma_spans_concat(x, y);
    lemma_spans_shape(x);
    lemma_spans_shape(y);
    let sx = spans(x);
    let sy = spans(y);
    assert forall|k: int| 0 <= k < words(z).len() implies #[trigger] words(z)[k] == (words(x)
        + words(y))[k] by {
        if k < sx.len() {
            assert(z.subrange(sx[k].0, sx[k].1) =~= x.subrange(sx[k].0, sx[k].1));
        } else {
            let j = k - sx.len();
            assert(spans(z)[k] == (sy[j].0 + d, sy[j].1 + d));
            assert(z.subrange(sy[j].0 + d, sy[j].1 + d) =~= y.subrange(sy[j].0, sy[j].1));
        }
    }
    assert(words(z) =~= words(x) + words(y));
}

/// A non-empty run without whitespace is one word.
pub proof fn lemma_words_word(w: Seq<char>)
    requires
        w.len() > 0,
        no_space(w),
    ensures
        words(w) == seq![w],
{
    lemma_spans_word(w);
    assert(w.subrange(0, w.len() as int) =~= w);
    assert(words(w) =~= seq![w]);
}

} // verus!
