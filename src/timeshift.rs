//! Snapshot inventory, snapshot-name timestamps, and the retention policy
//! that decides which snapshots a pruning pass deletes.
//!
//! The tabular inventory has one row per snapshot: a number, an optional
//! `>` marker, the name `YYYY-MM-DD_HH-MM-SS`, a tags word and an optional
//! comment. The verbose inventory has `Snapshot : name` and
//! `Comments : text` fields, read as sequential blocks.
use vstd::prelude::*;
use chrono::TimeZone;
use crate::size::{all_digits, digits_value, digits_value_exec, is_digit, MAX_DIGITS};
use crate::models::{opt_view, UpdateError};
use crate::settings::{string_views, AppSettings, SnapshotRetentionPeriod};
use crate::text::{
    chars_of, copy_range, is_literal, lemma_spans_shape, lines, skip_spaces, span_view, spans,
    split_lines, starts_with, starts_with_str, string_from, trim, trim_bounds, trim_start, views,
    word_spans, words,
};

verus! {

/// A snapshot's name and its comment, if it has one.
#[derive(Clone, Debug)]
pub struct SnapshotRecord {
    pub name: String,
    pub comment: Option<String>,
}

pub open spec fn record_view(r: SnapshotRecord) -> (Seq<char>, Option<Seq<char>>) {
    (r.name@, opt_view(r.comment))
}

pub open spec fn record_views(s: Seq<SnapshotRecord>) -> Seq<(Seq<char>, Option<Seq<char>>)> {
    s.map_values(|r: SnapshotRecord| record_view(r))
}

/// `YYYY-MM-DD_HH-MM-SS`, digits in every other place.
pub open spec fn is_timestamp(s: Seq<char>) -> bool {
    s.len() == 19 && forall|i: int|
        0 <= i < 19 ==> if i == 4 || i == 7 || i == 13 || i == 16 {
            #[trigger] s[i] == '-'
        } else if i == 10 {
            s[i] == '_'
        } else {
            is_digit(s[i])
        }
}

fn is_timestamp_exec(v: &Vec<char>, lo: usize, hi: usize) -> (r: bool)
    requires
        lo <= hi <= v@.len(),
    ensures
        r == is_timestamp(v@.subrange(lo as int, hi as int)),
{
    if hi - lo != 19 {
        return false;
    }
    let ghost s = v@.subrange(lo as int, hi as int);
    let mut i: usize = 0;
    while i < 19
        invariant
            lo + 19 == hi <= v@.len(),
            s == v@.subrange(lo as int, hi as int),
            i <= 19,
            forall|k: int|
                0 <= k < i ==> if k == 4 || k == 7 || k == 13 || k == 16 {
                    #[trigger] s[k] == '-'
                } else if k == 10 {
                    s[k] == '_'
                } else {
                    is_digit(s[k])
                },
        decreases 19 - i,
    {
        let c = v[lo + i];
        assert(c == s[i as int]);
        let ok = if i == 4 || i == 7 || i == 13 || i == 16 {
            c == '-'
        } else if i == 10 {
            c == '_'
        } else {
            48 <= c as u32 && c as u32 <= 57
        };
        if !ok {
            return false;
        }
        i += 1;
    }
    true
}

/// A row of the tabular inventory: a number, an optional `>`, the name, a
/// tags word, and the rest of the line, trimmed, as the comment.
pub open spec fn table_row(l: Seq<char>) -> Option<(Seq<char>, Option<Seq<char>>)> {
    let w = words(l);
    let ni: int = if w.len() >= 2 && w[1] == ">"@ {
        2
    } else {
        1
    };
    if w.len() >= ni + 2 && all_digits(w[0]) && is_timestamp(w[ni]) {
        let rest = trim(l.subrange(spans(l)[ni + 1].1, l.len() as int));
        Some((w[ni], if rest.len() > 0 { Some(rest) } else { None }))
    } else {
        None
    }
}

pub open spec fn table_rows(ls: Seq<Seq<char>>) -> Seq<(Seq<char>, Option<Seq<char>>)>
    decreases ls.len(),
{
    if ls.len() == 0 {
        seq![]
    } else {
        match table_row(ls.last()) {
            Some(r) => table_rows(ls.drop_last()).push(r),
            None => table_rows(ls.drop_last()),
        }
    }
}

fn all_digits_range(v: &Vec<char>, lo: usize, hi: usize) -> (r: bool)
    requires
        lo <= hi <= v@.len(),
    ensures
        r == all_digits(v@.subrange(lo as int, hi as int)),
{
    let mut i: usize = lo;
    while i < hi
        invariant
            lo <= i <= hi <= v@.len(),
            forall|k: int| lo <= k < i ==> is_digit(#[trigger] v@[k]),
        decreases hi - i,
    {
        let u = v[i] as u32;
        if u < 48 || u > 57 {
            assert(!is_digit(v@.subrange(lo as int, hi as int)[i - lo]));
            return false;
        }
        i += 1;
    }
    assert forall|k: int| 0 <= k < hi - lo implies is_digit(
        #[trigger] v@.subrange(lo as int, hi as int)[k],
    ) by {
        assert(v@.subrange(lo as int, hi as int)[k] == v@[lo + k]);
    }
    true
}

fn parse_table_row(l: &Vec<char>) -> (r: Option<SnapshotRecord>)
    ensures
        match r {
            Some(x) => table_row(l@) == Some(record_view(x)),
            None => table_row(l@) is None,
        },
{
    let sp = word_spans(l);
    proof {
        lemma_spans_shape(l@);
    }
    let ghost w = words(l@);
    let ni: usize = if sp.len() >= 2 && range_is_at(l, &sp, 1, ">") {
        2
    } else {
        1
    };
    if sp.len() < ni + 2 {
        return None;
    }
    assert(span_view(sp@)[0] == spans(l@)[0]);
    assert(span_view(sp@)[ni as int] == spans(l@)[ni as int]);
    assert(span_view(sp@)[ni + 1] == spans(l@)[ni + 1]);
    if !all_digits_range(l, sp[0].0, sp[0].1) || !is_timestamp_exec(l, sp[ni].0, sp[ni].1) {
        return None;
    }
    let (a, b) = trim_bounds(l, sp[ni + 1].1, l.len());
    let name = string_from(l, sp[ni].0, sp[ni].1);
    let comment = if b > a {
        Some(string_from(l, a, b))
    } else {
        None
    };
    Some(SnapshotRecord { name, comment })
}

fn range_is_at(l: &Vec<char>, sp: &Vec<(usize, usize)>, k: usize, p: &str) -> (r: bool)
    requires
        k < sp@.len(),
        span_view(sp@) == spans(l@),
        forall|j: int|
            0 <= j < spans(l@).len() ==> 0 <= #[trigger] spans(l@)[j].0 < spans(l@)[j].1
                <= l@.len(),
    ensures
        r == (words(l@)[k as int] == p@),
{
    assert(span_view(sp@)[k as int] == spans(l@)[k as int]);
    crate::text::range_is(l, sp[k].0, sp[k].1, p)
}

/// The rows of a tabular inventory, in order.
pub fn parse_snapshot_table(output: &str) -> (r: Vec<SnapshotRecord>)
    ensures
        record_views(r@) == table_rows(lines(output@)),
{
    let text = chars_of(output);
    let ls = split_lines(&text);
    let mut r: Vec<SnapshotRecord> = Vec::new();
    let mut i: usize = 0;
    while i < ls.len()
        invariant
            i <= ls@.len(),
            views(ls@) == lines(text@),
            record_views(r@) == table_rows(views(ls@).subrange(0, i as int)),
        decreases ls@.len() - i,
    {
        let ghost pre = views(ls@).subrange(0, i as int);
        let ghost next = views(ls@).subrange(0, i + 1);
        assert(next.drop_last() =~= pre);
        assert(next.last() == ls@[i as int]@);
        let ghost old_r = r@;
        match parse_table_row(&ls[i]) {
            Some(x) => {
                r.push(x);
                assert(record_views(r@) =~= record_views(old_r).push(record_view(x)));
            },
            None => {},
        }
        i += 1;
    }
    assert(views(ls@).subrange(0, ls@.len() as int) =~= views(ls@));
    r
}

/// A `Snapshot : name` field of the verbose inventory.
pub open spec fn snapshot_field(l: Seq<char>) -> Option<Seq<char>> {
    let t = trim(l);
    if starts_with(t, "Snapshot"@) {
        let r1 = trim_start(t.subrange(8, t.len() as int));
        if r1.len() > 0 && r1[0] == ':' && is_timestamp(trim_start(r1.drop_first())) {
            Some(trim_start(r1.drop_first()))
        } else {
            None
        }
    } else {
        None
    }
}

/// A `Comments : text` field of the verbose inventory, its text trimmed.
pub open spec fn comments_field(l: Seq<char>) -> Option<Seq<char>> {
    let t = trim_start(l);
    if starts_with(t, "Comments"@) {
        let r1 = trim_start(t.subrange(8, t.len() as int));
        if r1.len() > 0 && r1[0] == ':' {
            Some(trim(r1.drop_first()))
        } else {
            None
        }
    } else {
        None
    }
}

fn parse_snapshot_field(l: &Vec<char>) -> (r: Option<String>)
    ensures
        opt_view(r) == snapshot_field(l@),
{
    let (lo, hi) = trim_bounds(l, 0, l.len());
    assert(l@.subrange(0, l@.len() as int) =~= l@);
    let t = copy_range(l, lo, hi);
    if !starts_with_str(&t, "Snapshot") {
        return None;
    }
    proof {
        reveal_strlit("Snapshot");
    }
    let a = skip_spaces(&t, 8);
    if a >= t.len() || t[a] != ':' {
        return None;
    }
    let b = skip_spaces(&t, a + 1);
    assert(t@.subrange(a as int, t@.len() as int).drop_first() =~= t@.subrange(
        a + 1,
        t@.len() as int,
    ));
    if !is_timestamp_exec(&t, b, t.len()) {
        return None;
    }
    Some(string_from(&t, b, t.len()))
}

fn parse_comments_field(l: &Vec<char>) -> (r: Option<String>)
    ensures
        opt_view(r) == comments_field(l@),
{
    let s = skip_spaces(l, 0);
    assert(l@.subrange(0, l@.len() as int) =~= l@);
    let t = copy_range(l, s, l.len());
    if !starts_with_str(&t, "Comments") {
        return None;
    }
    proof {
        reveal_strlit("Comments");
    }
    let a = skip_spaces(&t, 8);
    if a >= t.len() || t[a] != ':' {
        return None;
    }
    assert(t@.subrange(a as int, t@.len() as int).drop_first() =~= t@.subrange(
        a + 1,
        t@.len() as int,
    ));
    let (x, y) = trim_bounds(&t, a + 1, t.len());
    Some(string_from(&t, x, y))
}

/// The state of the scan of the verbose inventory.
pub struct VerboseScan {
    pub result: Seq<(Seq<char>, Option<Seq<char>>)>,
    pub name: Option<Seq<char>>,
    pub comment: Option<Seq<char>>,
}

/// A `Snapshot` field closes the previous block and opens one; a
/// `Comments` field sets the open block's comment.
pub open spec fn verbose_step(st: VerboseScan, l: Seq<char>) -> VerboseScan {
    match snapshot_field(l) {
        Some(n) => VerboseScan {
            result: match st.name {
                Some(c) => st.result.push((c, st.comment)),
                None => st.result,
            },
            name: Some(n),
            comment: None,
        },
        None => match comments_field(l) {
            Some(c) => VerboseScan { comment: Some(c), ..st },
            None => st,
        },
    }
}

pub open spec fn verbose_scan(ls: Seq<Seq<char>>) -> VerboseScan
    decreases ls.len(),
{
    if ls.len() == 0 {
        VerboseScan { result: seq![], name: None, comment: None }
    } else {
        verbose_step(verbose_scan(ls.drop_last()), ls.last())
    }
}

pub open spec fn verbose_records(ls: Seq<Seq<char>>) -> Seq<(Seq<char>, Option<Seq<char>>)> {
    let st = verbose_scan(ls);
    match st.name {
        Some(n) => st.result.push((n, st.comment)),
        None => st.result,
    }
}

/// The blocks of a verbose inventory, in order.
pub fn parse_snapshot_verbose(output: &str) -> (r: Vec<SnapshotRecord>)
    ensures
        record_views(r@) == verbose_records(lines(output@)),
{
    let text = chars_of(output);
    let ls = split_lines(&text);
    let mut r: Vec<SnapshotRecord> = Vec::new();
    let mut name: Option<String> = None;
    let mut comment: Option<String> = None;
    let mut i: usize = 0;
    while i < ls.len()
        invariant
            i <= ls@.len(),
            views(ls@) == lines(text@),
            record_views(r@) == verbose_scan(views(ls@).subrange(0, i as int)).result,
            opt_view(name) == verbose_scan(views(ls@).subrange(0, i as int)).name,
            opt_view(comment) == verbose_scan(views(ls@).subrange(0, i as int)).comment,
        decreases ls@.len() - i,
    {
        let ghost pre = views(ls@).subrange(0, i as int);
        let ghost next = views(ls@).subrange(0, i + 1);
        assert(next.drop_last() =~= pre);
        assert(next.last() == ls@[i as int]@);
        match parse_snapshot_field(&ls[i]) {
            Some(n) => {
                match name {
                    Some(c) => {
                        let ghost old_r = r@;
                        let x = SnapshotRecord { name: c, comment };
                        r.push(x);
                        assert(record_views(r@) =~= record_views(old_r).push(record_view(x)));
                    },
                    None => {},
                }
                name = Some(n);
                comment = None;
            },
            None => {
                match parse_comments_field(&ls[i]) {
                    Some(c) => {
                        comment = Some(c);
                    },
                    None => {},
                }
            },
        }
        i += 1;
    }
    assert(views(ls@).subrange(0, ls@.len() as int) =~= views(ls@));
    match name {
        Some(n) => {
            let ghost old_r = r@;
            let x = SnapshotRecord { name: n, comment };
            r.push(x);
            assert(record_views(r@) =~= record_views(old_r).push(record_view(x)));
        },
        None => {},
    }
    r
}

/// The inventory from the tabular listing; when that has no rows, from the
/// verbose listing, or `None` while the verbose listing is still to be read.
pub fn list_timeshift_snapshots_with_comments(table: &str, verbose: Option<&str>) -> (r: Option<
    Vec<SnapshotRecord>,
>)
    ensures
        table_rows(lines(table@)).len() > 0 ==> r is Some && record_views(r->0@) == table_rows(
            lines(table@),
        ),
        table_rows(lines(table@)).len() == 0 && verbose is Some ==> r is Some && record_views(
            r->0@,
        ) == verbose_records(lines(verbose->0@)),
        table_rows(lines(table@)).len() == 0 && verbose is None ==> r is None,
{
    let rows = parse_snapshot_table(table);
    if rows.len() > 0 {
        return Some(rows);
    }
    match verbose {
        Some(v) => Some(parse_snapshot_verbose(v)),
        None => None,
    }
}

/// A wall-clock time read from a snapshot name.
#[derive(Clone, Copy, Debug, PartialEq, Eq, Structural)]
pub struct SnapshotTime {
    pub year: i32,
    pub month: u32,
    pub day: u32,
    pub hour: u32,
    pub minute: u32,
    pub second: u32,
}

pub open spec fn is_leap_year(y: int) -> bool {
    (y % 4 == 0 && y % 100 != 0) || y % 400 == 0
}

pub open spec fn days_in_month(y: int, m: int) -> int {
    if m == 2 {
        if is_leap_year(y) {
            29
        } else {
            28
        }
    } else if m == 4 || m == 6 || m == 9 || m == 11 {
        30
    } else {
        31
    }
}

/// A day of the proleptic Gregorian calendar.
pub open spec fn valid_date(y: int, m: int, d: int) -> bool {
    1 <= m <= 12 && 1 <= d <= days_in_month(y, m)
}

/// Relies on chrono's `NaiveDate::from_ymd_opt`: for a year in its range
/// (which holds 0..=9999) it gives a date exactly when the month and day
/// name a day of the proleptic Gregorian calendar.
#[verifier::external_body]
fn date_exists(year: i32, month: u32, day: u32) -> (r: bool)
    requires
        0 <= year <= 9999,
    ensures
        r == valid_date(year as int, month as int, day as int),
{
    chrono::NaiveDate::from_ymd_opt(year, month, day).is_some()
}

/// Relies on chrono's `NaiveTime::from_hms_opt`: it gives a time exactly
/// when hour < 24, minute < 60 and second < 60.
#[verifier::external_body]
fn time_exists(hour: u32, minute: u32, second: u32) -> (r: bool)
    ensures
        r == (hour < 24 && minute < 60 && second < 60),
{
    chrono::NaiveTime::from_hms_opt(hour, minute, second).is_some()
}

/// The first position at or after `i` where a timestamp begins, or -1.
pub open spec fn first_timestamp_from(s: Seq<char>, i: int) -> int
    decreases s.len() - i,
{
    if i < 0 || i + 19 > s.len() {
        -1
    } else if is_timestamp(s.subrange(i, i + 19)) {
        i
    } else {
        first_timestamp_from(s, i + 1)
    }
}

pub open spec fn field_num(t: Seq<char>, lo: int, hi: int) -> nat {
    digits_value(t.subrange(lo, hi))
}

/// The time that the first timestamp inside a snapshot name denotes, when
/// there is one and it names a real calendar day and time of day.
pub open spec fn timestamp_of(s: Seq<char>) -> Option<SnapshotTime> {
    let i = first_timestamp_from(s, 0);
    if i < 0 {
        None
    } else {
        let t = s.subrange(i, i + 19);
        let y = field_num(t, 0, 4);
        let mo = field_num(t, 5, 7);
        let d = field_num(t, 8, 10);
        let h = field_num(t, 11, 13);
        let mi = field_num(t, 14, 16);
        let se = field_num(t, 17, 19);
        if valid_date(y as int, mo as int, d as int) && h < 24 && mi < 60 && se < 60 {
            Some(
                SnapshotTime {
                    year: y as i32,
                    month: mo as u32,
                    day: d as u32,
                    hour: h as u32,
                    minute: mi as u32,
                    second: se as u32,
                },
            )
        } else {
            None
        }
    }
}

fn timestamp_field(t: &Vec<char>, lo: usize, hi: usize) -> (r: u32)
    requires
        is_timestamp(t@),
        lo + 4 >= hi,
        lo < hi <= 19,
        forall|k: int| lo <= k < hi ==> is_digit(#[trigger] t@[k]),
    ensures
        r == field_num(t@, lo as int, hi as int),
        r < 10000,
{
    let d = copy_range(t, lo, hi);
    assert(all_digits(d@)) by {
        assert forall|k: int| 0 <= k < d@.len() implies is_digit(#[trigger] d@[k]) by {
            assert(d@[k] == t@[lo + k]);
        }
    }
    proof {
        crate::size::lemma_digits_value_bound(d@);
        crate::size::lemma_pow10_monotone(d@.len(), 4);
        reveal_with_fuel(crate::size::pow10, 5);
    }
    let v = digits_value_exec(&d);
    v as u32
}

/// The time that a snapshot name carries (see `timestamp_of`).
pub fn parse_snapshot_timestamp(snapshot_name: &str) -> (r: Option<SnapshotTime>)
    ensures
        r == timestamp_of(snapshot_name@),
{
    let v = chars_of(snapshot_name);
    let n = v.len();
    if n < 19 {
        return None;
    }
    let mut i: usize = 0;
    loop
        invariant
            v@ == snapshot_name@,
            n == v@.len(),
            19 <= n,
            i + 19 <= n,
            first_timestamp_from(v@, 0) == first_timestamp_from(v@, i as int),
        ensures
            i + 19 <= n,
            first_timestamp_from(v@, 0) == i as int,
            is_timestamp(v@.subrange(i as int, i + 19)),
        decreases n - i,
    {
        if is_timestamp_exec(&v, i, i + 19) {
            break;
        }
        if i + 19 == n {
            assert(first_timestamp_from(v@, i + 1) == -1);
            assert(first_timestamp_from(v@, i as int) == -1);
            return None;
        }
        i += 1;
    }
    let t = copy_range(&v, i, i + 19);
    assert(is_timestamp(t@));
    assert(forall|k: int| 0 <= k < 4 ==> is_digit(#[trigger] t@[k]));
    assert(forall|k: int| 5 <= k < 7 ==> is_digit(#[trigger] t@[k]));
    assert(forall|k: int| 8 <= k < 10 ==> is_digit(#[trigger] t@[k]));
    assert(forall|k: int| 11 <= k < 13 ==> is_digit(#[trigger] t@[k]));
    assert(forall|k: int| 14 <= k < 16 ==> is_digit(#[trigger] t@[k]));
    assert(forall|k: int| 17 <= k < 19 ==> is_digit(#[trigger] t@[k]));
    let year = timestamp_field(&t, 0, 4);
    let month = timestamp_field(&t, 5, 7);
    let day = timestamp_field(&t, 8, 10);
    let hour = timestamp_field(&t, 11, 13);
    let minute = timestamp_field(&t, 14, 16);
    let second = timestamp_field(&t, 17, 19);
    if !date_exists(year as i32, month, day) || !time_exists(hour, minute, second) {
        return None;
    }
    Some(SnapshotTime { year: year as i32, month, day, hour, minute, second })
}

/// Relies on chrono's `Local.from_local_datetime(..).single()` and
/// `DateTime::timestamp`: the Unix time of the wall-clock time `t` in the
/// machine's time zone, or `None` where that time is skipped or repeated.
/// It depends on the time zone, so nothing is stated of it.
#[verifier::external_body]
fn local_timestamp(t: &SnapshotTime) -> (r: Option<i64>) {
    let date = chrono::NaiveDate::from_ymd_opt(t.year, t.month, t.day)?;
    let time = chrono::NaiveTime::from_hms_opt(t.hour, t.minute, t.second)?;
    let naive = chrono::NaiveDateTime::new(date, time);
    chrono::Local.from_local_datetime(&naive).single().map(|dt| dt.timestamp())
}

/// An instant: Unix seconds and the nanoseconds past them.
#[derive(Clone, Copy, Debug, PartialEq, Eq, Structural)]
pub struct Instant {
    pub seconds: i64,
    pub nanos: u32,
}

/// Relies on chrono's `Local::now`, read through `DateTime::timestamp` and
/// `DateTime::timestamp_subsec_nanos`. It depends on the clock, so nothing
/// is stated of it.
#[verifier::external_body]
fn now_instant() -> (r: Instant) {
    let now = chrono::Local::now();
    Instant { seconds: now.timestamp(), nanos: now.timestamp_subsec_nanos() }
}

/// Days that a retention period spans; `None` for `Forever`.
pub open spec fn period_days(p: SnapshotRetentionPeriod) -> Option<int> {
    match p {
        SnapshotRetentionPeriod::Forever => None,
        SnapshotRetentionPeriod::Day => Some(1),
        SnapshotRetentionPeriod::Week => Some(7),
        SnapshotRetentionPeriod::Month => Some(30),
        SnapshotRetentionPeriod::Year => Some(365),
    }
}

/// The oldest instant that a period keeps, counted back from `now`.
pub open spec fn cutoff_of(p: SnapshotRetentionPeriod, now: Instant) -> Option<Instant> {
    match period_days(p) {
        None => None,
        Some(d) => if now.seconds - d * 86400 >= i64::MIN {
            Some(Instant { seconds: (now.seconds - d * 86400) as i64, nanos: now.nanos })
        } else {
            None
        },
    }
}

/// The time cutoff of a retention period (see `cutoff_of`).
pub fn retention_cutoff(period: SnapshotRetentionPeriod, now: Instant) -> (r: Option<Instant>)
    ensures
        r == cutoff_of(period, now),
{
    let days: i64 = match period {
        SnapshotRetentionPeriod::Forever => {
            return None;
        },
        SnapshotRetentionPeriod::Day => 1,
        SnapshotRetentionPeriod::Week => 7,
        SnapshotRetentionPeriod::Month => 30,
        SnapshotRetentionPeriod::Year => 365,
    };
    if now.seconds < i64::MIN + days * 86400 {
        return None;
    }
    Some(Instant { seconds: now.seconds - days * 86400, nanos: now.nanos })
}

/// A snapshot with its time is on or after the cutoff; one whose time is
/// unknown is kept, and so is every one when there is no cutoff.
pub open spec fn within(t: Option<i64>, cutoff: Option<Instant>) -> bool {
    match (t, cutoff) {
        (Some(s), Some(c)) => s > c.seconds || (s == c.seconds && c.nanos == 0),
        _ => true,
    }
}

/// A snapshot name with the Unix time it denotes, when known.
#[derive(Clone, Debug)]
pub struct DatedSnapshot {
    pub name: String,
    pub time: Option<i64>,
}

pub open spec fn dated_views(s: Seq<DatedSnapshot>) -> Seq<(Seq<char>, Option<i64>)> {
    s.map_values(|d: DatedSnapshot| (d.name@, d.time))
}

/// The names that the time cutoff keeps, in order.
pub open spec fn survivors(e: Seq<(Seq<char>, Option<i64>)>, cutoff: Option<Instant>) -> Seq<
    Seq<char>,
>
    decreases e.len(),
{
    if e.len() == 0 {
        seq![]
    } else if within(e.last().1, cutoff) {
        survivors(e.drop_last(), cutoff).push(e.last().0)
    } else {
        survivors(e.drop_last(), cutoff)
    }
}

/// `s` without the name `k`.
pub open spec fn without(s: Seq<Seq<char>>, k: Seq<char>) -> Seq<Seq<char>>
    decreases s.len(),
{
    if s.len() == 0 {
        seq![]
    } else if s.last() == k {
        without(s.drop_last(), k)
    } else {
        without(s.drop_last(), k).push(s.last())
    }
}

/// The snapshots that a pruning pass deletes, oldest first. `e` holds the
/// snapshots of one comment, oldest first. The time cutoff is applied first;
/// of what it keeps, all but the newest `keep_count` go, except `protect`.
pub open spec fn deletion_plan(
    e: Seq<(Seq<char>, Option<i64>)>,
    cutoff: Option<Instant>,
    keep_count: nat,
    protect: Seq<char>,
) -> Seq<Seq<char>> {
    let s = survivors(e, cutoff);
    if s.len() > keep_count {
        without(s.subrange(0, s.len() - keep_count), protect)
    } else {
        seq![]
    }
}

/// The names to delete, oldest first (see `deletion_plan`).
pub fn snapshot_deletion_plan(
    entries: &Vec<DatedSnapshot>,
    cutoff: Option<Instant>,
    keep_count: u32,
    keep_snapshot: &str,
) -> (r: Vec<String>)
    ensures
        crate::settings::string_views(r@) == deletion_plan(
            dated_views(entries@),
            cutoff,
            keep_count as nat,
            keep_snapshot@,
        ),
{
    let ghost e = dated_views(entries@);
    let mut kept: Vec<String> = Vec::new();
    let mut i: usize = 0;
    while i < entries.len()
        invariant
            i <= entries@.len(),
            e == dated_views(entries@),
            crate::settings::string_views(kept@) == survivors(e.subrange(0, i as int), cutoff),
        decreases entries@.len() - i,
    {
        assert(e.subrange(0, i + 1).drop_last() =~= e.subrange(0, i as int));
        let t = entries[i].time;
        let keep = match (t, cutoff) {
            (Some(s), Some(c)) => s > c.seconds || (s == c.seconds && c.nanos == 0),
            _ => true,
        };
        if keep {
            let ghost old_kept = kept@;
            kept.push(entries[i].name.clone());
            assert(crate::settings::string_views(kept@) =~= crate::settings::string_views(
                old_kept,
            ).push(entries@[i as int].name@));
        }
        i += 1;
    }
    assert(e.subrange(0, entries@.len() as int) =~= e);
    let ghost s = survivors(e, cutoff);
    let mut r: Vec<String> = Vec::new();
    if kept.len() <= keep_count as usize {
        return r;
    }
    let excess = kept.len() - keep_count as usize;
    let mut j: usize = 0;
    while j < excess
        invariant
            j <= excess <= kept@.len(),
            excess == kept@.len() - keep_count,
            crate::settings::string_views(kept@) == s,
            crate::settings::string_views(r@) == without(s.subrange(0, j as int), keep_snapshot@),
        decreases excess - j,
    {
        assert(s.subrange(0, j + 1).drop_last() =~= s.subrange(0, j as int));
        assert(s[j as int] == kept@[j as int]@);
        if !crate::text::str_is(kept[j].as_str(), keep_snapshot) {
            let ghost old_r = r@;
            r.push(kept[j].clone());
            assert(crate::settings::string_views(r@) =~= crate::settings::string_views(
                old_r,
            ).push(s[j as int]));
        }
        j += 1;
    }
    r
}

/// `a` sorts before or equal to `b`, character by character (`str`'s `Ord`).
pub open spec fn lex_le(a: Seq<char>, b: Seq<char>) -> bool
    decreases a.len(),
{
    if a.len() == 0 {
        true
    } else if b.len() == 0 {
        false
    } else if (a[0] as u32) < (b[0] as u32) {
        true
    } else if (a[0] as u32) > (b[0] as u32) {
        false
    } else {
        lex_le(a.drop_first(), b.drop_first())
    }
}

pub proof fn lemma_lex_total(a: Seq<char>, b: Seq<char>)
    ensures
        lex_le(a, b) || lex_le(b, a),
    decreases a.len(),
{
    if a.len() > 0 && b.len() > 0 && a[0] as u32 == b[0] as u32 {
        lemma_lex_total(a.drop_first(), b.drop_first());
    }
}

pub proof fn lemma_lex_trans(a: Seq<char>, b: Seq<char>, c: Seq<char>)
    requires
        lex_le(a, b),
        lex_le(b, c),
    ensures
        lex_le(a, c),
    decreases a.len(),
{
    if a.len() > 0 && b.len() > 0 && c.len() > 0 && a[0] as u32 == b[0] as u32 && b[0] as u32
        == c[0] as u32 {
        lemma_lex_trans(a.drop_first(), b.drop_first(), c.drop_first());
    }
}

pub open spec fn lex_sorted(s: Seq<Seq<char>>) -> bool {
    forall|i: int, j: int| 0 <= i < j < s.len() ==> lex_le(#[trigger] s[i], #[trigger] s[j])
}

fn lex_le_exec(a: &Vec<char>, b: &Vec<char>) -> (r: bool)
    ensures
        r == lex_le(a@, b@),
{
    let mut i: usize = 0;
    assert(a@.subrange(0, a@.len() as int) =~= a@);
    assert(b@.subrange(0, b@.len() as int) =~= b@);
    loop
        invariant
            i <= a@.len(),
            i <= b@.len(),
            lex_le(a@, b@) == lex_le(
                a@.subrange(i as int, a@.len() as int),
                b@.subrange(i as int, b@.len() as int),
            ),
        decreases a@.len() - i,
    {
        let ghost sa = a@.subrange(i as int, a@.len() as int);
        let ghost sb = b@.subrange(i as int, b@.len() as int);
        if i == a.len() {
            return true;
        }
        if i == b.len() {
            return false;
        }
        assert(sa[0] == a@[i as int] && sb[0] == b@[i as int]);
        let x = a[i] as u32;
        let y = b[i] as u32;
        if x < y {
            return true;
        }
        if x > y {
            return false;
        }
        assert(sa.drop_first() =~= a@.subrange(i + 1, a@.len() as int));
        assert(sb.drop_first() =~= b@.subrange(i + 1, b@.len() as int));
        i += 1;
    }
}

/// `names` in ascending order.
pub fn sort_names(names: Vec<String>) -> (r: Vec<String>)
    ensures
        lex_sorted(crate::settings::string_views(r@)),
        crate::settings::string_views(r@).to_multiset() == crate::settings::string_views(
            names@,
        ).to_multiset(),
{
    let mut r: Vec<String> = Vec::new();
    let mut i: usize = 0;
    assert(crate::settings::string_views(names@.subrange(0, 0)) =~= crate::settings::string_views(
        r@,
    ));
    while i < names.len()
        invariant
            i <= names@.len(),
            lex_sorted(crate::settings::string_views(r@)),
            crate::settings::string_views(r@).to_multiset() == crate::settings::string_views(
                names@.subrange(0, i as int),
            ).to_multiset(),
        decreases names@.len() - i,
    {
        let x = names[i].clone();
        let xc = chars_of(x.as_str());
        let ghost rv = crate::settings::string_views(r@);
        let mut p: usize = 0;
        while p < r.len()
            invariant
                p <= r@.len(),
                rv == crate::settings::string_views(r@),
                xc@ == x@,
                forall|q: int| 0 <= q < p ==> lex_le(#[trigger] rv[q], x@),
            ensures
                p <= r@.len(),
                rv == crate::settings::string_views(r@),
                forall|q: int| 0 <= q < p ==> lex_le(#[trigger] rv[q], x@),
                p < r@.len() ==> !lex_le(rv[p as int], x@),
            decreases r@.len() - p,
        {
            let pc = chars_of(r[p].as_str());
            assert(pc@ == rv[p as int]);
            if !lex_le_exec(&pc, &xc) {
                break;
            }
            p += 1;
        }
        proof {
            if p < r@.len() {
                lemma_lex_total(rv[p as int], x@);
                assert forall|q: int| p <= q < rv.len() implies lex_le(x@, #[trigger] rv[q]) by {
                    if q > p {
                        assert(lex_le(rv[p as int], rv[q]));
                        lemma_lex_trans(x@, rv[p as int], rv[q]);
                    }
                }
            }
        }
        r.insert(p, x);
        let ghost nv = crate::settings::string_views(r@);
        assert(nv =~= rv.insert(p as int, x@));
        assert(lex_sorted(nv)) by {
            assert forall|a: int, b: int| 0 <= a < b < nv.len() implies lex_le(
                #[trigger] nv[a],
                #[trigger] nv[b],
            ) by {
                if b < p {
                } else if a < p && b == p {
                } else if a < p {
                    assert(nv[b] == rv[b - 1]);
                } else if a == p {
                    assert(nv[b] == rv[b - 1]);
                } else {
                    assert(nv[a] == rv[a - 1]);
                    assert(nv[b] == rv[b - 1]);
                }
            }
        }
        proof {
            vstd::seq_lib::to_multiset_insert(rv, p as int, x@);
            let pre = names@.subrange(0, i as int);
            let next = names@.subrange(0, i + 1);
            assert(crate::settings::string_views(next) =~= crate::settings::string_views(pre).push(
                x@,
            ));
            vstd::seq_lib::to_multiset_build(crate::settings::string_views(pre), x@);
        }
        i += 1;
    }
    assert(names@.subrange(0, names@.len() as int) =~= names@);
    r
}

/// The trimmed names of the records whose trimmed comment is `c`, in order.
pub open spec fn names_with_comment(s: Seq<(Seq<char>, Option<Seq<char>>)>, c: Seq<char>) -> Seq<
    Seq<char>,
>
    decreases s.len(),
{
    if s.len() == 0 {
        seq![]
    } else {
        let p = names_with_comment(s.drop_last(), c);
        match s.last().1 {
            Some(x) => if trim(x) == c {
                p.push(trim(s.last().0))
            } else {
                p
            },
            None => p,
        }
    }
}

/// Names paired with their times.
pub open spec fn dated(names: Seq<Seq<char>>, times: Seq<Option<i64>>) -> Seq<
    (Seq<char>, Option<i64>),
> {
    Seq::new(names.len(), |k: int| (names[k], times[k]))
}

/// `deleted` is what a pruning pass deletes when the snapshots of the comment,
/// oldest first, are `sorted`, the time zone gave them `times`, and the
/// clock gave `cutoff`.
pub open spec fn is_pruning_outcome(
    deleted: Seq<Seq<char>>,
    matching: Seq<Seq<char>>,
    sorted: Seq<Seq<char>>,
    times: Seq<Option<i64>>,
    cutoff: Option<Instant>,
    settings: AppSettings,
    protect: Seq<char>,
) -> bool {
    &&& lex_sorted(sorted)
    &&& sorted.to_multiset() == matching.to_multiset()
    &&& times.len() == sorted.len()
    &&& forall|k: int|
        0 <= k < sorted.len() && timestamp_of(#[trigger] sorted[k]) is None ==> times[k] is None
    &&& settings.snapshot_retention_period is Forever ==> cutoff is None
    &&& deleted == deletion_plan(
        dated(sorted, times),
        cutoff,
        settings.snapshot_retention_count as nat,
        protect,
    )
}

/// The snapshots that a pruning pass deletes, oldest first: of the
/// snapshots whose comment is `comment`, sorted by name, those that the
/// configured period and keep-count let go, never `keep_snapshot`.
/// The caller deletes them in order and stops at the first failure.
pub fn cleanup_timeshift_snapshots(
    snaps: &Vec<SnapshotRecord>,
    comment: &str,
    settings: &AppSettings,
    keep_snapshot: &str,
) -> (r: Vec<String>)
    ensures
        exists|sorted: Seq<Seq<char>>, times: Seq<Option<i64>>, cutoff: Option<Instant>|
            #[trigger] is_pruning_outcome(
                string_views(r@),
                names_with_comment(record_views(snaps@), comment@),
                sorted,
                times,
                cutoff,
                *settings,
                keep_snapshot@,
            ),
{
    let ghost recs = record_views(snaps@);
    let mut names: Vec<String> = Vec::new();
    let mut i: usize = 0;
    while i < snaps.len()
        invariant
            i <= snaps@.len(),
            recs == record_views(snaps@),
            string_views(names@) == names_with_comment(recs.subrange(0, i as int), comment@),
        decreases snaps@.len() - i,
    {
        assert(recs.subrange(0, i + 1).drop_last() =~= recs.subrange(0, i as int));
        assert(recs.subrange(0, i + 1).last() == record_view(snaps@[i as int]));
        match &snaps[i].comment {
            Some(c) => {
                let cc = chars_of(c.as_str());
                let ct = crate::text::trimmed(&cc);
                if is_literal(&ct, comment) {
                    let nc = chars_of(snaps[i].name.as_str());
                    let nt = crate::text::trimmed(&nc);
                    let ghost old_names = names@;
                    names.push(string_from(&nt, 0, nt.len()));
                    assert(nt@.subrange(0, nt@.len() as int) =~= nt@);
                    assert(string_views(names@) =~= string_views(old_names).push(nt@));
                }
            },
            None => {},
        }
        i += 1;
    }
    assert(recs.subrange(0, snaps@.len() as int) =~= recs);
    let ghost matching = string_views(names@);
    let sorted = sort_names(names);
    let forever = match settings.snapshot_retention_period {
        SnapshotRetentionPeriod::Forever => true,
        _ => false,
    };
    let mut entries: Vec<DatedSnapshot> = Vec::new();
    let ghost mut times: Seq<Option<i64>> = seq![];
    let mut j: usize = 0;
    while j < sorted.len()
        invariant
            j <= sorted@.len(),
            entries@.len() == j,
            times.len() == j,
            forall|k: int| 0 <= k < j ==> (#[trigger] entries@[k]).name@ == sorted@[k]@,
            forall|k: int| 0 <= k < j ==> (#[trigger] entries@[k]).time == times[k],
            forall|k: int|
                0 <= k < j && timestamp_of(sorted@[k]@) is None ==> #[trigger] times[k] is None,
        decreases sorted@.len() - j,
    {
        let time = if forever {
            None
        } else {
            match parse_snapshot_timestamp(sorted[j].as_str()) {
                Some(t) => local_timestamp(&t),
                None => None,
            }
        };
        entries.push(DatedSnapshot { name: sorted[j].clone(), time });
        proof {
            times = times.push(time);
        }
        j += 1;
    }
    let cutoff = if forever {
        None
    } else {
        retention_cutoff(settings.snapshot_retention_period, now_instant())
    };
    assert(dated_views(entries@) =~= dated(string_views(sorted@), times));
    let r = snapshot_deletion_plan(
        &entries,
        cutoff,
        settings.snapshot_retention_count,
        keep_snapshot,
    );
    assert(forall|k: int|
        0 <= k < string_views(sorted@).len() && timestamp_of(#[trigger] string_views(sorted@)[k])
            is None ==> times[k] is None);
    assert(is_pruning_outcome(
        string_views(r@),
        matching,
        string_views(sorted@),
        times,
        cutoff,
        *settings,
        keep_snapshot@,
    ));
    r
}

/// The record's comment, read as empty when it has none, is `c`.
pub open spec fn created_with(r: (Seq<char>, Option<Seq<char>>), c: Seq<char>) -> bool {
    match r.1 {
        Some(x) => x == c,
        None => c.len() == 0,
    }
}

/// The name of the snapshot just made with `comment`: the greatest name
/// among the snapshots with that comment; an error when there is none.
pub fn created_snapshot_name(snaps: &Vec<SnapshotRecord>, comment: &str) -> (r: Result<
    String,
    UpdateError,
>)
    ensures
        r is Ok <==> exists|k: int|
            0 <= k < snaps@.len() && created_with(#[trigger] record_view(snaps@[k]), comment@),
        r is Ok ==> exists|k: int|
            0 <= k < snaps@.len() && created_with(#[trigger] record_view(snaps@[k]), comment@)
                && snaps@[k].name@ == r->Ok_0@,
        r is Ok ==> forall|k: int|
            0 <= k < snaps@.len() && created_with(#[trigger] record_view(snaps@[k]), comment@)
                ==> lex_le(snaps@[k].name@, r->Ok_0@),
        r is Err ==> r->Err_0 is CommandFailed && r->Err_0->CommandFailed_0@
            == "created snapshot not found in list"@,
{
    let cv = chars_of(comment);
    let mut best: Option<usize> = None;
    let mut i: usize = 0;
    while i < snaps.len()
        invariant
            i <= snaps@.len(),
            cv@ == comment@,
            best is None ==> forall|k: int|
                0 <= k < i ==> !created_with(#[trigger] record_view(snaps@[k]), comment@),
            best is Some ==> best->0 < i && created_with(
                record_view(snaps@[best->0 as int]),
                comment@,
            ),
            best is Some ==> forall|k: int|
                0 <= k < i && created_with(#[trigger] record_view(snaps@[k]), comment@) ==> lex_le(
                    snaps@[k].name@,
                    snaps@[best->0 as int].name@,
                ),
        decreases snaps@.len() - i,
    {
        let matches = match &snaps[i].comment {
            Some(c) => crate::text::str_is(c.as_str(), comment),
            None => cv.len() == 0,
        };
        assert(matches == created_with(record_view(snaps@[i as int]), comment@));
        if matches {
            match best {
                None => {
                    best = Some(i);
                    proof {
                        lemma_lex_total(snaps@[i as int].name@, snaps@[i as int].name@);
                    }
                },
                Some(b) => {
                    let bc = chars_of(snaps[b].name.as_str());
                    let nc = chars_of(snaps[i].name.as_str());
                    if lex_le_exec(&bc, &nc) {
                        best = Some(i);
                        proof {
                            lemma_lex_total(nc@, nc@);
                            assert forall|k: int|
                                0 <= k < i + 1 && created_with(
                                    #[trigger] record_view(snaps@[k]),
                                    comment@,
                                ) implies lex_le(snaps@[k].name@, nc@) by {
                                if k < i {
                                    lemma_lex_trans(snaps@[k].name@, bc@, nc@);
                                }
                            }
                        }
                    } else {
                        proof {
                            lemma_lex_total(bc@, nc@);
                        }
                    }
                },
            }
        }
        i += 1;
    }
    match best {
        Some(b) => Ok(snaps[b].name.clone()),
        None => Err(UpdateError::CommandFailed(String::from_str("created snapshot not found in list"))),
    }
}

/// The names of `e`, in order.
pub open spec fn names_of(e: Seq<(Seq<char>, Option<i64>)>) -> Seq<Seq<char>> {
    e.map_values(|p: (Seq<char>, Option<i64>)| p.0)
}

pub proof fn lemma_survivors_no_cutoff(e: Seq<(Seq<char>, Option<i64>)>)
    ensures
        survivors(e, None) == names_of(e),
    decreases e.len(),
{
    if e.len() > 0 {
        lemma_survivors_no_cutoff(e.drop_last());
        assert(names_of(e) =~= names_of(e.drop_last()).push(e.last().0));
    } else {
        assert(names_of(e) =~= seq![]);
    }
}

pub proof fn lemma_without_contains(s: Seq<Seq<char>>, k: Seq<char>, x: Seq<char>)
    ensures
        without(s, k).contains(x) ==> s.contains(x) && x != k,
    decreases s.len(),
{
    if s.len() > 0 {
        lemma_without_contains(s.drop_last(), k, x);
        if without(s, k).contains(x) {
            let w = without(s.drop_last(), k);
            if s.last() != k && x == s.last() {
                assert(s[s.len() - 1] == x);
            } else {
                if s.last() != k {
                    let i = choose|i: int| 0 <= i < w.push(s.last()).len() && w.push(s.last())[i] == x;
                    assert(w.contains(x)) by {
                        assert(w[i] == x);
                    }
                }
                let j = choose|j: int| 0 <= j < s.drop_last().len() && s.drop_last()[j] == x;
                assert(s[j] == x);
            }
        }
    }
}

pub proof fn lemma_survivors_contains(
    e: Seq<(Seq<char>, Option<i64>)>,
    cutoff: Option<Instant>,
    x: Seq<char>,
)
    ensures
        survivors(e, cutoff).contains(x) ==> exists|j: int|
            0 <= j < e.len() && (#[trigger] e[j]).0 == x && within(e[j].1, cutoff),
    decreases e.len(),
{
    if e.len() > 0 {
        lemma_survivors_contains(e.drop_last(), cutoff, x);
        let p = survivors(e.drop_last(), cutoff);
        if survivors(e, cutoff).contains(x) {
            if within(e.last().1, cutoff) && x == e.last().0 {
                assert(e[e.len() - 1].0 == x);
            } else {
                if within(e.last().1, cutoff) {
                    let i = choose|i: int| 0 <= i < p.push(e.last().0).len() && p.push(e.last().0)[i] == x;
                    assert(p.contains(x)) by {
                        assert(p[i] == x);
                    }
                }
                let j = choose|j: int|
                    0 <= j < e.drop_last().len() && (#[trigger] e.drop_last()[j]).0 == x && within(
                        e.drop_last()[j].1,
                        cutoff,
                    );
                assert(e[j] == e.drop_last()[j]);
            }
        }
    }
}

/// Count cap without a time cutoff: a pass deletes exactly the oldest
/// entries beyond the keep-count, except the protected name.
pub proof fn lemma_plan_without_cutoff(
    e: Seq<(Seq<char>, Option<i64>)>,
    keep_count: nat,
    protect: Seq<char>,
)
    ensures
        deletion_plan(e, None, keep_count, protect) == if e.len() > keep_count {
            without(names_of(e).subrange(0, e.len() - keep_count), protect)
        } else {
            seq![]
        },
{
    lemma_survivors_no_cutoff(e);
}

/// The protected name is never deleted, and the time cutoff applies before
/// the count cap: every deleted name is one that the cutoff keeps, and lies
/// outside the newest `keep_count` of what the cutoff keeps.
pub proof fn lemma_plan_deletes(
    e: Seq<(Seq<char>, Option<i64>)>,
    cutoff: Option<Instant>,
    keep_count: nat,
    protect: Seq<char>,
    x: Seq<char>,
)
    requires
        deletion_plan(e, cutoff, keep_count, protect).contains(x),
    ensures
        x != protect,
        survivors(e, cutoff).len() > keep_count,
        survivors(e, cutoff).subrange(0, survivors(e, cutoff).len() - keep_count).contains(x),
        exists|j: int| 0 <= j < e.len() && (#[trigger] e[j]).0 == x && within(e[j].1, cutoff),
{
    let s = survivors(e, cutoff);
    if s.len() <= keep_count {
        assert(deletion_plan(e, cutoff, keep_count, protect) =~= seq![]);
    }
    let head = s.subrange(0, s.len() - keep_count);
    lemma_without_contains(head, protect, x);
    let i = choose|i: int| 0 <= i < head.len() && head[i] == x;
    assert(s[i] == x);
    lemma_survivors_contains(e, cutoff, x);
}

} // verus!
