use vstd::prelude::*;
use crate::calendar::{Timestamp, CivilDate, midnight, day_after};
use crate::event_store::{
    Observation,
    sorted_by_time,
    in_window,
    in_hour,
    latest_of,
    newest_first_in,
    hour_buckets,
    hour_seen,
    hour_total,
};
use crate::query_engine::{ItemView, observation_items, day_items};

verus! {

/// The observations a window query returns are exactly the logged ones that lie in the window.
pub proof fn lemma_window_members(s: Seq<Observation>, start: Timestamp, end: Timestamp)
    ensures
        forall|x: Observation| #[trigger]
            newest_first_in(s, start, end).contains(x) <==> (s.contains(x) && in_window(
                x.time,
                start,
                end,
            )),
    decreases s.len(),
{
    if s.len() > 0 {
        let rest = s.subrange(1, s.len() as int);
        lemma_window_members(rest, start, end);
        let head: Seq<Observation> = if in_window(s[0].time, start, end) {
            seq![s[0]]
        } else {
            Seq::empty()
        };
        assert(newest_first_in(s, start, end) == newest_first_in(rest, start, end) + head);
        assert forall|x: Observation| #[trigger]
            newest_first_in(s, start, end).contains(x) <==> (s.contains(x) && in_window(
                x.time,
                start,
                end,
            )) by {
            let r = newest_first_in(rest, start, end);
            if (r + head).contains(x) {
                let k = choose|k: int| 0 <= k < (r + head).len() && (r + head)[k] == x;
                if k < r.len() {
                    assert(r[k] == x);
                    assert(r.contains(x));
                    let j = choose|j: int| 0 <= j < rest.len() && rest[j] == x;
                    assert(s[j + 1] == x);
                } else {
                    assert(s[0] == x);
                }
            }
            if s.contains(x) && in_window(x.time, start, end) {
                let j = choose|j: int| 0 <= j < s.len() && s[j] == x;
                if j == 0 {
                    assert((r + head)[r.len() as int] == x);
                } else {
                    assert(rest[j - 1] == x);
                    assert(r.contains(x));
                    let k = choose|k: int| 0 <= k < r.len() && r[k] == x;
                    assert((r + head)[k] == x);
                }
            }
        }
    }
}

/// Every bucket's hour lies below `upto`.
pub proof fn lemma_bucket_hours(s: Seq<Observation>, d: CivilDate, upto: int, i: int)
    requires
        0 <= i < hour_buckets(s, d, upto).len(),
    ensures
        0 <= hour_buckets(s, d, upto)[i].0 < upto,
    decreases upto,
{
    if upto > 0 {
        let prev = hour_buckets(s, d, upto - 1);
        if i < prev.len() {
            lemma_bucket_hours(s, d, upto - 1, i);
        }
    }
}

/// At most `n` observations come back from a latest-`n` query, and they go from newest to
/// oldest: no one is later than the one before it.
pub proof fn lemma_latest_newest_first(s: Seq<Observation>, n: int)
    requires
        sorted_by_time(s),
        n >= 0,
    ensures
        latest_of(s, n).len() <= n,
        forall|i: int, j: int|
            0 <= i < j < latest_of(s, n).len() ==> latest_of(s, n)[j].time.key() <= latest_of(
                s,
                n,
            )[i].time.key(),
{
    let r = latest_of(s, n);
    assert forall|i: int, j: int| 0 <= i < j < r.len() implies r[j].time.key()
        <= r[i].time.key() by {
        assert(r[i] == s[s.len() - 1 - i]);
        assert(r[j] == s[s.len() - 1 - j]);
    }
}

/// A latest-`n` query with `n <= 0` returns nothing.
pub proof fn lemma_latest_nonpositive_empty(s: Seq<Observation>, n: int)
    requires
        n <= 0,
    ensures
        latest_of(s, n) == Seq::<Observation>::empty(),
{
    assert(latest_of(s, n) =~= Seq::<Observation>::empty());
}

/// A window query returns its observations newest first.
pub proof fn lemma_window_newest_first(s: Seq<Observation>, start: Timestamp, end: Timestamp)
    requires
        sorted_by_time(s),
    ensures
        forall|i: int, j: int|
            0 <= i < j < newest_first_in(s, start, end).len() ==> newest_first_in(s, start, end)[j].time.key()
                <= newest_first_in(s, start, end)[i].time.key(),
    decreases s.len(),
{
    if s.len() > 0 {
        let rest = s.subrange(1, s.len() as int);
        assert(sorted_by_time(rest));
        lemma_window_newest_first(rest, start, end);
        lemma_window_members(rest, start, end);
        let r = newest_first_in(rest, start, end);
        let head: Seq<Observation> = if in_window(s[0].time, start, end) {
            seq![s[0]]
        } else {
            Seq::empty()
        };
        let all = r + head;
        assert(newest_first_in(s, start, end) == all);
        assert forall|i: int, j: int| 0 <= i < j < all.len() implies all[j].time.key()
            <= all[i].time.key() by {
            if j >= r.len() {
                assert(all[j] == s[0]);
                assert(all[i] == r[i]);
                assert(r.contains(r[i]));
                let k = choose|k: int| 0 <= k < rest.len() && rest[k] == r[i];
                assert(s[k + 1] == r[i]);
            } else {
                assert(all[i] == r[i] && all[j] == r[j]);
            }
        }
    }
}

/// Recording an observation outside a window leaves that window's query result as it was.
pub proof fn lemma_outside_window_unchanged(
    s: Seq<Observation>,
    p: int,
    o: Observation,
    start: Timestamp,
    end: Timestamp,
)
    requires
        0 <= p <= s.len(),
        !in_window(o.time, start, end),
    ensures
        newest_first_in(s.insert(p, o), start, end) == newest_first_in(s, start, end),
    decreases s.len(),
{
    let t = s.insert(p, o);
    if p == 0 {
        assert(t.subrange(1, t.len() as int) =~= s);
    } else {
        let rest = s.subrange(1, s.len() as int);
        lemma_outside_window_unchanged(rest, p - 1, o, start, end);
        assert(t.subrange(1, t.len() as int) =~= rest.insert(p - 1, o));
        assert(t[0] == s[0]);
    }
}

/// Within one calendar day, recording one more observation loses nothing from today's
/// result: every item of the first query is still in the second.
pub proof fn lemma_today_grows(
    s: Seq<Observation>,
    p: int,
    o: Observation,
    now1: Timestamp,
    now2: Timestamp,
    v: ItemView,
)
    requires
        0 <= p <= s.len(),
        now1.date == now2.date,
        day_items(s, now1.date).contains(v),
    ensures
        day_items(s.insert(p, o), now2.date).contains(v),
{
    let d = now1.date;
    let start = midnight(d);
    let end = midnight(day_after(d));
    let before = newest_first_in(s, start, end);
    let after = newest_first_in(s.insert(p, o), start, end);
    lemma_window_members(s, start, end);
    lemma_window_members(s.insert(p, o), start, end);
    let k = choose|k: int| 0 <= k < day_items(s, d).len() && day_items(s, d)[k] == v;
    let x = before[k];
    assert(observation_items(before)[k] == v);
    assert(before.contains(x));
    let j = choose|j: int| 0 <= j < s.len() && s[j] == x;
    if j < p {
        assert(s.insert(p, o)[j] == x);
    } else {
        assert(s.insert(p, o)[j + 1] == x);
    }
    assert(after.contains(x));
    let m = choose|m: int| 0 <= m < after.len() && after[m] == x;
    assert(observation_items(after)[m] == v);
}

/// Each bucket of day `d` holds an hour in which something was recorded and the sum of that
/// hour's counts; each such hour has its bucket; buckets go from the earliest hour on.
pub proof fn lemma_hour_buckets_exact(s: Seq<Observation>, d: CivilDate, upto: int)
    ensures
        forall|i: int|
            0 <= i < hour_buckets(s, d, upto).len() ==> {
                let b = #[trigger] hour_buckets(s, d, upto)[i];
                &&& hour_seen(s, midnight(d), midnight(day_after(d)), b.0)
                &&& b.1 == hour_total(s, midnight(d), midnight(day_after(d)), b.0)
            },
        forall|h: int|
            0 <= h < upto && #[trigger] hour_seen(s, midnight(d), midnight(day_after(d)), h)
                ==> exists|i: int|
                0 <= i < hour_buckets(s, d, upto).len() && hour_buckets(s, d, upto)[i].0 == h,
        forall|i: int, j: int|
            0 <= i < j < hour_buckets(s, d, upto).len() ==> hour_buckets(s, d, upto)[i].0
                < hour_buckets(s, d, upto)[j].0,
    decreases upto,
{
    if upto > 0 {
        lemma_hour_buckets_exact(s, d, upto - 1);
        let prev = hour_buckets(s, d, upto - 1);
        let cur = hour_buckets(s, d, upto);
        assert forall|i: int| 0 <= i < prev.len() implies cur[i] == prev[i] && prev[i].0 < upto
            - 1 by {
            lemma_bucket_hours(s, d, upto - 1, i);
        }
        assert forall|h: int|
            0 <= h < upto && #[trigger] hour_seen(
                s,
                midnight(d),
                midnight(day_after(d)),
                h,
            ) implies exists|i: int| 0 <= i < cur.len() && cur[i].0 == h by {
            if h == upto - 1 {
                assert(cur[prev.len() as int].0 == h);
            } else {
                let i = choose|i: int| 0 <= i < prev.len() && prev[i].0 == h;
                assert(cur[i].0 == h);
            }
        }
    }
}

/// Right after an observation is recorded at an instant no earlier than any logged one, a
/// latest-one query returns exactly that observation.
pub proof fn lemma_latest_after_append(s: Seq<Observation>, p: int, o: Observation)
    requires
        crate::event_store::insertion_point(s, o.time, p),
        forall|i: int| 0 <= i < s.len() ==> (#[trigger] s[i]).time.key() <= o.time.key(),
    ensures
        latest_of(s.insert(p, o), 1) == seq![o],
{
    if p < s.len() {
        assert(s[p].time.key() > o.time.key());
    }
    assert(latest_of(s.insert(p, o), 1) =~= seq![o]);
}

} // verus!
