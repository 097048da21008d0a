use vstd::prelude::*;
use crate::calendar::{Timestamp, CivilDate, day_after, midnight, next_day, start_of_day};

verus! {

/// One recorded people count.
pub struct Observation {
    pub time: Timestamp,
    pub nb_people: i32,
    pub source: Option<String>,
}

impl Observation {
    /// A copy of this observation.
    pub fn duplicate(&self) -> (r: Observation)
        ensures
            r == *self,
    {
        let source = match &self.source {
            Some(s) => Some(s.clone()),
            None => None,
        };
        Observation { time: self.time, nb_people: self.nb_people, source }
    }
}

/// Oldest first: no observation comes after a later one.
pub open spec fn sorted_by_time(s: Seq<Observation>) -> bool {
    forall|i: int, j: int| 0 <= i < j < s.len() ==> s[i].time.key() <= s[j].time.key()
}

pub open spec fn all_times_wf(s: Seq<Observation>) -> bool {
    forall|i: int| 0 <= i < s.len() ==> (#[trigger] s[i]).time.wf()
}

/// Whether `t` lies in the half-open window `[start, end)`.
pub open spec fn in_window(t: Timestamp, start: Timestamp, end: Timestamp) -> bool {
    start.key() <= t.key() < end.key()
}

/// `p` is where an observation at `t` joins `s`: after every one no later than `t`,
/// before every later one.
pub open spec fn insertion_point(s: Seq<Observation>, t: Timestamp, p: int) -> bool {
    &&& 0 <= p <= s.len()
    &&& forall|i: int| 0 <= i < p ==> (#[trigger] s[i]).time.key() <= t.key()
    &&& forall|i: int| p <= i < s.len() ==> (#[trigger] s[i]).time.key() > t.key()
}

/// The `n` most recent observations of an oldest-first log, newest first.
pub open spec fn latest_of(s: Seq<Observation>, n: int) -> Seq<Observation> {
    let count = if n <= 0 {
        0
    } else if n < s.len() {
        n
    } else {
        s.len() as int
    };
    Seq::new(count as nat, |i: int| s[s.len() - 1 - i])
}

/// The observations of an oldest-first log that lie in `[start, end)`, newest first.
pub open spec fn newest_first_in(s: Seq<Observation>, start: Timestamp, end: Timestamp) -> Seq<
    Observation,
>
    decreases s.len(),
{
    if s.len() == 0 {
        Seq::empty()
    } else {
        newest_first_in(s.subrange(1, s.len() as int), start, end) + if in_window(
            s[0].time,
            start,
            end,
        ) {
            seq![s[0]]
        } else {
            Seq::empty()
        }
    }
}

/// Whether an observation in `[start, end)` was recorded during hour `h` of its day.
pub open spec fn in_hour(o: Observation, start: Timestamp, end: Timestamp, h: int) -> bool {
    in_window(o.time, start, end) && o.time.hour == h
}

/// The sum of the counts recorded in `[start, end)` during hour `h`.
pub open spec fn hour_total(s: Seq<Observation>, start: Timestamp, end: Timestamp, h: int) -> int
    decreases s.len(),
{
    if s.len() == 0 {
        0
    } else {
        hour_total(s.drop_last(), start, end, h) + if in_hour(s.last(), start, end, h) {
            s.last().nb_people as int
        } else {
            0
        }
    }
}

/// Whether anything was recorded in `[start, end)` during hour `h`.
pub open spec fn hour_seen(s: Seq<Observation>, start: Timestamp, end: Timestamp, h: int) -> bool {
    exists|i: int| 0 <= i < s.len() && in_hour(#[trigger] s[i], start, end, h)
}

/// The buckets of day `d` for the hours below `upto`, earliest first:
/// one `(hour, total)` for each hour in which something was recorded.
pub open spec fn hour_buckets(s: Seq<Observation>, d: CivilDate, upto: int) -> Seq<(int, int)>
    decreases upto,
{
    if upto <= 0 {
        Seq::empty()
    } else {
        let start = midnight(d);
        let end = midnight(day_after(d));
        let h = upto - 1;
        hour_buckets(s, d, h) + if hour_seen(s, start, end, h) {
            seq![(h, hour_total(s, start, end, h))]
        } else {
            Seq::empty()
        }
    }
}

/// Hour buckets as integers.
pub open spec fn buckets_view(v: Seq<(u8, i128)>) -> Seq<(int, int)> {
    v.map_values(|b: (u8, i128)| (b.0 as int, b.1 as int))
}

/// An append-only log of observations, held oldest first.
pub struct EventLog {
    entries: Vec<Observation>,
}

impl View for EventLog {
    type V = Seq<Observation>;

    closed spec fn view(&self) -> Seq<Observation> {
        self.entries@
    }
}

impl EventLog {
    pub open spec fn wf(&self) -> bool {
        sorted_by_time(self@) && all_times_wf(self@)
    }

    pub fn new() -> (r: EventLog)
        ensures
            r.wf(),
            r@ == Seq::<Observation>::empty(),
    {
        EventLog { entries: Vec::new() }
    }

    pub fn len(&self) -> (r: usize)
        ensures
            r == self@.len(),
    {
        self.entries.len()
    }

    /// Adds an observation, keeping the log oldest first; among equal times it goes last.
    pub fn insert(&mut self, obs: Observation)
        requires
            old(self).wf(),
            obs.time.wf(),
        ensures
            final(self).wf(),
            exists|p: int|
                insertion_point(old(self)@, obs.time, p) && final(self)@ == old(self)@.insert(
                    p,
                    obs,
                ),
    {
        let ghost s = self@;
        let mut p = self.entries.len();
        while p > 0 && !self.entries[p - 1].time.not_after(&obs.time)
            invariant
                self@ == s,
                sorted_by_time(s),
                all_times_wf(s),
                obs.time.wf(),
                p <= s.len(),
                forall|i: int| p <= i < s.len() ==> (#[trigger] s[i]).time.key() > obs.time.key(),
            decreases p,
        {
            p = p - 1;
        }
        assert(insertion_point(s, obs.time, p as int)) by {
            if p > 0 {
                assert(s[p - 1].time.key() <= obs.time.key());
                assert forall|i: int| 0 <= i < p implies (#[trigger] s[i]).time.key()
                    <= obs.time.key() by {
                    if i < p - 1 {
                        assert(s[i].time.key() <= s[p - 1].time.key());
                    }
                }
            }
        }
        let ghost t = obs.time;
        self.entries.insert(p, obs);
        let ghost n = self@;
        assert(n == s.insert(p as int, obs));
        assert forall|i: int, j: int| 0 <= i < j < n.len() implies n[i].time.key()
            <= n[j].time.key() by {
            if j < p {
                assert(n[i] == s[i] && n[j] == s[j]);
            } else if j == p {
                assert(n[i] == s[i]);
            } else if i < p {
                assert(n[i] == s[i] && n[j] == s[j - 1]);
            } else if i == p {
                assert(n[j] == s[j - 1]);
            } else {
                assert(n[i] == s[i - 1] && n[j] == s[j - 1]);
            }
        }
        assert forall|i: int| 0 <= i < n.len() implies (#[trigger] n[i]).time.wf() by {
            if i < p {
                assert(n[i] == s[i]);
            } else if i > p {
                assert(n[i] == s[i - 1]);
            }
        }
    }

    /// Records a count at `now`, the store's current instant, and returns the new observation.
    pub fn append(&mut self, now: Timestamp, nb_people: i32, source: Option<String>) -> (r:
        Observation)
        requires
            old(self).wf(),
            now.wf(),
        ensures
            final(self).wf(),
            r == (Observation { time: now, nb_people, source }),
            exists|p: int|
                insertion_point(old(self)@, now, p) && final(self)@ == old(self)@.insert(p, r),
    {
        let obs = Observation { time: now, nb_people, source };
        let r = obs.duplicate();
        self.insert(obs);
        r
    }

    /// At most `limit` of the most recent observations, newest first; none when `limit <= 0`.
    pub fn query_latest(&self, limit: i64) -> (r: Vec<Observation>)
        ensures
            r@ == latest_of(self@, limit as int),
    {
        let s = &self.entries;
        let mut r: Vec<Observation> = Vec::new();
        if limit <= 0 {
            assert(r@ =~= latest_of(self@, limit as int));
            return r;
        }
        let count: usize = if (limit as u64) < (s.len() as u64) {
            limit as usize
        } else {
            s.len()
        };
        let mut k: usize = 0;
        while k < count
            invariant
                count <= s@.len(),
                count == latest_of(self@, limit as int).len(),
                self@ == s@,
                k <= count,
                r@ =~= latest_of(self@, limit as int).subrange(0, k as int),
            decreases count - k,
        {
            r.push(s[s.len() - 1 - k].duplicate());
            k = k + 1;
        }
        assert(r@ =~= latest_of(self@, limit as int));
        r
    }

    /// Every observation in `[start, end)`, newest first.
    pub fn query_range(&self, start: Timestamp, end: Timestamp) -> (r: Vec<Observation>)
        requires
            self.wf(),
            start.bounded(),
            end.bounded(),
        ensures
            r@ == newest_first_in(self@, start, end),
    {
        let s = &self.entries;
        let mut r: Vec<Observation> = Vec::new();
        let mut i: usize = s.len();
        assert(s@.subrange(i as int, s@.len() as int) =~= Seq::<Observation>::empty());
        while i > 0
            invariant
                self.wf(),
                self@ == s@,
                start.bounded(),
                end.bounded(),
                i <= s@.len(),
                r@ == newest_first_in(s@.subrange(i as int, s@.len() as int), start, end),
            decreases i,
        {
            let ghost old_r = r@;
            let o = &s[i - 1];
            assert(s@[i - 1].time.wf());
            let ghost rest = s@.subrange(i as int, s@.len() as int);
            let ghost tail = s@.subrange(i - 1, s@.len() as int);
            assert(tail.subrange(1, tail.len() as int) =~= rest);
            if start.not_after(&o.time) && !end.not_after(&o.time) {
                r.push(o.duplicate());
                assert(r@ =~= old_r + seq![s@[i - 1]]);
            } else {
                assert(r@ =~= old_r + Seq::<Observation>::empty());
            }
            i = i - 1;
        }
        assert(s@.subrange(0, s@.len() as int) =~= s@);
        r
    }

    /// Every observation of day `d`, newest first.
    pub fn query_day(&self, d: CivilDate) -> (r: Vec<Observation>)
        requires
            self.wf(),
            d.wf(),
        ensures
            r@ == newest_first_in(self@, midnight(d), midnight(day_after(d))),
    {
        let next = next_day(d);
        self.query_range(start_of_day(d), start_of_day(next))
    }

    /// Whether anything was recorded in `[start, end)` during hour `h`, and the sum of those counts.
    fn total_for_hour(&self, start: Timestamp, end: Timestamp, h: u8) -> (r: (bool, i128))
        requires
            self.wf(),
            start.bounded(),
            end.bounded(),
        ensures
            r.0 == hour_seen(self@, start, end, h as int),
            r.1 == hour_total(self@, start, end, h as int),
    {
        let s = &self.entries;
        let mut seen = false;
        let mut total: i128 = 0;
        let mut i: usize = 0;
        while i < s.len()
            invariant
                self.wf(),
                self@ == s@,
                start.bounded(),
                end.bounded(),
                i <= s@.len(),
                seen == exists|j: int| 0 <= j < i && in_hour(#[trigger] s@[j], start, end, h as int),
                total == hour_total(s@.subrange(0, i as int), start, end, h as int),
                -(i as int) * 2147483648 <= total <= (i as int) * 2147483648,
            decreases s.len() - i,
        {
            let o = &s[i];
            assert(s@[i as int].time.wf());
            assert(s@.subrange(0, i + 1).drop_last() =~= s@.subrange(0, i as int));
            if o.time.hour == h && start.not_after(&o.time) && !end.not_after(&o.time) {
                seen = true;
                total = total + o.nb_people as i128;
            }
            i = i + 1;
        }
        assert(s@.subrange(0, s@.len() as int) =~= s@);
        (seen, total)
    }

    /// For day `d`, one `(hour, total)` for each hour in which something was recorded,
    /// earliest first; `total` sums the counts of that hour.
    pub fn query_hour_buckets(&self, d: CivilDate) -> (r: Vec<(u8, i128)>)
        requires
            self.wf(),
            d.wf(),
        ensures
            buckets_view(r@) == hour_buckets(self@, d, 24),
    {
        let start = start_of_day(d);
        let end = start_of_day(next_day(d));
        let mut r: Vec<(u8, i128)> = Vec::new();
        let mut h: u8 = 0;
        while h < 24
            invariant
                self.wf(),
                d.wf(),
                start == midnight(d),
                end == midnight(day_after(d)),
                h <= 24,
                buckets_view(r@) =~= hour_buckets(self@, d, h as int),
            decreases 24 - h,
        {
            let (seen, total) = self.total_for_hour(start, end, h);
            let ghost before = r@;
            if seen {
                r.push((h, total));
                assert(buckets_view(r@) =~= buckets_view(before) + seq![(h as int, total as int)]);
            }
            h = h + 1;
        }
        r
    }
}

} // verus!
