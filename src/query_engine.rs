use vstd::prelude::*;
use crate::calendar::{
    Timestamp,
    CivilDate,
    clock_text,
    date_of_text,
    day_after,
    day_before,
    format_clock,
    midnight,
    parse_date,
    previous_day,
    start_of_day,
};
use crate::event_store::{
    EventLog,
    Observation,
    hour_buckets,
    latest_of,
    newest_first_in,
    buckets_view,
};

verus! {

/// What a query hands back for one observation or one hour bucket.
pub struct Item {
    /// Time of day, `HH:MM`; `HH:00` for an hour bucket.
    pub time: String,
    pub nb_people: i32,
    pub source: Option<String>,
}

/// The fields a caller supplies to record a count; the store assigns the time.
pub struct Item2 {
    pub nb_people: i32,
    pub source: Option<String>,
}

/// A request naming one calendar day, written `YYYY-MM-DD`.
pub struct DayRequest {
    pub date: String,
}

/// Why a query could not be answered.
#[derive(Clone, Copy, Debug, PartialEq, Eq, Structural)]
pub enum QueryError {
    /// The store could not be reached, or could not answer.
    StoreUnavailable,
    /// A caller-supplied date is not a calendar date.
    InvalidArgument,
}

/// An item as text, count and source text.
pub type ItemView = (Seq<char>, int, Option<Seq<char>>);

pub open spec fn source_view(s: Option<String>) -> Option<Seq<char>> {
    match s {
        Some(t) => Some(t@),
        None => None,
    }
}

impl View for Item {
    type V = ItemView;

    open spec fn view(&self) -> ItemView {
        (self.time@, self.nb_people as int, source_view(self.source))
    }
}

pub open spec fn items_view(v: Seq<Item>) -> Seq<ItemView> {
    v.map_values(|i: Item| i@)
}

/// How an observation is shown: its time of day as `HH:MM`, its count and its source.
pub open spec fn observation_item(o: Observation) -> ItemView {
    (clock_text(o.time.hour as int, o.time.minute as int), o.nb_people as int, source_view(o.source))
}

/// How an hour bucket is shown: `HH:00`, its total, and no source.
pub open spec fn bucket_item(b: (int, int)) -> ItemView {
    (clock_text(b.0, 0), b.1, None)
}

pub open spec fn observation_items(s: Seq<Observation>) -> Seq<ItemView> {
    s.map_values(|o: Observation| observation_item(o))
}

pub open spec fn bucket_items(b: Seq<(int, int)>) -> Seq<ItemView> {
    b.map_values(|x: (int, int)| bucket_item(x))
}

/// Every bucket total fits the 32-bit count of an item.
pub open spec fn totals_fit(b: Seq<(int, int)>) -> bool {
    forall|i: int| 0 <= i < b.len() ==> i32::MIN <= (#[trigger] b[i]).1 <= i32::MAX
}

/// The items of the observations of `[start, end)`, newest first.
pub open spec fn window_items(log: Seq<Observation>, start: Timestamp, end: Timestamp) -> Seq<
    ItemView,
> {
    observation_items(newest_first_in(log, start, end))
}

/// The items of day `d`, newest first.
pub open spec fn day_items(log: Seq<Observation>, d: CivilDate) -> Seq<ItemView> {
    window_items(log, midnight(d), midnight(day_after(d)))
}

/// Shows one observation.
pub fn to_item(o: &Observation) -> (r: Item)
    requires
        o.time.wf(),
    ensures
        r@ == observation_item(*o),
{
    let source = match &o.source {
        Some(s) => Some(s.clone()),
        None => None,
    };
    Item { time: format_clock(o.time.hour, o.time.minute), nb_people: o.nb_people, source }
}

fn to_items(obs: &Vec<Observation>) -> (r: Vec<Item>)
    requires
        forall|i: int| 0 <= i < obs@.len() ==> (#[trigger] obs@[i]).time.wf(),
    ensures
        items_view(r@) == observation_items(obs@),
{
    let mut r: Vec<Item> = Vec::new();
    let mut i: usize = 0;
    while i < obs.len()
        invariant
            i <= obs@.len(),
            forall|k: int| 0 <= k < obs@.len() ==> (#[trigger] obs@[k]).time.wf(),
            items_view(r@) =~= observation_items(obs@.subrange(0, i as int)),
        decreases obs.len() - i,
    {
        let ghost before = r@;
        r.push(to_item(&obs[i]));
        assert(obs@.subrange(0, i + 1) =~= obs@.subrange(0, i as int).push(obs@[i as int]));
        assert(items_view(r@) =~= items_view(before).push(r@[i as int]@));
        i = i + 1;
    }
    assert(obs@.subrange(0, i as int) =~= obs@);
    r
}

/// The `nb` most recent observations, newest first; none when `nb <= 0`.
pub fn get_item(log: &EventLog, nb: i64) -> (r: Vec<Item>)
    requires
        log.wf(),
    ensures
        items_view(r@) == observation_items(latest_of(log@, nb as int)),
{
    let obs = log.query_latest(nb);
    proof {
        assert forall|i: int| 0 <= i < obs@.len() implies (#[trigger] obs@[i]).time.wf() by {
            assert(obs@[i] == log@[log@.len() - 1 - i]);
        }
    }
    to_items(&obs)
}

/// Records `nb_people` from `source` at `now`, the store's current instant, and shows it.
pub fn create_item(log: &mut EventLog, now: Timestamp, nb_people: i32, source: Option<String>) -> (r:
    Item)
    requires
        old(log).wf(),
        now.wf(),
    ensures
        final(log).wf(),
        exists|p: int|
            crate::event_store::insertion_point(old(log)@, now, p) && final(log)@ == old(log)@.insert(
                p,
                Observation { time: now, nb_people, source },
            ),
        r@ == (clock_text(now.hour as int, now.minute as int), nb_people as int, source_view(
            source,
        )),
{
    let obs = log.append(now, nb_people, source);
    to_item(&obs)
}

fn window_to_items(log: &EventLog, start: Timestamp, end: Timestamp) -> (r: Vec<Item>)
    requires
        log.wf(),
        start.bounded(),
        end.bounded(),
    ensures
        items_view(r@) == window_items(log@, start, end),
{
    let obs = log.query_range(start, end);
    proof {
        crate::laws::lemma_window_members(log@, start, end);
        assert forall|i: int| 0 <= i < obs@.len() implies (#[trigger] obs@[i]).time.wf() by {
            assert(newest_first_in(log@, start, end).contains(obs@[i]));
            let j = choose|j: int| 0 <= j < log@.len() && log@[j] == obs@[i];
            assert(log@[j].time.wf());
        }
    }
    to_items(&obs)
}

/// Everything recorded on calendar day `date` (`YYYY-MM-DD`), newest first.
pub fn get_day(log: &EventLog, date: &str) -> (r: Result<Vec<Item>, QueryError>)
    requires
        log.wf(),
    ensures
        date_of_text(date@) is None <==> r == Err::<Vec<Item>, QueryError>(
            QueryError::InvalidArgument,
        ),
        date_of_text(date@) matches Some(d) ==> (r matches Ok(v) && items_view(v@) == day_items(
            log@,
            d,
        )),
{
    match parse_date(date) {
        None => Err(QueryError::InvalidArgument),
        Some(d) => {
            let next = crate::calendar::next_day(d);
            Ok(window_to_items(log, start_of_day(d), start_of_day(next)))
        },
    }
}

/// Everything recorded today, the calendar day of `now`, newest first.
pub fn get_past_day(log: &EventLog, now: Timestamp) -> (r: Vec<Item>)
    requires
        log.wf(),
        now.wf(),
    ensures
        items_view(r@) == day_items(log@, now.date),
{
    let next = crate::calendar::next_day(now.date);
    window_to_items(log, start_of_day(now.date), start_of_day(next))
}

/// Everything recorded yesterday, the calendar day before that of `now`, newest first.
pub fn get_day_before(log: &EventLog, now: Timestamp) -> (r: Vec<Item>)
    requires
        log.wf(),
        now.wf(),
    ensures
        items_view(r@) == day_items(log@, day_before(now.date)),
{
    let prev = previous_day(now.date);
    window_to_items(log, start_of_day(prev), start_of_day(now.date))
}

/// For calendar day `date` (`YYYY-MM-DD`), one item `HH:00` per hour in which something was
/// recorded, earliest first, with the sum of that hour's counts and no source.
/// A total beyond the 32-bit range is one the store cannot report: the query fails.
pub fn get_people_per_hour(log: &EventLog, date: &str) -> (r: Result<Vec<Item>, QueryError>)
    requires
        log.wf(),
    ensures
        date_of_text(date@) is None <==> r == Err::<Vec<Item>, QueryError>(
            QueryError::InvalidArgument,
        ),
        date_of_text(date@) matches Some(d) ==> {
            let b = hour_buckets(log@, d, 24);
            &&& totals_fit(b) ==> (r matches Ok(v) && items_view(v@) == bucket_items(b))
            &&& !totals_fit(b) ==> r == Err::<Vec<Item>, QueryError>(
                QueryError::StoreUnavailable,
            )
        },
{
    let d = match parse_date(date) {
        None => {
            return Err(QueryError::InvalidArgument);
        },
        Some(d) => d,
    };
    let buckets = log.query_hour_buckets(d);
    let ghost b = hour_buckets(log@, d, 24);
    assert(b.len() == buckets@.len());
    let mut r: Vec<Item> = Vec::new();
    let mut i: usize = 0;
    while i < buckets.len()
        invariant
            buckets_view(buckets@) == b,
            b == hour_buckets(log@, d, 24),
            b.len() == buckets@.len(),
            date_of_text(date@) == Some(d),
            i <= buckets@.len(),
            totals_fit(b.subrange(0, i as int)),
            items_view(r@) =~= bucket_items(b.subrange(0, i as int)),
        decreases buckets.len() - i,
    {
        let (h, total) = buckets[i];
        assert(buckets_view(buckets@)[i as int] == (h as int, total as int));
        assert(b[i as int] == (h as int, total as int));
        if total < i32::MIN as i128 || total > i32::MAX as i128 {
            assert(!totals_fit(b));
            return Err(QueryError::StoreUnavailable);
        }
        assert(h < 24) by {
            crate::laws::lemma_bucket_hours(log@, d, 24, i as int);
        }
        let item = Item { time: format_clock(h, 0), nb_people: total as i32, source: None };
        let ghost before = r@;
        r.push(item);
        assert(b.subrange(0, i + 1) =~= b.subrange(0, i as int).push(b[i as int]));
        assert(items_view(r@) =~= items_view(before).push(bucket_item(b[i as int])));
        i = i + 1;
    }
    assert(b.subrange(0, i as int) =~= b);
    Ok(r)
}

} // verus!
