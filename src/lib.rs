use vstd::prelude::*;

pub mod calendar;
pub mod event_store;
pub mod laws;
pub mod query_engine;

pub use calendar::{CivilDate, Timestamp, parse_date, format_clock};
pub use event_store::{EventLog, Observation};
pub use query_engine::{
    DayRequest, Item, Item2, QueryError, create_item, get_day, get_day_before, get_item,
    get_past_day, get_people_per_hour, to_item,
};

verus! {

} // verus!
