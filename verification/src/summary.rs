//! The daily-summary engine: one summary per calendar day of a closed range.
//!
//! Each day gets the formatted strings of exactly its own records, in the
//! order the store handed them over (ascending id), bucketed by meal slot,
//! with optional per-slot and per-day caps; days without records still get a
//! summary with empty lists.

use crate::date::{date_range, day_index, day_of_week, weekday_name, Date};
use crate::records::{DrinkRecord, EventRecord, MealRecord};
use crate::render::{
    drink_summary_spec, event_summary_spec, format_drink_summary, format_event_summary,
    format_meal_summary, meal_summary_spec,
};
use crate::text::str_eq_str;
use vstd::prelude::*;

verus! {

/// Capacity limits applied while bucketing: entries beyond a cap are silently
/// dropped.  `None` means unbounded, the default.
#[derive(Clone, Copy, Debug)]
pub struct SummaryCaps {
    pub meals_per_slot: Option<usize>,
    pub events_per_day: Option<usize>,
}

/// The fixed widths of the legacy fixed-array layout.
pub const LEGACY_MEALS_PER_SLOT: usize = 2;

/// See `LEGACY_MEALS_PER_SLOT`.
pub const LEGACY_EVENTS_PER_DAY: usize = 10;

impl SummaryCaps {
    /// No caps: every record of the day is kept.
    pub fn unbounded() -> (r: SummaryCaps)
        ensures
            r.meals_per_slot is None,
            r.events_per_day is None,
    {
        SummaryCaps { meals_per_slot: None, events_per_day: None }
    }

    /// The legacy fixed-width layout: at most two meals per slot and ten
    /// events per day, keeping the first entries encountered.
    pub fn legacy() -> (r: SummaryCaps)
        ensures
            r.meals_per_slot == Some(LEGACY_MEALS_PER_SLOT),
            r.events_per_day == Some(LEGACY_EVENTS_PER_DAY),
    {
        SummaryCaps {
            meals_per_slot: Some(LEGACY_MEALS_PER_SLOT),
            events_per_day: Some(LEGACY_EVENTS_PER_DAY),
        }
    }
}

/// One day's summary: the weekday name and the formatted record strings,
/// meals bucketed by slot.
#[derive(Clone, Debug)]
pub struct DailySummary {
    pub date: Date,
    pub day_of_week: String,
    pub breakfast: Vec<String>,
    pub lunch: Vec<String>,
    pub dinner: Vec<String>,
    pub drinks: Vec<String>,
    pub events: Vec<String>,
}

/// The first `cap` entries of a list, or all of them when uncapped.
pub open spec fn capped(list: Seq<Seq<char>>, cap: Option<usize>) -> Seq<Seq<char>> {
    match cap {
        Some(c) => if list.len() > c {
            list.take(c as int)
        } else {
            list
        },
        None => list,
    }
}

/// The formatted strings of the meals of day `d` in slot `slot`, in input
/// order.
pub open spec fn slot_summaries(meals: Seq<MealRecord>, d: Date, slot: Seq<char>) -> Seq<
    Seq<char>,
>
    decreases meals.len(),
{
    if meals.len() == 0 {
        Seq::empty()
    } else {
        let init = slot_summaries(meals.drop_last(), d, slot);
        let m = meals.last();
        if m.date == d && m.slot@ == slot {
            init.push(meal_summary_spec(m))
        } else {
            init
        }
    }
}

/// The formatted strings of the events of day `d`, in input order.
pub open spec fn event_summaries(events: Seq<EventRecord>, d: Date) -> Seq<Seq<char>>
    decreases events.len(),
{
    if events.len() == 0 {
        Seq::empty()
    } else {
        let init = event_summaries(events.drop_last(), d);
        let e = events.last();
        if e.date == d {
            init.push(event_summary_spec(e))
        } else {
            init
        }
    }
}

/// The formatted strings of the drinks of day `d`, in input order.
pub open spec fn drink_summaries(drinks: Seq<DrinkRecord>, d: Date) -> Seq<Seq<char>>
    decreases drinks.len(),
{
    if drinks.len() == 0 {
        Seq::empty()
    } else {
        let init = drink_summaries(drinks.drop_last(), d);
        let k = drinks.last();
        if k.date == d {
            init.push(drink_summary_spec(k))
        } else {
            init
        }
    }
}

/// What a correct summary of day `d` holds, given all records in reach and
/// the caps.
pub open spec fn summary_matches(
    s: DailySummary,
    d: Date,
    meals: Seq<MealRecord>,
    events: Seq<EventRecord>,
    drinks: Seq<DrinkRecord>,
    caps: SummaryCaps,
) -> bool {
    &&& s.date == d
    &&& s.day_of_week@ == weekday_name(d)
    &&& s.breakfast.deep_view() == capped(slot_summaries(meals, d, "breakfast"@), caps.meals_per_slot)
    &&& s.lunch.deep_view() == capped(slot_summaries(meals, d, "lunch"@), caps.meals_per_slot)
    &&& s.dinner.deep_view() == capped(slot_summaries(meals, d, "dinner"@), caps.meals_per_slot)
    &&& s.drinks.deep_view() == drink_summaries(drinks, d)
    &&& s.events.deep_view() == capped(event_summaries(events, d), caps.events_per_day)
}

/// Keeps only the first `cap` strings.
fn apply_cap(out: &mut Vec<String>, cap: Option<usize>)
    ensures
        final(out).deep_view() == capped(old(out).deep_view(), cap),
{
    match cap {
        Some(c) => {
            if out.len() > c {
                out.truncate(c);
                proof {
                    assert(out.deep_view() =~= old(out).deep_view().take(c as int));
                }
            }
        },
        None => {},
    }
}

/// The formatted meals of day `d` in slot `slot`, capped.
fn collect_slot(meals: &Vec<MealRecord>, d: Date, slot: &str, cap: Option<usize>) -> (r: Vec<
    String,
>)
    ensures
        r.deep_view() == capped(slot_summaries(meals@, d, slot@), cap),
{
    let mut out: Vec<String> = Vec::new();
    let mut i: usize = 0;
    proof {
        assert(meals@.take(0) =~= Seq::<MealRecord>::empty());
    }
    while i < meals.len()
        invariant
            i <= meals@.len(),
            out.deep_view() == slot_summaries(meals@.take(i as int), d, slot@),
        decreases meals@.len() - i,
    {
        let ghost prev = out.deep_view();
        proof {
            assert(meals@.take(i as int + 1).drop_last() =~= meals@.take(i as int));
            assert(meals@.take(i as int + 1).last() == meals@[i as int]);
        }
        let m = &meals[i];
        if m.date == d && str_eq_str(m.slot.as_str(), slot) {
            out.push(format_meal_summary(m));
            proof {
                assert(out.deep_view() =~= prev.push(meal_summary_spec(meals@[i as int])));
            }
        }
        i = i + 1;
    }
    proof {
        assert(meals@.take(meals@.len() as int) =~= meals@);
    }
    apply_cap(&mut out, cap);
    out
}

/// The formatted events of day `d`, capped.
fn collect_events(events: &Vec<EventRecord>, d: Date, cap: Option<usize>) -> (r: Vec<String>)
    ensures
        r.deep_view() == capped(event_summaries(events@, d), cap),
{
    let mut out: Vec<String> = Vec::new();
    let mut i: usize = 0;
    proof {
        assert(events@.take(0) =~= Seq::<EventRecord>::empty());
    }
    while i < events.len()
        invariant
            i <= events@.len(),
            out.deep_view() == event_summaries(events@.take(i as int), d),
        decreases events@.len() - i,
    {
        let ghost prev = out.deep_view();
        proof {
            assert(events@.take(i as int + 1).drop_last() =~= events@.take(i as int));
            assert(events@.take(i as int + 1).last() == events@[i as int]);
        }
        let e = &events[i];
        if e.date == d {
            out.push(format_event_summary(e));
            proof {
                assert(out.deep_view() =~= prev.push(event_summary_spec(events@[i as int])));
            }
        }
        i = i + 1;
    }
    proof {
        assert(events@.take(events@.len() as int) =~= events@);
    }
    apply_cap(&mut out, cap);
    out
}

/// The formatted drinks of day `d`.
fn collect_drinks(drinks: &Vec<DrinkRecord>, d: Date) -> (r: Vec<String>)
    ensures
        r.deep_view() == drink_summaries(drinks@, d),
{
    let mut out: Vec<String> = Vec::new();
    let mut i: usize = 0;
    proof {
        assert(drinks@.take(0) =~= Seq::<DrinkRecord>::empty());
    }
    while i < drinks.len()
        invariant
            i <= drinks@.len(),
            out.deep_view() == drink_summaries(drinks@.take(i as int), d),
        decreases drinks@.len() - i,
    {
        let ghost prev = out.deep_view();
        proof {
            assert(drinks@.take(i as int + 1).drop_last() =~= drinks@.take(i as int));
            assert(drinks@.take(i as int + 1).last() == drinks@[i as int]);
        }
        let k = &drinks[i];
        if k.date == d {
            out.push(format_drink_summary(k));
            proof {
                assert(out.deep_view() =~= prev.push(drink_summary_spec(drinks@[i as int])));
            }
        }
        i = i + 1;
    }
    proof {
        assert(drinks@.take(drinks@.len() as int) =~= drinks@);
    }
    out
}

/// One day's summary, from the records in reach: exactly the records dated
/// `d` appear, formatted, in input order, within the caps.
pub fn build_summary_for_date(
    d: Date,
    meals: &Vec<MealRecord>,
    events: &Vec<EventRecord>,
    drinks: &Vec<DrinkRecord>,
    caps: SummaryCaps,
) -> (r: DailySummary)
    requires
        d.valid(),
    ensures
        summary_matches(r, d, meals@, events@, drinks@, caps),
{
    DailySummary {
        date: d,
        day_of_week: day_of_week(&d),
        breakfast: collect_slot(meals, d, "breakfast", caps.meals_per_slot),
        lunch: collect_slot(meals, d, "lunch", caps.meals_per_slot),
        dinner: collect_slot(meals, d, "dinner", caps.meals_per_slot),
        drinks: collect_drinks(drinks, d),
        events: collect_events(events, d, caps.events_per_day),
    }
}

/// The summaries of every day of `[start, end]`, ascending: one per day with
/// no gaps or duplicates, the empty sequence when `start` falls after `end`.
pub fn build_daily_summaries(
    start: &Date,
    end: &Date,
    meals: &Vec<MealRecord>,
    events: &Vec<EventRecord>,
    drinks: &Vec<DrinkRecord>,
    caps: SummaryCaps,
) -> (r: Vec<DailySummary>)
    requires
        start.valid(),
        end.valid(),
    ensures
        day_index(*start) > day_index(*end) ==> r@.len() == 0,
        day_index(*start) <= day_index(*end) ==> r@.len() == day_index(*end) - day_index(*start)
            + 1,
        forall|i: int|
            0 <= i < r@.len() ==> {
                &&& (#[trigger] r@[i]).date.valid()
                &&& day_index(r@[i].date) == day_index(*start) + i
                &&& summary_matches(r@[i], r@[i].date, meals@, events@, drinks@, caps)
            },
{
    let days = date_range(start, end);
    let mut out: Vec<DailySummary> = Vec::new();
    let mut k: usize = 0;
    while k < days.len()
        invariant
            k <= days@.len(),
            out@.len() == k,
            forall|i: int|
                0 <= i < days@.len() ==> (#[trigger] days@[i]).valid() && day_index(days@[i])
                    == day_index(*start) + i,
            forall|i: int|
                0 <= i < k ==> {
                    &&& (#[trigger] out@[i]).date == days@[i]
                    &&& summary_matches(out@[i], days@[i], meals@, events@, drinks@, caps)
                },
        decreases days@.len() - k,
    {
        let s = build_summary_for_date(days[k], meals, events, drinks, caps);
        out.push(s);
        k = k + 1;
    }
    out
}

} // verus!
