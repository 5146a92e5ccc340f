//! The records the summary engine consumes, as the record store hands them
//! over: plain values, one struct per record kind, each carrying its date and
//! the attendee names already resolved through the person bridge table.

use crate::date::Date;
use vstd::prelude::*;

verus! {

/// A meal: its slot (`"breakfast"`, `"lunch"` or `"dinner"`), optional notes,
/// the resolved food-source display name and meal-type tag, and attendees.
/// Records are handed over in ascending id order.
#[derive(Clone, Debug)]
pub struct MealRecord {
    pub id: i32,
    pub date: Date,
    pub slot: String,
    pub notes: Option<String>,
    pub food_source_name: Option<String>,
    pub meal_type: Option<String>,
    pub attendees: Vec<String>,
}

/// An event: the activity's name and category, optional measure, location
/// and notes, and attendees.
#[derive(Clone, Debug)]
pub struct EventRecord {
    pub id: i32,
    pub date: Date,
    pub activity_name: String,
    pub activity_category: String,
    pub measure: Option<String>,
    pub location: Option<String>,
    pub notes: Option<String>,
    pub attendees: Vec<String>,
}

/// A drink: its name and attendees.
#[derive(Clone, Debug)]
pub struct DrinkRecord {
    pub id: i32,
    pub date: Date,
    pub name: String,
    pub attendees: Vec<String>,
}

} // verus!
