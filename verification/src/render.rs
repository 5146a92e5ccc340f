//! Formatting of records into display strings.
//!
//! Each record becomes a sequence of parts joined by single spaces, in a
//! fixed order, with empty parts left out:
//!
//! * meal — food-source name; `(meal_type)` unless the type is `cooked`;
//!   `with` and the attendees; `-` and the trimmed notes;
//! * event — activity name; `@` and the trimmed location; `for` and the
//!   trimmed measure; `with` and the attendees; `-` and the trimmed notes;
//! * drink — drink name; `with` and the attendees.
//!
//! Attendee lists are always sorted ascending, duplicates removed, and
//! joined with `", "`.

use crate::records::{DrinkRecord, EventRecord, MealRecord};
use crate::text::{
    join_with, lemma_normalize_names_props, normalize_names, normalize_names_spec, opt_view,
    str_eq_str, strictly_sorted, trim, trim_spec,
};
use vstd::prelude::*;
use vstd::string::{StrSliceExecFns, StringExecFns};

verus! {

/// The parenthesized meal-type tag.
pub open spec fn tag_part(t: Seq<char>) -> Seq<char> {
    "("@ + t + ")"@
}

/// The attendee part: `with` and the normalized names, comma-joined.
pub open spec fn attendees_part(names: Seq<Seq<char>>) -> Seq<char> {
    "with "@ + join_with(normalize_names_spec(names), ", "@)
}

/// Zero or one attendee parts: present exactly when a name was recorded.
pub open spec fn people_segment(names: Seq<Seq<char>>) -> Seq<Seq<char>> {
    if names.len() > 0 {
        seq![attendees_part(names)]
    } else {
        Seq::<Seq<char>>::empty()
    }
}

/// Zero or one parts made of a prefix and a trimmed text: present exactly
/// when the text has something left after trimming.
pub open spec fn trimmed_segment(prefix: Seq<char>, o: Option<Seq<char>>) -> Seq<Seq<char>> {
    match o {
        Some(n) => if trim_spec(n).len() == 0 {
            Seq::<Seq<char>>::empty()
        } else {
            seq![prefix + trim_spec(n)]
        },
        None => Seq::<Seq<char>>::empty(),
    }
}

/// The parts of a formatted meal, in display order.
pub open spec fn meal_parts(m: MealRecord) -> Seq<Seq<char>> {
    let name_seg = match m.food_source_name {
        Some(n) => seq![n@],
        None => Seq::<Seq<char>>::empty(),
    };
    let tag_seg = match m.meal_type {
        Some(t) => if t@ == "cooked"@ {
            Seq::<Seq<char>>::empty()
        } else {
            seq![tag_part(t@)]
        },
        None => Seq::<Seq<char>>::empty(),
    };
    name_seg + tag_seg + people_segment(m.attendees.deep_view()) + trimmed_segment(
        "- "@,
        opt_view(m.notes),
    )
}

/// The formatted display string of a meal.
pub open spec fn meal_summary_spec(m: MealRecord) -> Seq<char> {
    join_with(meal_parts(m), " "@)
}

/// The parts of a formatted event, in display order.
pub open spec fn event_parts(e: EventRecord) -> Seq<Seq<char>> {
    seq![e.activity_name@] + trimmed_segment("@"@, opt_view(e.location)) + trimmed_segment(
        "for "@,
        opt_view(e.measure),
    ) + people_segment(e.attendees.deep_view()) + trimmed_segment("- "@, opt_view(e.notes))
}

/// The formatted display string of an event.
pub open spec fn event_summary_spec(e: EventRecord) -> Seq<char> {
    join_with(event_parts(e), " "@)
}

/// The parts of a formatted drink.
pub open spec fn drink_parts(d: DrinkRecord) -> Seq<Seq<char>> {
    seq![d.name@] + people_segment(d.attendees.deep_view())
}

/// The formatted display string of a drink.
pub open spec fn drink_summary_spec(d: DrinkRecord) -> Seq<char> {
    join_with(drink_parts(d), " "@)
}

/// A string made of a literal prefix and a slice.
fn prefixed(prefix: &str, rest: &str) -> (r: String)
    ensures
        r@ == prefix@ + rest@,
{
    let mut s = String::from_str(prefix);
    s.append(rest);
    s
}

/// The attendee part as a runtime string.
fn people_part(names: &Vec<String>) -> (r: String)
    ensures
        r@ == attendees_part(names.deep_view()),
{
    let ns = normalize_names(names);
    let joined = join_strings_comma(&ns);
    prefixed("with ", joined.as_str())
}

/// The normalized names joined with `", "`.
fn join_strings_comma(parts: &Vec<String>) -> (r: String)
    ensures
        r@ == join_with(parts.deep_view(), ", "@),
{
    crate::text::join_strings(parts, ", ")
}

/// Appends `prefix + trim(text)` to `parts` when something remains after
/// trimming, as `trimmed_segment` describes.
fn push_trimmed(parts: &mut Vec<String>, prefix: &str, text: &String)
    ensures
        final(parts).deep_view() == old(parts).deep_view() + trimmed_segment(
            prefix@,
            Some(text@),
        ),
{
    let t = trim(text.as_str());
    if !t.is_empty() {
        parts.push(prefixed(prefix, t));
        proof {
            assert(parts.deep_view() =~= old(parts).deep_view() + trimmed_segment(
                prefix@,
                Some(text@),
            ));
        }
    } else {
        proof {
            assert(parts.deep_view() =~= old(parts).deep_view() + trimmed_segment(
                prefix@,
                Some(text@),
            ));
        }
    }
}

/// Formats one meal for the daily summary.
pub fn format_meal_summary(m: &MealRecord) -> (r: String)
    ensures
        r@ == meal_summary_spec(*m),
{
    let mut parts: Vec<String> = Vec::new();
    match &m.food_source_name {
        Some(name) => {
            parts.push(name.clone());
        },
        None => {},
    }
    match &m.meal_type {
        Some(t) => {
            if !str_eq_str(t.as_str(), "cooked") {
                let mut tag = String::from_str("(");
                tag.append(t.as_str());
                tag.append(")");
                parts.push(tag);
            }
        },
        None => {},
    }
    if m.attendees.len() > 0 {
        parts.push(people_part(&m.attendees));
    }
    match &m.notes {
        Some(n) => push_trimmed(&mut parts, "- ", n),
        None => {},
    }
    proof {
        assert(parts.deep_view() =~= meal_parts(*m));
    }
    crate::text::join_strings(&parts, " ")
}

/// Formats one event for the daily summary.
pub fn format_event_summary(e: &EventRecord) -> (r: String)
    ensures
        r@ == event_summary_spec(*e),
{
    let mut parts: Vec<String> = Vec::new();
    parts.push(e.activity_name.clone());
    proof {
        assert(parts.deep_view() =~= seq![e.activity_name@]);
    }
    match &e.location {
        Some(l) => push_trimmed(&mut parts, "@", l),
        None => {},
    }
    proof {
        assert(parts.deep_view() =~= seq![e.activity_name@] + trimmed_segment(
            "@"@,
            opt_view(e.location),
        ));
    }
    let ghost seg2 = parts.deep_view();
    match &e.measure {
        Some(v) => push_trimmed(&mut parts, "for ", v),
        None => {},
    }
    proof {
        assert(parts.deep_view() =~= seg2 + trimmed_segment("for "@, opt_view(e.measure)));
    }
    let ghost seg3 = parts.deep_view();
    if e.attendees.len() > 0 {
        parts.push(people_part(&e.attendees));
    }
    proof {
        assert(parts.deep_view() =~= seg3 + people_segment(e.attendees.deep_view()));
    }
    let ghost seg4 = parts.deep_view();
    match &e.notes {
        Some(n) => push_trimmed(&mut parts, "- ", n),
        None => {},
    }
    proof {
        assert(parts.deep_view() =~= seg4 + trimmed_segment("- "@, opt_view(e.notes)));
        assert(parts.deep_view() =~= event_parts(*e));
    }
    crate::text::join_strings(&parts, " ")
}

/// Formats one drink for the daily summary.
pub fn format_drink_summary(d: &DrinkRecord) -> (r: String)
    ensures
        r@ == drink_summary_spec(*d),
{
    let mut parts: Vec<String> = Vec::new();
    parts.push(d.name.clone());
    if d.attendees.len() > 0 {
        parts.push(people_part(&d.attendees));
    }
    proof {
        assert(parts.deep_view() =~= drink_parts(*d));
    }
    crate::text::join_strings(&parts, " ")
}

/// The structured counterpart of `format_meal_summary`: the same fields kept
/// apart, for the layout that serializes each meal as an object.  The name is
/// the resolved display name or empty, the attendees are normalized and
/// comma-joined, the notes are kept as recorded, and the meal type falls back
/// to `unknown`.
pub fn meal_item(m: &MealRecord) -> (r: crate::models::MealItem)
    ensures
        r.name@ == match m.food_source_name {
            Some(n) => n@,
            None => Seq::<char>::empty(),
        },
        r.people@ == join_with(normalize_names_spec(m.attendees.deep_view()), ", "@),
        opt_view(r.notes) == opt_view(m.notes),
        r.meal_type@ == crate::models::resolved_type(opt_view(m.meal_type)),
{
    let name = match &m.food_source_name {
        Some(n) => n.clone(),
        None => String::new(),
    };
    let meal_type = match &m.meal_type {
        Some(t) => t.clone(),
        None => String::from_str("unknown"),
    };
    let notes = match &m.notes {
        Some(n) => Some(n.clone()),
        None => None,
    };
    crate::models::MealItem {
        name,
        people: join_strings_comma(&normalize_names(&m.attendees)),
        notes,
        meal_type,
    }
}

/// The structured counterpart of `format_event_summary`: the full display
/// string next to the activity's category.
pub fn event_item(e: &EventRecord) -> (r: crate::models::EventItem)
    ensures
        r.text@ == event_summary_spec(*e),
        r.activity_type@ == e.activity_category@,
{
    crate::models::EventItem {
        text: format_event_summary(e),
        activity_type: e.activity_category.clone(),
    }
}

/// A meal whose type is `cooked` reads exactly as it would with no meal type
/// recorded at all: the parenthesized tag never appears for it.
pub proof fn lemma_cooked_hides_tag(m: MealRecord)
    requires
        m.meal_type matches Some(t) && t@ == "cooked"@,
    ensures
        meal_summary_spec(m) == meal_summary_spec(MealRecord { meal_type: None, ..m }),
{
    assert(meal_parts(m) =~= meal_parts(MealRecord { meal_type: None, ..m }));
}

/// A meal with any meal type other than `cooked` always carries the
/// parenthesized tag among its parts.
pub proof fn lemma_other_type_shows_tag(m: MealRecord)
    requires
        m.meal_type matches Some(t) && t@ != "cooked"@,
    ensures
        meal_parts(m).contains(tag_part(m.meal_type->0@)),
{
    let name_len: int = match m.food_source_name {
        Some(_) => 1,
        None => 0,
    };
    assert(meal_parts(m)[name_len] == tag_part(m.meal_type->0@));
}

/// The attendee list of any formatted record is the input names sorted
/// ascending, each exactly once: nothing added, nothing lost, joined with
/// `", "` behind `with`.
pub proof fn lemma_attendees_sorted_unique(names: Seq<Seq<char>>)
    ensures
        attendees_part(names) == "with "@ + join_with(normalize_names_spec(names), ", "@),
        strictly_sorted(normalize_names_spec(names)),
        forall|e: Seq<char>| #[trigger]
            normalize_names_spec(names).contains(e) <==> names.contains(e),
{
    lemma_normalize_names_props(names);
}

/// A meal whose notes are absent or blank after trimming reads exactly as it
/// would with no notes at all: no trailing notes part appears.
pub proof fn lemma_blank_meal_notes_dropped(m: MealRecord)
    requires
        match m.notes {
            Some(n) => trim_spec(n@).len() == 0,
            None => true,
        },
    ensures
        meal_summary_spec(m) == meal_summary_spec(MealRecord { notes: None, ..m }),
{
    assert(meal_parts(m) =~= meal_parts(MealRecord { notes: None, ..m }));
}

/// The counterpart of `lemma_blank_meal_notes_dropped` for events.
pub proof fn lemma_blank_event_notes_dropped(e: EventRecord)
    requires
        match e.notes {
            Some(n) => trim_spec(n@).len() == 0,
            None => true,
        },
    ensures
        event_summary_spec(e) == event_summary_spec(EventRecord { notes: None, ..e }),
{
    assert(event_parts(e) =~= event_parts(EventRecord { notes: None, ..e }));
}

} // verus!
