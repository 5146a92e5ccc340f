use xnote::date::Date;
use xnote::records::{DrinkRecord, EventRecord, MealRecord};
use xnote::render::{
    event_item, format_drink_summary, format_event_summary, format_meal_summary, meal_item,
};
use xnote::text::normalize_names;

fn d(y: u32, m: u8, day: u8) -> Date {
    Date::new(y, m, day).expect("valid date")
}

fn strings(names: &[&str]) -> Vec<String> {
    names.iter().map(|s| s.to_string()).collect()
}

fn meal(
    slot: &str,
    name: Option<&str>,
    meal_type: Option<&str>,
    attendees: &[&str],
    notes: Option<&str>,
) -> MealRecord {
    MealRecord {
        id: 1,
        date: d(2024, 1, 15),
        slot: slot.to_string(),
        notes: notes.map(|s| s.to_string()),
        food_source_name: name.map(|s| s.to_string()),
        meal_type: meal_type.map(|s| s.to_string()),
        attendees: strings(attendees),
    }
}

#[test]
fn test_meal_restaurant_full() {
    let m = meal(
        "dinner",
        Some("Test Restaurant"),
        Some("dine-in"),
        &["Bob", "Alice"],
        Some("Great dinner"),
    );
    assert_eq!(
        format_meal_summary(&m),
        "Test Restaurant (dine-in) with Alice, Bob - Great dinner"
    );
}

#[test]
fn test_meal_cooked_recipe_plain() {
    let m = meal("lunch", Some("Pancakes"), Some("cooked"), &[], None);
    assert_eq!(format_meal_summary(&m), "Pancakes");
}

#[test]
fn test_meal_cooked_never_tagged() {
    let m = meal("lunch", Some("Soup"), Some("cooked"), &["Alice"], Some("warm"));
    assert_eq!(format_meal_summary(&m), "Soup with Alice - warm");
}

#[test]
fn test_meal_other_type_always_tagged() {
    let m = meal("breakfast", Some("Apple"), Some("manufactured"), &[], None);
    assert_eq!(format_meal_summary(&m), "Apple (manufactured)");
}

#[test]
fn test_meal_without_food_source() {
    let m = meal("dinner", None, Some("dine-in"), &["Alice"], None);
    assert_eq!(format_meal_summary(&m), "(dine-in) with Alice");
}

#[test]
fn test_meal_without_type_untagged() {
    let m = meal("dinner", Some("Pasta"), None, &[], None);
    assert_eq!(format_meal_summary(&m), "Pasta");
}

#[test]
fn test_meal_blank_notes_dropped() {
    let m = meal("dinner", Some("Pasta"), None, &[], Some("   \t "));
    assert_eq!(format_meal_summary(&m), "Pasta");
}

#[test]
fn test_meal_notes_trimmed() {
    let m = meal("dinner", Some("Pasta"), None, &[], Some("  tasty  "));
    assert_eq!(format_meal_summary(&m), "Pasta - tasty");
}

#[test]
fn test_meal_attendees_deduplicated() {
    let m = meal("dinner", Some("Pasta"), None, &["Alice", "Alice", "Bob", "Alice"], None);
    assert_eq!(format_meal_summary(&m), "Pasta with Alice, Bob");
}

#[test]
fn test_meal_attendees_sorted() {
    let m = meal("dinner", Some("Pasta"), None, &["Charlie", "Bob", "Alice"], None);
    assert_eq!(format_meal_summary(&m), "Pasta with Alice, Bob, Charlie");
}

fn event(
    activity: &str,
    location: Option<&str>,
    measure: Option<&str>,
    attendees: &[&str],
    notes: Option<&str>,
) -> EventRecord {
    EventRecord {
        id: 1,
        date: d(2024, 1, 15),
        activity_name: activity.to_string(),
        activity_category: "sport".to_string(),
        measure: measure.map(|s| s.to_string()),
        location: location.map(|s| s.to_string()),
        notes: notes.map(|s| s.to_string()),
        attendees: strings(attendees),
    }
}

#[test]
fn test_event_full() {
    let e = event(
        "Running",
        Some("Seattle Downtown"),
        Some("5 miles"),
        &["Alice", "Bob"],
        Some("Great workout"),
    );
    assert_eq!(
        format_event_summary(&e),
        "Running @Seattle Downtown for 5 miles with Alice, Bob - Great workout"
    );
}

#[test]
fn test_event_activity_only() {
    let e = event("Cleaning", None, None, &[], None);
    assert_eq!(format_event_summary(&e), "Cleaning");
}

#[test]
fn test_event_blank_location_and_measure_dropped() {
    let e = event("Coding", Some("   "), Some(""), &["Alice"], Some("side project"));
    assert_eq!(format_event_summary(&e), "Coding with Alice - side project");
}

#[test]
fn test_event_location_trimmed() {
    let e = event("Coding", Some("  SLU "), Some(" 2 hours"), &[], None);
    assert_eq!(format_event_summary(&e), "Coding @SLU for 2 hours");
}

#[test]
fn test_drink_with_people() {
    let k = DrinkRecord {
        id: 1,
        date: d(2024, 1, 15),
        name: "Sip House - Ube Latte".to_string(),
        attendees: strings(&["Bob", "Alice"]),
    };
    assert_eq!(format_drink_summary(&k), "Sip House - Ube Latte with Alice, Bob");
}

#[test]
fn test_drink_without_people() {
    let k = DrinkRecord {
        id: 2,
        date: d(2024, 1, 15),
        name: "Tea".to_string(),
        attendees: Vec::new(),
    };
    assert_eq!(format_drink_summary(&k), "Tea");
}

#[test]
fn test_normalize_names_sorts_and_dedups() {
    let ns = normalize_names(&strings(&["Charlie", "Alice", "Bob", "Alice", "Charlie"]));
    assert_eq!(ns, strings(&["Alice", "Bob", "Charlie"]));
}

#[test]
fn test_normalize_names_empty() {
    let ns = normalize_names(&Vec::new());
    assert!(ns.is_empty());
}

#[test]
fn test_drink_name_non_ascii() {
    let k = DrinkRecord {
        id: 3,
        date: d(2024, 1, 16),
        name: "\u{81ea}\u{5df1}\u{505a}\u{7684}latte".to_string(),
        attendees: strings(&["Alice"]),
    };
    assert_eq!(
        format_drink_summary(&k),
        "\u{81ea}\u{5df1}\u{505a}\u{7684}latte with Alice"
    );
}

#[test]
fn test_notes_unicode_whitespace_trimmed() {
    let m = meal("dinner", Some("Pasta"), None, &[], Some("\u{3000} good \u{a0}"));
    assert_eq!(format_meal_summary(&m), "Pasta - good");
}

#[test]
fn test_meal_item_fields() {
    let m = meal("dinner", Some("Pasta"), Some("dine-in"), &["Bob", "Alice"], Some("yum"));
    let item = meal_item(&m);
    assert_eq!(item.name, "Pasta");
    assert_eq!(item.people, "Alice, Bob");
    assert_eq!(item.notes, Some("yum".to_string()));
    assert_eq!(item.meal_type, "dine-in");
}

#[test]
fn test_meal_item_defaults() {
    let m = meal("dinner", None, None, &[], None);
    let item = meal_item(&m);
    assert_eq!(item.name, "");
    assert_eq!(item.people, "");
    assert_eq!(item.notes, None);
    assert_eq!(item.meal_type, "unknown");
}

#[test]
fn test_event_item_fields() {
    let e = event("Running", Some("Park"), None, &[], None);
    let item = event_item(&e);
    assert_eq!(item.text, "Running @Park");
    assert_eq!(item.activity_type, "sport");
}

#[test]
fn test_attendees_non_ascii_sorted_after_ascii() {
    let m = meal("dinner", Some("Hotpot"), None, &["\u{5f20}\u{4e09}", "Alice"], None);
    assert_eq!(
        format_meal_summary(&m),
        "Hotpot with Alice, \u{5f20}\u{4e09}"
    );
}
