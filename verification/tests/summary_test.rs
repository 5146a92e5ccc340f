use xnote::date::Date;
use xnote::models::{MealFoodSource, Product, Recipe, Restaurant, resolve_food_source};
use xnote::records::{DrinkRecord, EventRecord, MealRecord};
use xnote::summary::{build_daily_summaries, build_summary_for_date, SummaryCaps};

fn d(y: u32, m: u8, day: u8) -> Date {
    Date::new(y, m, day).expect("valid date")
}

fn strings(names: &[&str]) -> Vec<String> {
    names.iter().map(|s| s.to_string()).collect()
}

fn meal_on(id: i32, date: Date, slot: &str, name: &str) -> MealRecord {
    MealRecord {
        id,
        date,
        slot: slot.to_string(),
        notes: None,
        food_source_name: Some(name.to_string()),
        meal_type: None,
        attendees: Vec::new(),
    }
}

fn event_on(id: i32, date: Date, activity: &str) -> EventRecord {
    EventRecord {
        id,
        date,
        activity_name: activity.to_string(),
        activity_category: "general".to_string(),
        measure: None,
        location: None,
        notes: None,
        attendees: Vec::new(),
    }
}

fn drink_on(id: i32, date: Date, name: &str) -> DrinkRecord {
    DrinkRecord { id, date, name: name.to_string(), attendees: Vec::new() }
}

#[test]
fn test_empty_day_summary() {
    let out = build_daily_summaries(
        &d(2024, 1, 1),
        &d(2024, 1, 1),
        &Vec::new(),
        &Vec::new(),
        &Vec::new(),
        SummaryCaps::unbounded(),
    );
    assert_eq!(out.len(), 1);
    let s = &out[0];
    assert_eq!(s.date, d(2024, 1, 1));
    assert_eq!(s.day_of_week, "Monday");
    assert!(s.breakfast.is_empty());
    assert!(s.lunch.is_empty());
    assert!(s.dinner.is_empty());
    assert!(s.drinks.is_empty());
    assert!(s.events.is_empty());
}

#[test]
fn test_reversed_range_is_empty() {
    let out = build_daily_summaries(
        &d(2024, 1, 2),
        &d(2024, 1, 1),
        &Vec::new(),
        &Vec::new(),
        &Vec::new(),
        SummaryCaps::unbounded(),
    );
    assert!(out.is_empty());
}

#[test]
fn test_range_length_and_order() {
    let out = build_daily_summaries(
        &d(2024, 2, 27),
        &d(2024, 3, 2),
        &Vec::new(),
        &Vec::new(),
        &Vec::new(),
        SummaryCaps::unbounded(),
    );
    assert_eq!(out.len(), 5);
    assert_eq!(out[0].date, d(2024, 2, 27));
    assert_eq!(out[1].date, d(2024, 2, 28));
    assert_eq!(out[2].date, d(2024, 2, 29));
    assert_eq!(out[3].date, d(2024, 3, 1));
    assert_eq!(out[4].date, d(2024, 3, 2));
}

#[test]
fn test_records_bucketed_by_day_and_slot() {
    let day1 = d(2024, 1, 15);
    let day2 = d(2024, 1, 16);
    let meals = vec![
        meal_on(1, day1, "breakfast", "Oatmeal"),
        meal_on(2, day1, "dinner", "Pasta"),
        meal_on(3, day2, "dinner", "Soup"),
        meal_on(4, day1, "dinner", "Salad"),
    ];
    let events = vec![event_on(1, day2, "Running"), event_on(2, day1, "Coding")];
    let drinks = vec![drink_on(1, day1, "Latte")];
    let out = build_daily_summaries(
        &day1,
        &day2,
        &meals,
        &events,
        &drinks,
        SummaryCaps::unbounded(),
    );
    assert_eq!(out.len(), 2);
    assert_eq!(out[0].breakfast, vec!["Oatmeal".to_string()]);
    assert_eq!(out[0].lunch, Vec::<String>::new());
    assert_eq!(out[0].dinner, vec!["Pasta".to_string(), "Salad".to_string()]);
    assert_eq!(out[0].events, vec!["Coding".to_string()]);
    assert_eq!(out[0].drinks, vec!["Latte".to_string()]);
    assert_eq!(out[1].dinner, vec!["Soup".to_string()]);
    assert_eq!(out[1].events, vec!["Running".to_string()]);
    assert!(out[1].breakfast.is_empty());
    assert!(out[1].drinks.is_empty());
}

#[test]
fn test_unknown_slot_is_skipped() {
    let day = d(2024, 1, 15);
    let meals = vec![meal_on(1, day, "brunch", "Eggs"), meal_on(2, day, "lunch", "Pasta")];
    let s = build_summary_for_date(
        day,
        &meals,
        &Vec::new(),
        &Vec::new(),
        SummaryCaps::unbounded(),
    );
    assert!(s.breakfast.is_empty());
    assert_eq!(s.lunch, vec!["Pasta".to_string()]);
    assert!(s.dinner.is_empty());
}

#[test]
fn test_legacy_caps_keep_first_entries() {
    let day = d(2024, 1, 15);
    let meals = vec![
        meal_on(1, day, "breakfast", "A"),
        meal_on(2, day, "breakfast", "B"),
        meal_on(3, day, "breakfast", "C"),
    ];
    let events: Vec<EventRecord> =
        (1..=12).map(|i| event_on(i, day, &format!("E{}", i))).collect();
    let s = build_summary_for_date(day, &meals, &events, &Vec::new(), SummaryCaps::legacy());
    assert_eq!(s.breakfast, vec!["A".to_string(), "B".to_string()]);
    assert_eq!(s.events.len(), 10);
    assert_eq!(s.events[0], "E1");
    assert_eq!(s.events[9], "E10");
}

#[test]
fn test_unbounded_keeps_everything() {
    let day = d(2024, 1, 15);
    let meals = vec![
        meal_on(1, day, "breakfast", "A"),
        meal_on(2, day, "breakfast", "B"),
        meal_on(3, day, "breakfast", "C"),
    ];
    let s = build_summary_for_date(
        day,
        &meals,
        &Vec::new(),
        &Vec::new(),
        SummaryCaps::unbounded(),
    );
    assert_eq!(s.breakfast.len(), 3);
}

#[test]
fn test_day_of_week_per_day() {
    let out = build_daily_summaries(
        &d(2024, 1, 1),
        &d(2024, 1, 7),
        &Vec::new(),
        &Vec::new(),
        &Vec::new(),
        SummaryCaps::unbounded(),
    );
    let names: Vec<&str> = out.iter().map(|s| s.day_of_week.as_str()).collect();
    assert_eq!(
        names,
        vec!["Monday", "Tuesday", "Wednesday", "Thursday", "Friday", "Saturday", "Sunday"]
    );
}

fn recipe() -> Recipe {
    Recipe {
        id: 1,
        name: "Pancakes".to_string(),
        ingredients: "flour, eggs, milk".to_string(),
        procedure: "mix and cook".to_string(),
        cautions: Some("hot pan".to_string()),
    }
}

fn product() -> Product {
    Product { id: 2, name: "Apple".to_string() }
}

fn restaurant() -> Restaurant {
    Restaurant {
        id: 3,
        name: "Pasta Palace".to_string(),
        location: "Seattle Downtown".to_string(),
        food_type: "Italian".to_string(),
    }
}

#[test]
fn test_resolve_food_source_recipe_first() {
    let r = resolve_food_source(
        Some(recipe()),
        Some(product()),
        Some(restaurant()),
        Some("cooked".to_string()),
    );
    match r {
        Some(MealFoodSource::Recipe { recipe, meal_type }) => {
            assert_eq!(recipe.name, "Pancakes");
            assert_eq!(meal_type, "cooked");
        }
        _ => panic!("expected recipe food source"),
    }
}

#[test]
fn test_resolve_food_source_product_before_restaurant() {
    let r = resolve_food_source(
        None,
        Some(product()),
        Some(restaurant()),
        Some("manufactured".to_string()),
    );
    match r {
        Some(MealFoodSource::Product { product, meal_type }) => {
            assert_eq!(product.name, "Apple");
            assert_eq!(meal_type, "manufactured");
        }
        _ => panic!("expected product food source"),
    }
}

#[test]
fn test_resolve_food_source_restaurant_last() {
    let r = resolve_food_source(None, None, Some(restaurant()), None);
    match r {
        Some(MealFoodSource::Restaurant { restaurant, meal_type }) => {
            assert_eq!(restaurant.name, "Pasta Palace");
            assert_eq!(meal_type, "unknown");
        }
        _ => panic!("expected restaurant food source"),
    }
}

#[test]
fn test_resolve_food_source_none() {
    assert!(resolve_food_source(None, None, None, Some("cooked".to_string())).is_none());
}
