//! The entity and request types of the service's API: plain values mapped
//! straight from the relational schema, plus the polymorphic food source of a
//! meal and its resolution rule.

use crate::text::opt_view;
use vstd::prelude::*;
use vstd::string::StringExecFns;

verus! {

/// An activity category name.
#[derive(Clone, Debug)]
pub struct ActivityType {
    pub name: String,
}

/// A loggable activity.
#[derive(Clone, Debug)]
pub struct Activity {
    pub id: i32,
    pub name: String,
    pub activity_type: String,
}

/// Request body for creating an activity.
#[derive(Clone, Debug)]
pub struct CreateActivity {
    pub name: String,
    pub activity_type: String,
}

/// Request body for updating an activity.
#[derive(Clone, Debug)]
pub struct UpdateActivity {
    pub name: Option<String>,
    pub activity_type: Option<String>,
}

/// A meal entry of the structured summary layout.
#[derive(Clone, Debug)]
pub struct MealItem {
    pub name: String,
    pub people: String,
    pub notes: Option<String>,
    pub meal_type: String,
}

/// An event entry of the structured summary layout.
#[derive(Clone, Debug)]
pub struct EventItem {
    pub text: String,
    pub activity_type: String,
}

/// An activity as embedded in an event detail.
#[derive(Clone, Debug)]
pub struct ActivityDetail {
    pub id: i32,
    pub name: String,
    pub activity_type: String,
}

/// A drink-option name.
#[derive(Clone, Debug)]
pub struct DrinkOption {
    pub name: String,
}

/// Response body after creating a drink.
#[derive(Clone, Debug)]
pub struct CreateDrinkResponse {
    pub id: i32,
    pub message: String,
}

/// A drink-to-person bridge row.
#[derive(Clone, Copy, Debug)]
pub struct DrinkPeople {
    pub drink: i32,
    pub people: i32,
}

/// An event-to-person bridge row.
#[derive(Clone, Copy, Debug)]
pub struct EventPeople {
    pub event: i32,
    pub people: i32,
}

/// A location name.
#[derive(Clone, Debug)]
pub struct Location {
    pub name: String,
}

/// A meal-slot name.
#[derive(Clone, Debug)]
pub struct MealTime {
    pub name: String,
}

/// A meal-type name.
#[derive(Clone, Debug)]
pub struct MealType {
    pub name: String,
}

/// A meal-to-recipe link with its meal type.
#[derive(Clone, Debug)]
pub struct MealRecipe {
    pub meal: i32,
    pub recipe: i32,
    pub meal_type: String,
}

/// A meal-to-product link with its meal type.
#[derive(Clone, Debug)]
pub struct MealProduct {
    pub meal: i32,
    pub product: i32,
    pub meal_type: String,
}

/// A meal-to-restaurant link with its meal type.
#[derive(Clone, Debug)]
pub struct MealRestaurant {
    pub meal: i32,
    pub restaurant: i32,
    pub meal_type: String,
}

/// A meal-to-person bridge row.
#[derive(Clone, Copy, Debug)]
pub struct MealPeople {
    pub meal: i32,
    pub people: i32,
}

/// A person.
#[derive(Clone, Debug)]
pub struct People {
    pub id: i32,
    pub name: String,
    pub notes: Option<String>,
}

/// Request body for creating a person.
#[derive(Clone, Debug)]
pub struct CreatePerson {
    pub name: String,
    pub notes: Option<String>,
}

/// Request body for updating a person.
#[derive(Clone, Debug)]
pub struct UpdatePerson {
    pub name: Option<String>,
    pub notes: Option<String>,
}

/// A product.
#[derive(Clone, Debug)]
pub struct Product {
    pub id: i32,
    pub name: String,
}

/// Request body for creating a product.
#[derive(Clone, Debug)]
pub struct CreateProduct {
    pub name: String,
}

/// Request body for updating a product.
#[derive(Clone, Debug)]
pub struct UpdateProduct {
    pub name: Option<String>,
}

/// A recipe.
#[derive(Clone, Debug)]
pub struct Recipe {
    pub id: i32,
    pub name: String,
    pub ingredients: String,
    pub procedure: String,
    pub cautions: Option<String>,
}

/// Request body for creating a recipe.
#[derive(Clone, Debug)]
pub struct CreateRecipe {
    pub name: String,
    pub ingredients: String,
    pub procedure: String,
    pub cautions: Option<String>,
}

/// Request body for updating a recipe.
#[derive(Clone, Debug)]
pub struct UpdateRecipe {
    pub name: Option<String>,
    pub ingredients: Option<String>,
    pub procedure: Option<String>,
    pub cautions: Option<String>,
}

/// A cuisine name.
#[derive(Clone, Debug)]
pub struct FoodType {
    pub name: String,
}

/// A restaurant.  The schema also records an approximate price, a floating
/// point value the summary logic never reads; the application layer carries
/// it alongside.
#[derive(Clone, Debug)]
pub struct Restaurant {
    pub id: i32,
    pub name: String,
    pub location: String,
    pub food_type: String,
}

/// Request body for the batch delete of meals.
#[derive(Clone, Debug)]
pub struct BatchDeleteMealsRequest {
    pub meal_ids: Vec<i32>,
}

/// The food source a meal resolves to: exactly one of a recipe, a product or
/// a restaurant, with the link's meal type.
#[derive(Clone, Debug)]
pub enum MealFoodSource {
    Recipe { recipe: Recipe, meal_type: String },
    Product { product: Product, meal_type: String },
    Restaurant { restaurant: Restaurant, meal_type: String },
}

/// The meal type shown for a resolved source: the linked one, or `unknown`
/// where the link carries none.
pub open spec fn resolved_type(mt: Option<Seq<char>>) -> Seq<char> {
    match mt {
        Some(t) => t,
        None => "unknown"@,
    }
}

/// What `resolve_food_source` must return: the recipe when one is linked,
/// otherwise the product, otherwise the restaurant, otherwise nothing.
pub open spec fn resolution_ok(
    r: Option<MealFoodSource>,
    recipe: Option<Recipe>,
    product: Option<Product>,
    restaurant: Option<Restaurant>,
    mtv: Seq<char>,
) -> bool {
    match (recipe, product, restaurant) {
        (Some(rec), _, _) => r matches Some(MealFoodSource::Recipe { recipe: r2, meal_type: t })
            && r2 == rec && t@ == mtv,
        (None, Some(p), _) => r matches Some(MealFoodSource::Product { product: p2, meal_type: t })
            && p2 == p && t@ == mtv,
        (None, None, Some(rt)) => r matches Some(
            MealFoodSource::Restaurant { restaurant: r2, meal_type: t },
        ) && r2 == rt && t@ == mtv,
        (None, None, None) => r is None,
    }
}

/// Resolves a meal's polymorphic food source.  At most one link should exist;
/// when the data holds several, the deterministic precedence is recipe, then
/// product, then restaurant.
pub fn resolve_food_source(
    recipe: Option<Recipe>,
    product: Option<Product>,
    restaurant: Option<Restaurant>,
    meal_type: Option<String>,
) -> (r: Option<MealFoodSource>)
    ensures
        resolution_ok(r, recipe, product, restaurant, resolved_type(opt_view(meal_type))),
{
    if recipe.is_none() && product.is_none() && restaurant.is_none() {
        return None;
    }
    let t = match meal_type {
        Some(t) => t,
        None => String::from_str("unknown"),
    };
    match recipe {
        Some(rec) => Some(MealFoodSource::Recipe { recipe: rec, meal_type: t }),
        None => match product {
            Some(p) => Some(MealFoodSource::Product { product: p, meal_type: t }),
            None => match restaurant {
                Some(rt) => Some(MealFoodSource::Restaurant { restaurant: rt, meal_type: t }),
                None => None,
            },
        },
    }
}

} // verus!
