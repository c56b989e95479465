//! Ordering round-trips, and the representable range of stored timestamps.

use recipes::models::{Instruction, MeasurementType, Model, QuantifiedIngredient, Recipe,
    RecipeVersion, RecipeVersionID, Ref};
use recipes::store::{Store, VersionRow};
use recipes::Error;

#[test]
fn instruction_order_round_trips_exactly() {
    let mut store = Store::new();
    Recipe::store_new(&mut store, "Cake".to_string(), vec![]).unwrap();
    let instructions = vec![
        Instruction { text: "Mix".to_string() },
        Instruction { text: "Bake".to_string() },
        Instruction { text: "Cool".to_string() },
    ];
    RecipeVersion::store_new(&mut store, 0, 1_600_000_000, vec![], instructions, 600).unwrap();
    let id = RecipeVersionID { recipe_id: 0, version_id: 0 };
    let version = RecipeVersion::get(&store, id).unwrap();
    let texts: Vec<&str> =
        version.instructions.iter().map(|step| step.text.as_str()).collect();
    assert_eq!(texts, vec!["Mix", "Bake", "Cool"]);
}

#[test]
fn ingredient_order_and_values_round_trip_exactly() {
    let mut store = Store::new();
    Recipe::store_new(&mut store, "Cake".to_string(), vec![]).unwrap();
    let ingredients = vec![
        QuantifiedIngredient {
            ingredient: Ref::new(2),
            quantity: 0.2f64.to_bits(),
            measurement: MeasurementType::Mass,
        },
        QuantifiedIngredient {
            ingredient: Ref::new(0),
            quantity: 0.5f64.to_bits(),
            measurement: MeasurementType::Volume,
        },
        QuantifiedIngredient {
            ingredient: Ref::new(1),
            quantity: 3.0f64.to_bits(),
            measurement: MeasurementType::Count,
        },
    ];
    RecipeVersion::store_new(&mut store, 0, 1_600_000_000, ingredients, vec![], 600).unwrap();
    let id = RecipeVersionID { recipe_id: 0, version_id: 0 };
    let version = RecipeVersion::get(&store, id).unwrap();
    assert_eq!(version.ingredients.len(), 3);
    let expected = [
        (2, 0.2f64.to_bits(), 0),
        (0, 0.5f64.to_bits(), 1),
        (1, 3.0f64.to_bits(), 2),
    ];
    for (item, (ingredient_id, quantity, code)) in
        version.ingredients.iter().zip(expected.iter())
    {
        assert_eq!(item.ingredient.id, *ingredient_id);
        assert!(item.ingredient.cached_value().is_none());
        assert_eq!(item.quantity, *quantity);
        assert_eq!(item.measurement.code(), *code);
    }
}

#[test]
fn in_range_timestamp_reads_back() {
    let mut store = Store::new();
    Recipe::store_new(&mut store, "Cake".to_string(), vec![]).unwrap();
    RecipeVersion::store_new(&mut store, 0, 1_000_000_000, vec![], vec![], 60).unwrap();
    let id = RecipeVersionID { recipe_id: 0, version_id: 0 };
    let version = RecipeVersion::get(&store, id).unwrap();
    assert_eq!(version.created, 1_000_000_000);
}

#[test]
fn out_of_range_timestamp_is_an_internal_error() {
    let mut store = Store::new();
    Recipe::store_new(&mut store, "Cake".to_string(), vec![]).unwrap();
    // A stored timestamp far outside the representable range.
    store.recipes_versions.push(VersionRow {
        recipe_id: 0,
        version_id: 0,
        created: i64::MAX,
        duration: 60,
    });
    let id = RecipeVersionID { recipe_id: 0, version_id: 0 };
    assert!(matches!(RecipeVersion::get(&store, id), Err(Error::Internal)));
}

#[test]
fn missing_version_is_not_found() {
    let mut store = Store::new();
    Recipe::store_new(&mut store, "Cake".to_string(), vec![]).unwrap();
    let id = RecipeVersionID { recipe_id: 0, version_id: 3 };
    assert!(matches!(RecipeVersion::get(&store, id), Err(Error::NotFound)));
}
