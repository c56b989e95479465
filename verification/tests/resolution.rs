//! Reference resolution: fetch-and-resolve as fetch-then-resolve, one-level
//! depth, and idempotence.

use recipes::models::{Category, Ingredient, Instruction, MeasurementType, Model,
    QuantifiedIngredient, Recipe, RecipeVersion, RecipeVersionID, Ref};
use recipes::store::Store;
use recipes::Error;

fn populated_store() -> Store {
    let mut store = Store::new();
    Category::store_new(&mut store, "Dessert".to_string()).unwrap();
    Ingredient::store_new(&mut store, "Sugar".to_string(), 1700.0f64.to_bits()).unwrap();
    Ingredient::store_new(&mut store, "Flour".to_string(), 1450.0f64.to_bits()).unwrap();
    let categories = vec![Category { id: 0, name: "Dessert".to_string() }];
    Recipe::store_new(&mut store, "Cake".to_string(), categories).unwrap();
    let ingredients = vec![QuantifiedIngredient {
        ingredient: Ref::new(0),
        quantity: 0.2f64.to_bits(),
        measurement: MeasurementType::Mass,
    }];
    let instructions = vec![
        Instruction { text: "Mix".to_string() },
        Instruction { text: "Bake".to_string() },
    ];
    RecipeVersion::store_new(&mut store, 0, 1_600_000_000, ingredients, instructions, 600)
        .unwrap();
    store
}

#[test]
fn get_filled_equals_get_then_fill_refs() {
    let store = populated_store();
    let combined = Recipe::get_filled(&store, 0).unwrap();
    let mut stepwise = Recipe::get(&store, 0).unwrap();
    stepwise.fill_refs(&store).unwrap();
    assert_eq!(combined.id, stepwise.id);
    assert_eq!(combined.name, stepwise.name);
    assert_eq!(combined.versions.len(), stepwise.versions.len());
    assert_eq!(combined.categories.len(), stepwise.categories.len());
    for (a, b) in combined.categories.iter().zip(stepwise.categories.iter()) {
        assert_eq!(a.id, b.id);
        let (av, bv) = (a.cached_value().unwrap(), b.cached_value().unwrap());
        assert_eq!(av.id, bv.id);
        assert_eq!(av.name, bv.name);
    }
}

#[test]
fn freshly_fetched_recipe_holds_unresolved_references() {
    let store = populated_store();
    let recipe = Recipe::get(&store, 0).unwrap();
    assert_eq!(recipe.categories.len(), 1);
    assert_eq!(recipe.categories[0].id, 0);
    assert!(recipe.categories[0].cached_value().is_none());
    assert_eq!(recipe.versions.len(), 1);
    assert_eq!(recipe.versions[0].0, 0);
    assert!(recipe.versions[0].1.cached_value().is_none());
}

#[test]
fn recipe_resolution_is_one_level_deep() {
    let store = populated_store();
    let recipe = Recipe::get_filled(&store, 0).unwrap();
    // The version reference itself is resolved ...
    let (key, version_ref) = &recipe.versions[0];
    assert_eq!(*key, 0);
    let version = version_ref.cached_value().unwrap();
    assert_eq!(version.id, 0);
    // ... but the resolved version's own ingredient references are not.
    assert_eq!(version.ingredients.len(), 1);
    assert_eq!(version.ingredients[0].ingredient.id, 0);
    assert!(version.ingredients[0].ingredient.cached_value().is_none());
}

#[test]
fn version_resolution_resolves_ingredients() {
    let store = populated_store();
    let id = RecipeVersionID { recipe_id: 0, version_id: 0 };
    let version = RecipeVersion::get_filled(&store, id).unwrap();
    assert_eq!(version.ingredients.len(), 1);
    let sugar = version.ingredients[0].ingredient.cached_value().unwrap();
    assert_eq!(sugar.id, 0);
    assert_eq!(sugar.name, "Sugar");
    assert_eq!(sugar.energy_density, 1700.0f64.to_bits());
    assert_eq!(version.ingredients[0].quantity, 0.2f64.to_bits());
    assert!(matches!(version.ingredients[0].measurement, MeasurementType::Mass));
    assert_eq!(version.instructions.len(), 2);
    assert_eq!(version.instructions[0].text, "Mix");
    assert_eq!(version.instructions[1].text, "Bake");
    assert_eq!(version.duration, 600);
    assert_eq!(version.created, 1_600_000_000);
}

#[test]
fn resolution_is_idempotent_and_never_refetches() {
    let mut store = Store::new();
    Category::store_new(&mut store, "Dessert".to_string()).unwrap();
    let mut reference: Ref<Category> = Ref::new(0);
    reference.fill(&store).unwrap();
    assert_eq!(reference.cached_value().unwrap().name, "Dessert");
    // Empty the store: a second resolution that consulted it would fail.
    store.categories.clear();
    let value = reference.query(&store).unwrap();
    assert_eq!(value.id, 0);
    assert_eq!(value.name, "Dessert");
}

#[test]
fn unresolved_reference_fails_on_missing_target() {
    let store = Store::new();
    let mut reference: Ref<Category> = Ref::new(3);
    let result = reference.fill(&store);
    assert!(matches!(result, Err(Error::NotFound)));
    assert!(reference.cached_value().is_none());
}
