//! Creation operations: attached categories, validation of foreign
//! identifiers, and atomicity of failed creations.

use recipes::models::{Category, Instruction, MeasurementType, QuantifiedIngredient, Recipe,
    RecipeVersion, Ref};
use recipes::store::Store;
use recipes::Error;

fn store_with_dessert() -> Store {
    let mut store = Store::new();
    Category::store_new(&mut store, "Dessert".to_string()).unwrap();
    store
}

#[test]
fn recipe_with_existing_category_gets_id_zero_and_membership() {
    let mut store = store_with_dessert();
    let categories = vec![Category { id: 0, name: "Dessert".to_string() }];
    let id = Recipe::store_new(&mut store, "Cake".to_string(), categories).unwrap();
    assert_eq!(id, 0);
    assert_eq!(store.recipes.len(), 1);
    assert_eq!(store.recipes[0].name, "Cake");
    assert!(!store.recipes[0].hidden);
    assert_eq!(store.recipes_categories.len(), 1);
    assert_eq!(store.recipes_categories[0].recipe_id, 0);
    assert_eq!(store.recipes_categories[0].category_id, 0);
}

#[test]
fn recipe_with_missing_category_fails_and_leaves_no_rows() {
    let mut store = store_with_dessert();
    let ghost_cat = vec![Category { id: 999, name: "Ghost".to_string() }];
    let result = Recipe::store_new(&mut store, "Bad".to_string(), ghost_cat);
    assert!(matches!(result, Err(Error::InvalidReference)));
    assert_eq!(store.recipes.len(), 0);
    assert_eq!(store.recipes_categories.len(), 0);
    assert_eq!(store.recipes_versions.len(), 0);
}

#[test]
fn version_of_missing_recipe_fails_and_leaves_no_rows() {
    let mut store = Store::new();
    let result =
        RecipeVersion::store_new(&mut store, 7, 1_600_000_000, vec![], vec![], 600);
    assert!(matches!(result, Err(Error::InvalidReference)));
    assert_eq!(store.recipes_versions.len(), 0);
    assert_eq!(store.recipes_ingredients.len(), 0);
    assert_eq!(store.recipes_instructions.len(), 0);
}

#[test]
fn version_rows_carry_positions_and_codes() {
    let mut store = Store::new();
    let recipe = Recipe::store_new(&mut store, "Cake".to_string(), vec![]).unwrap();
    let ingredients = vec![
        QuantifiedIngredient {
            ingredient: Ref::new(0),
            quantity: 0.2f64.to_bits(),
            measurement: MeasurementType::Mass,
        },
        QuantifiedIngredient {
            ingredient: Ref::new(1),
            quantity: 3.0f64.to_bits(),
            measurement: MeasurementType::Count,
        },
    ];
    let instructions = vec![
        Instruction { text: "Mix".to_string() },
        Instruction { text: "Bake".to_string() },
    ];
    let id = RecipeVersion::store_new(
        &mut store,
        recipe,
        1_600_000_000,
        ingredients,
        instructions,
        600,
    )
    .unwrap();
    assert_eq!(id.recipe_id, 0);
    assert_eq!(id.version_id, 0);
    assert_eq!(store.recipes_versions.len(), 1);
    assert_eq!(store.recipes_versions[0].created, 1_600_000_000);
    assert_eq!(store.recipes_versions[0].duration, 600);
    assert_eq!(store.recipes_ingredients.len(), 2);
    assert_eq!(store.recipes_ingredients[0].list_order, 0);
    assert_eq!(store.recipes_ingredients[0].measurement, 0);
    assert_eq!(store.recipes_ingredients[1].list_order, 1);
    assert_eq!(store.recipes_ingredients[1].measurement, 2);
    assert_eq!(store.recipes_instructions.len(), 2);
    assert_eq!(store.recipes_instructions[0].step_number, 0);
    assert_eq!(store.recipes_instructions[0].step_text, "Mix");
    assert_eq!(store.recipes_instructions[1].step_number, 1);
    assert_eq!(store.recipes_instructions[1].step_text, "Bake");
}

#[test]
fn stores_grown_by_creation_stay_well_formed() {
    let mut store = store_with_dessert();
    assert!(store.check_wf());
    Recipe::store_new(
        &mut store,
        "Cake".to_string(),
        vec![Category { id: 0, name: "Dessert".to_string() }],
    )
    .unwrap();
    let ingredients = vec![QuantifiedIngredient {
        ingredient: Ref::new(0),
        quantity: 0.2f64.to_bits(),
        measurement: MeasurementType::Mass,
    }];
    let instructions = vec![Instruction { text: "Mix".to_string() }];
    RecipeVersion::store_new(&mut store, 0, 1_600_000_000, ingredients, instructions, 600)
        .unwrap();
    assert!(store.check_wf());
    // An ingredient row pointing at no stored version breaks the foreign key.
    store.recipes_ingredients.push(recipes::store::VersionIngredientRow {
        recipe_id: 5,
        version_id: 0,
        ingredient_id: 0,
        list_order: 0,
        quantity: 1.0f64.to_bits(),
        measurement: 0,
    });
    assert!(!store.check_wf());
}
