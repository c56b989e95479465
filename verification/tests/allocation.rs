//! Sequential identifier allocation, observed through creation operations.

use recipes::models::{Category, Ingredient, Recipe, RecipeVersion};
use recipes::store::Store;

#[test]
fn first_category_of_empty_store_gets_id_zero() {
    let mut store = Store::new();
    let id = Category::store_new(&mut store, "Dessert".to_string()).unwrap();
    assert_eq!(id, 0);
}

#[test]
fn category_ids_count_up_from_zero() {
    let mut store = Store::new();
    assert_eq!(Category::store_new(&mut store, "Dessert".to_string()).unwrap(), 0);
    assert_eq!(Category::store_new(&mut store, "Breakfast".to_string()).unwrap(), 1);
    assert_eq!(Category::store_new(&mut store, "Dinner".to_string()).unwrap(), 2);
}

#[test]
fn ingredient_ids_count_up_from_zero() {
    let mut store = Store::new();
    let sugar = Ingredient::store_new(&mut store, "Sugar".to_string(), 1700.0f64.to_bits());
    assert_eq!(sugar.unwrap(), 0);
    let flour = Ingredient::store_new(&mut store, "Flour".to_string(), 1450.0f64.to_bits());
    assert_eq!(flour.unwrap(), 1);
}

#[test]
fn recipe_ids_count_up_from_zero() {
    let mut store = Store::new();
    assert_eq!(Recipe::store_new(&mut store, "Cake".to_string(), vec![]).unwrap(), 0);
    assert_eq!(Recipe::store_new(&mut store, "Pie".to_string(), vec![]).unwrap(), 1);
}

#[test]
fn version_ids_are_scoped_per_recipe() {
    let mut store = Store::new();
    let cake = Recipe::store_new(&mut store, "Cake".to_string(), vec![]).unwrap();
    let pie = Recipe::store_new(&mut store, "Pie".to_string(), vec![]).unwrap();
    // Two versions of the first recipe.
    let v0 = RecipeVersion::store_new(&mut store, cake, 1_600_000_000, vec![], vec![], 600)
        .unwrap();
    assert_eq!(v0.recipe_id, cake);
    assert_eq!(v0.version_id, 0);
    let v1 = RecipeVersion::store_new(&mut store, cake, 1_600_000_100, vec![], vec![], 700)
        .unwrap();
    assert_eq!(v1.version_id, 1);
    // The other recipe's first version still starts at 0, regardless of the
    // first recipe's version count.
    let w0 = RecipeVersion::store_new(&mut store, pie, 1_600_000_200, vec![], vec![], 800)
        .unwrap();
    assert_eq!(w0.recipe_id, pie);
    assert_eq!(w0.version_id, 0);
    let w1 = RecipeVersion::store_new(&mut store, pie, 1_600_000_300, vec![], vec![], 900)
        .unwrap();
    assert_eq!(w1.version_id, 1);
}
