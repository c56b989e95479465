//! The hidden flag: a soft-deleted recipe is invisible to every read path.

use recipes::api::list_versions;
use recipes::models::{Model, Recipe, RecipeVersion, RecipeVersionID};
use recipes::store::{RecipeRow, Store, VersionRow};
use recipes::Error;

fn store_with_hidden_recipe() -> Store {
    let mut store = Store::new();
    Recipe::store_new(&mut store, "Visible".to_string(), vec![]).unwrap();
    RecipeVersion::store_new(&mut store, 0, 1_600_000_000, vec![], vec![], 60).unwrap();
    // A soft-deleted recipe with a version, as storage would hold it.
    store.recipes.push(RecipeRow { id: 1, name: "Hidden".to_string(), hidden: true });
    store.recipes_versions.push(VersionRow {
        recipe_id: 1,
        version_id: 0,
        created: 1_600_000_000,
        duration: 60,
    });
    store
}

#[test]
fn hidden_recipe_is_not_fetched() {
    let store = store_with_hidden_recipe();
    assert!(matches!(Recipe::get(&store, 1), Err(Error::NotFound)));
}

#[test]
fn hidden_recipe_is_not_fetched_and_resolved() {
    let store = store_with_hidden_recipe();
    assert!(matches!(Recipe::get_filled(&store, 1), Err(Error::NotFound)));
}

#[test]
fn hidden_recipe_versions_are_not_listed() {
    let store = store_with_hidden_recipe();
    assert!(matches!(list_versions(&store, 1, 1024), Err(Error::InvalidReference)));
}

#[test]
fn hidden_recipe_version_is_not_read() {
    let store = store_with_hidden_recipe();
    let id = RecipeVersionID { recipe_id: 1, version_id: 0 };
    assert!(matches!(RecipeVersion::get(&store, id), Err(Error::InvalidReference)));
}

#[test]
fn visible_recipe_is_still_reachable() {
    let store = store_with_hidden_recipe();
    let recipe = Recipe::get(&store, 0).unwrap();
    assert_eq!(recipe.name, "Visible");
    assert_eq!(list_versions(&store, 0, 1024).unwrap().len(), 1);
}

#[test]
fn missing_recipe_is_not_found() {
    let store = Store::new();
    assert!(matches!(Recipe::get(&store, 0), Err(Error::NotFound)));
}
