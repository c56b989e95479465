//! The retrievable entities of the catalog and the machinery they share:
//! the entity contract (`Model`) and lazy cross-entity references (`Ref`).

pub mod category;
pub mod ingredient;
pub mod model;
pub mod modelref;
pub mod recipe;
pub mod recipeversion;

pub use category::{Category, CategoryV};
pub use ingredient::{Ingredient, IngredientV};
pub use model::{get_filled_spec, Model};
pub use modelref::{ref_fill_spec, Ref, RefV};
pub use recipe::{
    all_categories_exist, category_ref_views, membership_rows_for, version_entry_views, Recipe,
    RecipeV,
};
pub use recipeversion::{
    ensure_recipe_visible, instruction_views, qi_views, Instruction, MeasurementType,
    QuantifiedIngredient, QuantifiedIngredientV, RecipeVersion, RecipeVersionID, RecipeVersionV,
};
