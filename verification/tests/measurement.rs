//! Stored measurement codes: encoding, decoding, and tolerance of
//! malformed values.

use recipes::models::{MeasurementType, Model, Recipe, RecipeVersion, RecipeVersionID};
use recipes::store::{Store, VersionIngredientRow};

#[test]
fn codes_encode_in_declaration_order() {
    assert_eq!(MeasurementType::Mass.code(), 0);
    assert_eq!(MeasurementType::Volume.code(), 1);
    assert_eq!(MeasurementType::Count.code(), 2);
}

#[test]
fn known_codes_convert_back() {
    assert_eq!(MeasurementType::try_from(0), Ok(MeasurementType::Mass));
    assert_eq!(MeasurementType::try_from(1), Ok(MeasurementType::Volume));
    assert_eq!(MeasurementType::try_from(2), Ok(MeasurementType::Count));
    assert_eq!(MeasurementType::try_from(3), Err(()));
    assert_eq!(MeasurementType::try_from(-1), Err(()));
}

#[test]
fn malformed_stored_code_decodes_to_count_without_failing_the_read() {
    let mut store = Store::new();
    Recipe::store_new(&mut store, "Cake".to_string(), vec![]).unwrap();
    RecipeVersion::store_new(&mut store, 0, 1_600_000_000, vec![], vec![], 60).unwrap();
    // A stored ingredient row whose measurement code no variant carries.
    store.recipes_ingredients.push(VersionIngredientRow {
        recipe_id: 0,
        version_id: 0,
        ingredient_id: 4,
        list_order: 0,
        quantity: 1.0f64.to_bits(),
        measurement: 7,
    });
    let id = RecipeVersionID { recipe_id: 0, version_id: 0 };
    let version = RecipeVersion::get(&store, id).unwrap();
    assert_eq!(version.ingredients.len(), 1);
    assert!(matches!(version.ingredients[0].measurement, MeasurementType::Count));
}
