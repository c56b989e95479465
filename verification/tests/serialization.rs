//! The dual-mode serialization of references, JSON escaping, and decimal
//! rendering.

use recipes::json::{push_json_string, ToJson};
use recipes::models::{Category, Model, Recipe, Ref};
use recipes::store::Store;
use recipes::text::{i64_to_string, u64_to_string};

#[test]
fn unresolved_reference_serializes_as_bare_id_record() {
    let reference: Ref<Category> = Ref::new(42);
    assert_eq!(reference.serialize(), "{\"id\":42}");
}

#[test]
fn resolved_reference_serializes_as_full_entity() {
    let mut store = Store::new();
    Category::store_new(&mut store, "Dessert".to_string()).unwrap();
    let mut reference: Ref<Category> = Ref::new(0);
    assert_eq!(reference.serialize(), "{\"id\":0}");
    reference.fill(&store).unwrap();
    assert_eq!(reference.serialize(), "{\"id\":0,\"name\":\"Dessert\"}");
}

#[test]
fn category_json_matches_reference_serializer() {
    let category = Category { id: -7, name: "Sweet \"treats\"\n".to_string() };
    let expected = format!(
        "{{\"id\":-7,\"name\":{}}}",
        serde_json::to_string("Sweet \"treats\"\n").unwrap()
    );
    assert_eq!(category.to_json(), expected);
}

#[test]
fn json_string_escaping_matches_the_reference_encoder() {
    let cases = [
        "plain",
        "with \"quotes\"",
        "back\\slash",
        "line\nbreak\ttab\rreturn",
        "control\u{01}\u{1f}chars\u{08}\u{0c}",
        "unicode \u{e9}\u{4e2d}\u{1f600}",
        "",
    ];
    for case in cases {
        let mut rendered = String::new();
        push_json_string(&mut rendered, case);
        assert_eq!(rendered, serde_json::to_string(case).unwrap());
    }
}

#[test]
fn decimal_rendering_is_exact() {
    assert_eq!(u64_to_string(0), "0");
    assert_eq!(u64_to_string(7), "7");
    assert_eq!(u64_to_string(1024), "1024");
    assert_eq!(u64_to_string(u64::MAX), "18446744073709551615");
    assert_eq!(i64_to_string(0), "0");
    assert_eq!(i64_to_string(-1), "-1");
    assert_eq!(i64_to_string(-123), "-123");
    assert_eq!(i64_to_string(i64::MIN), "-9223372036854775808");
    assert_eq!(i64_to_string(i64::MAX), "9223372036854775807");
}

#[test]
fn fetched_recipe_category_reference_serializes_by_state() {
    let mut store = Store::new();
    Category::store_new(&mut store, "Dessert".to_string()).unwrap();
    let categories = vec![Category { id: 0, name: "Dessert".to_string() }];
    Recipe::store_new(&mut store, "Cake".to_string(), categories).unwrap();
    let recipe = Recipe::get(&store, 0).unwrap();
    assert_eq!(recipe.categories[0].serialize(), "{\"id\":0}");
    let filled = Recipe::get_filled(&store, 0).unwrap();
    assert_eq!(filled.categories[0].serialize(), "{\"id\":0,\"name\":\"Dessert\"}");
}
