//! The laws of the entity layer, stated and proved once over the
//! mathematical models that the operations' contracts use.

use vstd::prelude::*;

use crate::error::Error;
use crate::models::model::{get_filled_spec, Model};
use crate::models::modelref::RefV;
use crate::models::recipe::Recipe;
use crate::models::recipeversion::{
    ingredient_rows_for, instruction_rows_for, instruction_views, qi_view_of_row,
    stored_ingredients_view, stored_instructions_view, timestamp_representable, version_has_key,
    Instruction, MeasurementType, QuantifiedIngredient, QuantifiedIngredientV, RecipeVersion,
    RecipeVersionID, RecipeVersionV,
};
use crate::store::{
    first_where, lemma_filter_all_pos, lemma_first_where_exists, lemma_first_where_push,
    lemma_max_version_id_ge, lemma_max_version_id_is_some_row, max_category_id, max_version_id,
    next_id_of, recipe_visible, version_key_exists, CategoryRow, Store, VersionIngredientRow,
    VersionRow,
};

verus! {

/// Fetching and resolving in one step is a fetch followed, on success, by
/// one-level resolution of the fetched value, for every entity type and
/// every identity.
pub proof fn lemma_get_filled_is_get_then_fill<M: Model>(s: Store, id: M::ID)
    ensures
        get_filled_spec::<M>(s, id) == (match M::get_spec(s, id) {
            Ok(v) => M::fill_spec(v, s),
            Err(e) => Err(e),
        }),
{
}

/// Sequential allocation for categories: after a category is stored under
/// the allocator's identifier, the allocator's next identifier is one
/// larger -- so single-threaded creation on an empty table yields 0, 1, 2
/// and so on.
pub proof fn lemma_sequential_category_ids(s1: Store, s2: Store, name: String)
    requires
        next_id_of(max_category_id(s1.categories@)) < i64::MAX,
        s2.categories@ == s1.categories@.push(
            CategoryRow { id: next_id_of(max_category_id(s1.categories@)) as i64, name },
        ),
    ensures
        next_id_of(max_category_id(s2.categories@)) == next_id_of(max_category_id(s1.categories@))
            + 1,
{
    assert(s2.categories@.drop_last() =~= s1.categories@);
    if max_category_id(s1.categories@) is Some {
        crate::store::lemma_max_category_id_ge(s1.categories@, 0);
    }
}

/// Sequential allocation for versions: after a version of one recipe is
/// stored under the allocator's identifier, that recipe's next version
/// identifier is one larger.
pub proof fn lemma_sequential_version_ids(
    s1: Store,
    s2: Store,
    recipe_id: i64,
    created: i64,
    duration: i64,
)
    requires
        next_id_of(max_version_id(s1.recipes_versions@, recipe_id)) < i64::MAX,
        s2.recipes_versions@ == s1.recipes_versions@.push(
            VersionRow {
                recipe_id,
                version_id: next_id_of(max_version_id(s1.recipes_versions@, recipe_id)) as i64,
                created,
                duration,
            },
        ),
    ensures
        next_id_of(max_version_id(s2.recipes_versions@, recipe_id)) == next_id_of(
            max_version_id(s1.recipes_versions@, recipe_id),
        ) + 1,
{
    assert(s2.recipes_versions@.drop_last() =~= s1.recipes_versions@);
    if max_version_id(s1.recipes_versions@, recipe_id) is Some {
        lemma_max_version_id_is_some_row(s1.recipes_versions@, recipe_id);
        let w = choose|w: int|
            0 <= w < s1.recipes_versions@.len() && (#[trigger] s1.recipes_versions@[w]).recipe_id
                == recipe_id && s1.recipes_versions@[w].version_id == max_version_id(
                s1.recipes_versions@,
                recipe_id,
            )->0;
        lemma_max_version_id_ge(s1.recipes_versions@, recipe_id, w);
    }
}

/// Version identifiers are scoped per recipe: storing a version row of a
/// different recipe leaves this recipe's allocator untouched.
pub proof fn lemma_version_ids_scoped(rows: Seq<VersionRow>, row: VersionRow, recipe_id: i64)
    requires
        row.recipe_id != recipe_id,
    ensures
        max_version_id(rows.push(row), recipe_id) == max_version_id(rows, recipe_id),
{
    assert(rows.push(row).drop_last() =~= rows);
}

/// A hidden recipe is unreachable, even by exact identifier: when every
/// stored row of the identifier is hidden, a fetch and a fetch-and-resolve
/// fail with `NotFound`, the recipe is invisible, and every read of one of
/// its versions fails with `InvalidReference`.
pub proof fn lemma_hidden_recipe_unreachable(s: Store, id: i64, version_id: i64)
    requires
        forall|i: int|
            0 <= i < s.recipes@.len() && (#[trigger] s.recipes@[i]).id == id ==> s.recipes@[
                i
            ].hidden,
    ensures
        !recipe_visible(s, id),
        Recipe::get_spec(s, id) == Err::<<Recipe as View>::V, Error>(Error::NotFound),
        get_filled_spec::<Recipe>(s, id) == Err::<<Recipe as View>::V, Error>(Error::NotFound),
        RecipeVersion::get_spec(s, RecipeVersionID { recipe_id: id, version_id }) == Err::<
            RecipeVersionV,
            Error,
        >(Error::InvalidReference),
{
    let pred = crate::models::recipe::recipe_visible_with_id(id);
    lemma_first_where_exists(s.recipes@, pred);
    if first_where(s.recipes@, pred) is Some {
        let i = choose|i: int| 0 <= i < s.recipes@.len() && pred(s.recipes@[i]);
    }
}

/// A malformed stored measurement code never fails a read: decoding is
/// total, and a code that no measurement carries yields `Count`.
pub proof fn lemma_malformed_measurement_tolerated(value: i64)
    ensures
        MeasurementType::try_from_spec(value) is Err ==> MeasurementType::decode_spec(value)
            == MeasurementType::Count,
        MeasurementType::try_from_spec(value) matches Ok(m) ==> MeasurementType::decode_spec(
            value,
        ) == m,
{
}

/// The views a round trip should hand back: each stored ingredient as an
/// identifier-only reference with the quantity and measurement it was
/// stored with.
pub open spec fn round_trip_qi_views(items: Seq<QuantifiedIngredient>) -> Seq<
    QuantifiedIngredientV,
> {
    items.map_values(
        |q: QuantifiedIngredient|
            QuantifiedIngredientV {
                ingredient: RefV::unresolved(q.ingredient.id),
                quantity: q.quantity,
                measurement: q.measurement,
            },
    )
}

/// Ingredient and instruction ordering round-trips exactly: a version
/// stored with these ingredients and instructions reads back as exactly
/// this list in this order, each measurement decoding to the one stored,
/// each quantity bit-for-bit, each ingredient reference identifier-only.
pub proof fn lemma_version_round_trip(
    s1: Store,
    s2: Store,
    recipe_id: i64,
    created: i64,
    ingredients: Seq<QuantifiedIngredient>,
    instructions: Seq<Instruction>,
    duration: i64,
)
    requires
        s1.wf(),
        recipe_visible(s1, recipe_id),
        timestamp_representable(created),
        next_id_of(max_version_id(s1.recipes_versions@, recipe_id)) < i64::MAX,
        ({
            let version_id = next_id_of(max_version_id(s1.recipes_versions@, recipe_id)) as i64;
            &&& s2.recipes == s1.recipes
            &&& s2.recipes_versions@ == s1.recipes_versions@.push(
                VersionRow { recipe_id, version_id, created, duration },
            )
            &&& s2.recipes_ingredients@ == s1.recipes_ingredients@ + ingredient_rows_for(
                recipe_id,
                version_id,
                ingredients,
            )
            &&& s2.recipes_instructions@ == s1.recipes_instructions@ + instruction_rows_for(
                recipe_id,
                version_id,
                instructions,
            )
        }),
    ensures
        ({
            let version_id = next_id_of(max_version_id(s1.recipes_versions@, recipe_id)) as i64;
            RecipeVersion::get_spec(s2, RecipeVersionID { recipe_id, version_id }) == Ok::<
                RecipeVersionV,
                Error,
            >(
                RecipeVersionV {
                    id: version_id,
                    created,
                    ingredients: round_trip_qi_views(ingredients),
                    instructions: instruction_views(instructions),
                    duration,
                },
            )
        }),
{
    let version_id = next_id_of(max_version_id(s1.recipes_versions@, recipe_id)) as i64;
    let vs = s1.recipes_versions@;
    let key = version_has_key(recipe_id, version_id);
    let vrow = VersionRow { recipe_id, version_id, created, duration };
    // The fresh key matches no old version row.
    assert forall|t: int| 0 <= t < vs.len() implies !key(vs[t]) by {
        if vs[t].recipe_id == recipe_id {
            lemma_max_version_id_ge(vs, recipe_id, t);
        }
    }
    lemma_first_where_exists(vs, key);
    if first_where(vs, key) is Some {
        let t = choose|t: int| 0 <= t < vs.len() && key(vs[t]);
    }
    lemma_first_where_push(vs, key, vrow);
    assert(first_where(s2.recipes_versions@, key) == Some(vrow));
    // The recipe stays visible.
    assert(recipe_visible(s2, recipe_id));
    // Old ingredient rows do not carry the fresh key (their foreign key
    // points below the maximum), the appended ones all do.
    let ikey = crate::models::recipeversion::ingredient_row_has_key(recipe_id, version_id);
    let old_ing = s1.recipes_ingredients@;
    let added_ing = ingredient_rows_for(recipe_id, version_id, ingredients);
    assert forall|t: int| 0 <= t < old_ing.len() implies !ikey(#[trigger] old_ing[t]) by {
        if old_ing[t].recipe_id == recipe_id && old_ing[t].version_id == version_id {
            assert(version_key_exists(vs, old_ing[t].recipe_id, old_ing[t].version_id));
            let w = choose|w: int|
                0 <= w < vs.len() && (#[trigger] vs[w]).recipe_id == old_ing[t].recipe_id
                    && vs[w].version_id == old_ing[t].version_id;
            lemma_max_version_id_ge(vs, recipe_id, w);
        }
    }
    Seq::filter_distributes_over_add(old_ing, added_ing, ikey);
    old_ing.lemma_all_neg_filter_empty(ikey);
    assert(old_ing.filter(ikey) =~= Seq::<VersionIngredientRow>::empty());
    assert forall|t: int| 0 <= t < added_ing.len() implies ikey(#[trigger] added_ing[t]) by {}
    lemma_filter_all_pos(added_ing, ikey);
    assert(old_ing.filter(ikey) + added_ing.filter(ikey) =~= added_ing);
    assert(added_ing.map_values(|row: VersionIngredientRow| qi_view_of_row(row))
        =~= round_trip_qi_views(ingredients));
    assert(stored_ingredients_view(s2, recipe_id, version_id) == round_trip_qi_views(ingredients));
    // Instructions: the same argument.
    let nkey = crate::models::recipeversion::instruction_row_has_key(recipe_id, version_id);
    let old_ins = s1.recipes_instructions@;
    let added_ins = instruction_rows_for(recipe_id, version_id, instructions);
    assert forall|t: int| 0 <= t < old_ins.len() implies !nkey(#[trigger] old_ins[t]) by {
        if old_ins[t].recipe_id == recipe_id && old_ins[t].version_id == version_id {
            assert(version_key_exists(vs, old_ins[t].recipe_id, old_ins[t].version_id));
            let w = choose|w: int|
                0 <= w < vs.len() && (#[trigger] vs[w]).recipe_id == old_ins[t].recipe_id
                    && vs[w].version_id == old_ins[t].version_id;
            lemma_max_version_id_ge(vs, recipe_id, w);
        }
    }
    Seq::filter_distributes_over_add(old_ins, added_ins, nkey);
    old_ins.lemma_all_neg_filter_empty(nkey);
    assert(old_ins.filter(nkey) =~= Seq::<crate::store::InstructionRow>::empty());
    assert forall|t: int| 0 <= t < added_ins.len() implies nkey(#[trigger] added_ins[t]) by {}
    lemma_filter_all_pos(added_ins, nkey);
    assert(old_ins.filter(nkey) + added_ins.filter(nkey) =~= added_ins);
    assert(added_ins.map_values(|row: crate::store::InstructionRow| row.step_text@)
        =~= instruction_views(instructions));
    assert(stored_instructions_view(s2, recipe_id, version_id) == instruction_views(instructions));
}

} // verus!
