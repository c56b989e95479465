//! Specific versions (revisions) of a recipe, with their ingredients and
//! instructions.  A version is always addressed relative to its owning
//! recipe and is immutable once stored.

use vstd::prelude::*;

use crate::error::Error;
use crate::models::ingredient::{Ingredient, IngredientV};
use crate::models::model::Model;
use crate::models::modelref::{ref_fill_spec, Ref, RefV};
use crate::store::{
    first_where, ingredient_rows_reference_versions, instruction_rows_reference_versions,
    instructions_wf, lemma_first_where_found, lemma_first_where_skip_all, lemma_first_where_step,
    lemma_max_version_id_ge, lemma_max_version_id_is_some_row, max_version_id, next_id_of,
    recipe_visible, version_ingredients_wf, version_key_exists, versions_wf, InstructionRow,
    Store, VersionIngredientRow, VersionRow,
};

verus! {

/// The kind of quantity of a recipe ingredient measurement.
#[derive(Clone, Copy, PartialEq, Eq, Structural, Debug)]
pub enum MeasurementType {
    Mass,
    Volume,
    Count,
}

impl MeasurementType {
    /// The integer code this measurement is stored under.
    pub open spec fn code_spec(self) -> i64 {
        match self {
            MeasurementType::Mass => 0,
            MeasurementType::Volume => 1,
            MeasurementType::Count => 2,
        }
    }

    /// Encodes the measurement as its stored integer code.
    pub fn code(self) -> (c: i64)
        ensures
            c == self.code_spec(),
    {
        match self {
            MeasurementType::Mass => 0,
            MeasurementType::Volume => 1,
            MeasurementType::Count => 2,
        }
    }

    /// What converting a stored integer code yields: the measurement whose
    /// code it is, or an error for an unrecognized code.
    pub open spec fn try_from_spec(value: i64) -> Result<MeasurementType, ()> {
        if value == 0 {
            Ok(MeasurementType::Mass)
        } else if value == 1 {
            Ok(MeasurementType::Volume)
        } else if value == 2 {
            Ok(MeasurementType::Count)
        } else {
            Err(())
        }
    }

    /// Attempts to convert from a stored value (integer) to a
    /// `MeasurementType`.
    pub fn try_from(value: i64) -> (r: Result<MeasurementType, ()>)
        ensures
            r == MeasurementType::try_from_spec(value),
    {
        match value {
            0 => Ok(MeasurementType::Mass),
            1 => Ok(MeasurementType::Volume),
            2 => Ok(MeasurementType::Count),
            _ => Err(()),
        }
    }

    /// What decoding a stored code during a read yields: an unrecognized
    /// code never fails the read -- it is substituted with `Count`.
    pub open spec fn decode_spec(value: i64) -> MeasurementType {
        match MeasurementType::try_from_spec(value) {
            Ok(m) => m,
            Err(()) => MeasurementType::Count,
        }
    }

    /// Decodes a stored code, substituting `Count` for an unrecognized one.
    pub fn decode(value: i64) -> (m: MeasurementType)
        ensures
            m == MeasurementType::decode_spec(value),
    {
        match MeasurementType::try_from(value) {
            Ok(m) => m,
            Err(()) => MeasurementType::Count,
        }
    }
}

/// A recipe ingredient paired with its quantity.
pub struct QuantifiedIngredient {
    pub ingredient: Ref<Ingredient>,
    /// In SI standard units: a 64-bit float carried as its bit pattern.
    pub quantity: u64,
    pub measurement: MeasurementType,
}

/// The mathematical view of a quantified ingredient.
pub struct QuantifiedIngredientV {
    pub ingredient: RefV<i64, IngredientV>,
    pub quantity: u64,
    pub measurement: MeasurementType,
}

impl View for QuantifiedIngredient {
    type V = QuantifiedIngredientV;

    open spec fn view(&self) -> QuantifiedIngredientV {
        QuantifiedIngredientV {
            ingredient: self.ingredient@,
            quantity: self.quantity,
            measurement: self.measurement,
        }
    }
}

/// A step that should be performed as part of a recipe.
pub struct Instruction {
    pub text: String,
}

impl View for Instruction {
    type V = Seq<char>;

    open spec fn view(&self) -> Seq<char> {
        self.text@
    }
}

/// The composite key of a recipe version: a version is always addressed
/// relative to its owning recipe.
#[derive(Clone, Copy, PartialEq, Eq, Structural, Debug)]
pub struct RecipeVersionID {
    pub recipe_id: i64,
    pub version_id: i64,
}

/// A specific version of a recipe, with certain ingredients and
/// instructions.
pub struct RecipeVersion {
    pub id: i64,
    /// Creation time: non-leap seconds since the Unix epoch.
    pub created: i64,
    pub ingredients: Vec<QuantifiedIngredient>,
    pub instructions: Vec<Instruction>,
    /// In seconds.
    pub duration: i64,
}

/// The mathematical view of a recipe version.
pub struct RecipeVersionV {
    pub id: i64,
    pub created: i64,
    pub ingredients: Seq<QuantifiedIngredientV>,
    pub instructions: Seq<Seq<char>>,
    pub duration: i64,
}

/// The views of a list of quantified ingredients.
pub open spec fn qi_views(items: Seq<QuantifiedIngredient>) -> Seq<QuantifiedIngredientV> {
    items.map_values(|q: QuantifiedIngredient| q.view())
}

/// The texts of a list of instructions.
pub open spec fn instruction_views(items: Seq<Instruction>) -> Seq<Seq<char>> {
    items.map_values(|step: Instruction| step.text@)
}

impl View for RecipeVersion {
    type V = RecipeVersionV;

    open spec fn view(&self) -> RecipeVersionV {
        RecipeVersionV {
            id: self.id,
            created: self.created,
            ingredients: qi_views(self.ingredients@),
            instructions: instruction_views(self.instructions@),
            duration: self.duration,
        }
    }
}

/// Whether a number of non-leap seconds since the Unix epoch lies in the
/// range the date-time library can represent.
pub uninterp spec fn timestamp_representable(secs: i64) -> bool;

/// Relies on chrono's `DateTime::<Utc>::from_timestamp`: returns `Some`
/// exactly on an in-range number of seconds since the Unix epoch and `None`
/// otherwise, deterministically in `secs`.
#[verifier::external_body]
fn datetime_from_timestamp(secs: i64) -> (r: Option<i64>)
    ensures
        r is Some <==> timestamp_representable(secs),
        r matches Some(v) ==> v == secs,
{
    chrono::DateTime::<chrono::Utc>::from_timestamp(secs, 0).map(|_| secs)
}

/// Verifies that `recipe_id` refers to a visible (existing, not hidden)
/// recipe: the check every version operation makes before touching version
/// rows.
pub fn ensure_recipe_visible(s: &Store, recipe_id: i64) -> (r: Result<(), Error>)
    ensures
        r is Ok <==> recipe_visible(*s, recipe_id),
        r is Err ==> r == Err::<(), Error>(Error::InvalidReference),
{
    let n = s.recipes.len();
    let mut i: usize = 0;
    while i < n
        invariant
            i <= n,
            n == s.recipes@.len(),
            forall|k: int|
                0 <= k < i ==> !((#[trigger] s.recipes@[k]).id == recipe_id
                    && !s.recipes@[k].hidden),
        decreases n - i,
    {
        if s.recipes[i].id == recipe_id && !s.recipes[i].hidden {
            return Ok(());
        }
        i += 1;
    }
    Err(Error::InvalidReference)
}

/// Selects rows of the `recipes_versions` table by composite key.
pub open spec fn version_has_key(recipe_id: i64, version_id: i64) -> spec_fn(VersionRow) -> bool {
    |row: VersionRow| row.recipe_id == recipe_id && row.version_id == version_id
}

/// Selects rows of the `recipes_ingredients` table by composite key.
pub open spec fn ingredient_row_has_key(recipe_id: i64, version_id: i64) -> spec_fn(
    VersionIngredientRow,
) -> bool {
    |row: VersionIngredientRow| row.recipe_id == recipe_id && row.version_id == version_id
}

/// Selects rows of the `recipes_instructions` table by composite key.
pub open spec fn instruction_row_has_key(recipe_id: i64, version_id: i64) -> spec_fn(
    InstructionRow,
) -> bool {
    |row: InstructionRow| row.recipe_id == recipe_id && row.version_id == version_id
}

/// The view of one stored ingredient row: an unresolved reference to the
/// ingredient, the quantity bits, and the decoded measurement.
pub open spec fn qi_view_of_row(row: VersionIngredientRow) -> QuantifiedIngredientV {
    QuantifiedIngredientV {
        ingredient: RefV::unresolved(row.ingredient_id),
        quantity: row.quantity,
        measurement: MeasurementType::decode_spec(row.measurement),
    }
}

/// The views of the rows of one version in a `recipes_ingredients` table,
/// in table (that is, `list_order`) order.
pub open spec fn rows_ingredients_view(
    rows: Seq<VersionIngredientRow>,
    recipe_id: i64,
    version_id: i64,
) -> Seq<QuantifiedIngredientV> {
    rows.filter(ingredient_row_has_key(recipe_id, version_id)).map_values(
        |row: VersionIngredientRow| qi_view_of_row(row),
    )
}

/// The ingredient list a read of one version yields: its rows in
/// `list_order`, decoded.
pub open spec fn stored_ingredients_view(s: Store, recipe_id: i64, version_id: i64) -> Seq<
    QuantifiedIngredientV,
> {
    rows_ingredients_view(s.recipes_ingredients@, recipe_id, version_id)
}

/// The texts of the rows of one version in a `recipes_instructions` table,
/// in table (that is, `step_number`) order.
pub open spec fn rows_instructions_view(
    rows: Seq<InstructionRow>,
    recipe_id: i64,
    version_id: i64,
) -> Seq<Seq<char>> {
    rows.filter(instruction_row_has_key(recipe_id, version_id)).map_values(
        |row: InstructionRow| row.step_text@,
    )
}

/// The instruction texts a read of one version yields: its rows in
/// `step_number` order.
pub open spec fn stored_instructions_view(s: Store, recipe_id: i64, version_id: i64) -> Seq<
    Seq<char>,
> {
    rows_instructions_view(s.recipes_instructions@, recipe_id, version_id)
}

/// Collects the stored ingredient rows of one version, in table order, as
/// unresolved quantified ingredients.
fn collect_ingredients(s: &Store, recipe_id: i64, version_id: i64) -> (out: Vec<
    QuantifiedIngredient,
>)
    ensures
        qi_views(out@) == stored_ingredients_view(*s, recipe_id, version_id),
{
    let n = s.recipes_ingredients.len();
    let mut out: Vec<QuantifiedIngredient> = Vec::new();
    let mut i: usize = 0;
    proof {
        assert(s.recipes_ingredients@.take(0) =~= Seq::<VersionIngredientRow>::empty());
        assert(qi_views(out@) =~= rows_ingredients_view(
            s.recipes_ingredients@.take(0),
            recipe_id,
            version_id,
        ));
    }
    while i < n
        invariant
            i <= n,
            n == s.recipes_ingredients@.len(),
            qi_views(out@) == rows_ingredients_view(
                s.recipes_ingredients@.take(i as int),
                recipe_id,
                version_id,
            ),
        decreases n - i,
    {
        proof {
            let rows = s.recipes_ingredients@;
            rows.lemma_take_succ_push(i as int);
            rows.take(i as int).lemma_filter_push(
                rows[i as int],
                ingredient_row_has_key(recipe_id, version_id),
            );
        }
        if s.recipes_ingredients[i].recipe_id == recipe_id && s.recipes_ingredients[i].version_id
            == version_id {
            let row_ingredient_id = s.recipes_ingredients[i].ingredient_id;
            let row_quantity = s.recipes_ingredients[i].quantity;
            let row_measurement = s.recipes_ingredients[i].measurement;
            let item = QuantifiedIngredient {
                ingredient: Ref::new(row_ingredient_id),
                quantity: row_quantity,
                measurement: MeasurementType::decode(row_measurement),
            };
            let ghost out_before = out@;
            out.push(item);
            proof {
                let rows = s.recipes_ingredients@;
                let pred = ingredient_row_has_key(recipe_id, version_id);
                assert(qi_views(out_before.push(item)) =~= qi_views(out_before).push(item@));
                assert(rows.take(i as int).filter(pred).push(rows[i as int]).map_values(
                    |row: VersionIngredientRow| qi_view_of_row(row),
                ) =~= rows.take(i as int).filter(pred).map_values(
                    |row: VersionIngredientRow| qi_view_of_row(row),
                ).push(qi_view_of_row(rows[i as int])));
            }
        }
        i += 1;
    }
    proof {
        assert(s.recipes_ingredients@.take(n as int) =~= s.recipes_ingredients@);
    }
    out
}

/// Collects the stored instruction rows of one version, in table order.
fn collect_instructions(s: &Store, recipe_id: i64, version_id: i64) -> (out: Vec<Instruction>)
    ensures
        instruction_views(out@) == stored_instructions_view(*s, recipe_id, version_id),
{
    let n = s.recipes_instructions.len();
    let mut out: Vec<Instruction> = Vec::new();
    let mut i: usize = 0;
    proof {
        assert(s.recipes_instructions@.take(0) =~= Seq::<InstructionRow>::empty());
        assert(instruction_views(out@) =~= rows_instructions_view(
            s.recipes_instructions@.take(0),
            recipe_id,
            version_id,
        ));
    }
    while i < n
        invariant
            i <= n,
            n == s.recipes_instructions@.len(),
            instruction_views(out@) == rows_instructions_view(
                s.recipes_instructions@.take(i as int),
                recipe_id,
                version_id,
            ),
        decreases n - i,
    {
        proof {
            let rows = s.recipes_instructions@;
            rows.lemma_take_succ_push(i as int);
            rows.take(i as int).lemma_filter_push(
                rows[i as int],
                instruction_row_has_key(recipe_id, version_id),
            );
        }
        if s.recipes_instructions[i].recipe_id == recipe_id && s.recipes_instructions[i].version_id
            == version_id {
            let item = Instruction { text: s.recipes_instructions[i].step_text.clone() };
            let ghost out_before = out@;
            out.push(item);
            proof {
                let rows = s.recipes_instructions@;
                let pred = instruction_row_has_key(recipe_id, version_id);
                assert(instruction_views(out_before.push(item)) =~= instruction_views(
                    out_before,
                ).push(item@));
                assert(rows.take(i as int).filter(pred).push(rows[i as int]).map_values(
                    |row: InstructionRow| row.step_text@,
                ) =~= rows.take(i as int).filter(pred).map_values(
                    |row: InstructionRow| row.step_text@,
                ).push(rows[i as int].step_text@));
            }
        }
        i += 1;
    }
    proof {
        assert(s.recipes_instructions@.take(n as int) =~= s.recipes_instructions@);
    }
    out
}

/// Finds the `recipes_versions` row of one composite key, if any.
fn find_version_row(s: &Store, recipe_id: i64, version_id: i64) -> (r: Option<usize>)
    ensures
        match r {
            Some(i) => i < s.recipes_versions@.len() && first_where(
                s.recipes_versions@,
                version_has_key(recipe_id, version_id),
            ) == Some(s.recipes_versions@[i as int]),
            None => first_where(s.recipes_versions@, version_has_key(recipe_id, version_id))
                is None,
        },
{
    let n = s.recipes_versions.len();
    let mut i: usize = 0;
    proof {
        lemma_first_where_skip_all(s.recipes_versions@, version_has_key(recipe_id, version_id));
    }
    while i < n
        invariant
            i <= n,
            n == s.recipes_versions@.len(),
            first_where(s.recipes_versions@, version_has_key(recipe_id, version_id)) == first_where(
                s.recipes_versions@.skip(i as int),
                version_has_key(recipe_id, version_id),
            ),
        decreases n - i,
    {
        if s.recipes_versions[i].recipe_id == recipe_id && s.recipes_versions[i].version_id
            == version_id {
            proof {
                lemma_first_where_found(
                    s.recipes_versions@,
                    version_has_key(recipe_id, version_id),
                    i as int,
                );
            }
            return Some(i);
        }
        proof {
            lemma_first_where_step(
                s.recipes_versions@,
                version_has_key(recipe_id, version_id),
                i as int,
            );
        }
        i += 1;
    }
    proof {
        assert(s.recipes_versions@.skip(n as int) =~= Seq::<VersionRow>::empty());
    }
    None
}

/// What resolving a list of quantified ingredients yields: each ingredient
/// reference resolved in order, stopping at the first failure.
pub open spec fn fill_qi_list(items: Seq<QuantifiedIngredientV>, s: Store) -> Result<
    Seq<QuantifiedIngredientV>,
    Error,
>
    decreases items.len(),
{
    if items.len() == 0 {
        Ok(items)
    } else {
        match ref_fill_spec::<Ingredient>(items[0].ingredient, s) {
            Ok(filled) => match fill_qi_list(items.drop_first(), s) {
                Ok(rest) => Ok(
                    seq![
                        QuantifiedIngredientV {
                            ingredient: filled,
                            quantity: items[0].quantity,
                            measurement: items[0].measurement,
                        },
                    ] + rest,
                ),
                Err(e) => Err(e),
            },
            Err(e) => Err(e),
        }
    }
}

/// A list whose references each resolve is resolved pointwise.
proof fn lemma_fill_qi_list_ok(
    items: Seq<QuantifiedIngredientV>,
    s: Store,
    out: Seq<QuantifiedIngredientV>,
)
    requires
        items.len() == out.len(),
        forall|j: int|
            0 <= j < items.len() ==> {
                &&& ref_fill_spec::<Ingredient>((#[trigger] items[j]).ingredient, s) == Ok::<
                    RefV<i64, IngredientV>,
                    Error,
                >((#[trigger] out[j]).ingredient)
                &&& out[j].quantity == items[j].quantity
                &&& out[j].measurement == items[j].measurement
            },
    ensures
        fill_qi_list(items, s) == Ok::<Seq<QuantifiedIngredientV>, Error>(out),
    decreases items.len(),
{
    if items.len() == 0 {
        assert(items =~= out);
    } else {
        assert forall|j: int| 0 <= j < items.drop_first().len() implies {
            &&& ref_fill_spec::<Ingredient>(
                (#[trigger] items.drop_first()[j]).ingredient,
                s,
            ) == Ok::<RefV<i64, IngredientV>, Error>((#[trigger] out.drop_first()[j]).ingredient)
            &&& out.drop_first()[j].quantity == items.drop_first()[j].quantity
            &&& out.drop_first()[j].measurement == items.drop_first()[j].measurement
        } by {
            assert(items.drop_first()[j] == items[j + 1]);
            assert(out.drop_first()[j] == out[j + 1]);
        }
        lemma_fill_qi_list_ok(items.drop_first(), s, out.drop_first());
        assert(seq![
            QuantifiedIngredientV {
                ingredient: out[0].ingredient,
                quantity: items[0].quantity,
                measurement: items[0].measurement,
            },
        ] + out.drop_first() =~= out);
    }
}

/// A list whose first failing reference fails with `e` resolves to `e`.
proof fn lemma_fill_qi_list_err(items: Seq<QuantifiedIngredientV>, s: Store, k: int, e: Error)
    requires
        0 <= k < items.len(),
        forall|j: int|
            0 <= j < k ==> ref_fill_spec::<Ingredient>((#[trigger] items[j]).ingredient, s) is Ok,
        ref_fill_spec::<Ingredient>(items[k].ingredient, s) == Err::<
            RefV<i64, IngredientV>,
            Error,
        >(e),
    ensures
        fill_qi_list(items, s) == Err::<Seq<QuantifiedIngredientV>, Error>(e),
    decreases items.len(),
{
    if k > 0 {
        assert forall|j: int| 0 <= j < k - 1 implies ref_fill_spec::<Ingredient>(
            (#[trigger] items.drop_first()[j]).ingredient,
            s,
        ) is Ok by {
            assert(items.drop_first()[j] == items[j + 1]);
        }
        assert(items.drop_first()[k - 1] == items[k]);
        lemma_fill_qi_list_err(items.drop_first(), s, k - 1, e);
    }
}

/// The `recipes_ingredients` rows that storing this ingredient list under
/// one version key writes: one row per entry, `list_order` tagging its
/// position and `measurement` its integer code.
pub open spec fn ingredient_rows_for(
    recipe_id: i64,
    version_id: i64,
    items: Seq<QuantifiedIngredient>,
) -> Seq<VersionIngredientRow> {
    Seq::new(
        items.len(),
        |k: int|
            VersionIngredientRow {
                recipe_id,
                version_id,
                ingredient_id: items[k].ingredient.id,
                list_order: k as i64,
                quantity: items[k].quantity,
                measurement: items[k].measurement.code_spec(),
            },
    )
}

/// The `recipes_instructions` rows that storing this instruction list under
/// one version key writes: one row per entry, `step_number` tagging its
/// position.
pub open spec fn instruction_rows_for(
    recipe_id: i64,
    version_id: i64,
    items: Seq<Instruction>,
) -> Seq<InstructionRow> {
    Seq::new(
        items.len(),
        |k: int|
            InstructionRow {
                recipe_id,
                version_id,
                step_number: k as i64,
                step_text: items[k].text,
            },
    )
}

/// Computes the identifier the allocator hands to the next version of one
/// recipe: the maximum existing `version_id` of that recipe plus one, or 0
/// when the recipe has no versions -- regardless of other recipes' version
/// counts.
fn next_version_id(s: &Store, recipe_id: i64) -> (id: i64)
    requires
        next_id_of(max_version_id(s.recipes_versions@, recipe_id)) < i64::MAX,
    ensures
        id == next_id_of(max_version_id(s.recipes_versions@, recipe_id)),
{
    let n = s.recipes_versions.len();
    let mut acc: Option<i64> = None;
    let mut i: usize = 0;
    while i < n
        invariant
            i <= n,
            n == s.recipes_versions@.len(),
            acc == max_version_id(s.recipes_versions@.take(i as int), recipe_id),
        decreases n - i,
    {
        proof {
            assert(s.recipes_versions@.take(i + 1).drop_last() =~= s.recipes_versions@.take(
                i as int,
            ));
            assert(s.recipes_versions@.take(i + 1).last() == s.recipes_versions@[i as int]);
        }
        if s.recipes_versions[i].recipe_id == recipe_id {
            let row_vid = s.recipes_versions[i].version_id;
            acc = match acc {
                None => Some(row_vid),
                Some(m) => Some(
                    if row_vid >= m {
                        row_vid
                    } else {
                        m
                    },
                ),
            };
        }
        i += 1;
    }
    proof {
        assert(s.recipes_versions@.take(n as int) =~= s.recipes_versions@);
    }
    match acc {
        None => 0,
        Some(m) => m + 1,
    }
}

/// Appending one version row and its ingredient and instruction rows to a
/// well-formed store keeps it well-formed, because the allocated
/// `version_id` is larger than every stored one of the same recipe.
proof fn lemma_version_store_wf(
    olds: Store,
    news: Store,
    recipe_id: i64,
    version_id: i64,
    created: i64,
    duration: i64,
    ing: Seq<QuantifiedIngredient>,
    ins: Seq<Instruction>,
)
    requires
        olds.wf(),
        next_id_of(max_version_id(olds.recipes_versions@, recipe_id)) < i64::MAX,
        version_id == next_id_of(max_version_id(olds.recipes_versions@, recipe_id)),
        ing.len() <= i64::MAX,
        ins.len() <= i64::MAX,
        news.recipes_versions@ == olds.recipes_versions@.push(
            VersionRow { recipe_id, version_id, created, duration },
        ),
        news.recipes_ingredients@ == olds.recipes_ingredients@ + ingredient_rows_for(
            recipe_id,
            version_id,
            ing,
        ),
        news.recipes_instructions@ == olds.recipes_instructions@ + instruction_rows_for(
            recipe_id,
            version_id,
            ins,
        ),
        news.categories == olds.categories,
        news.ingredients == olds.ingredients,
        news.recipes == olds.recipes,
    ensures
        news.wf(),
{
    let vs = olds.recipes_versions@;
    let new_vs = news.recipes_versions@;
    // The allocated version identifier is in range.
    if max_version_id(vs, recipe_id) is Some {
        lemma_max_version_id_is_some_row(vs, recipe_id);
    }
    assert(0 <= version_id < i64::MAX);
    // No stored row of any kind carries the fresh composite key.
    assert forall|t: int|
        0 <= t < vs.len() && (#[trigger] vs[t]).recipe_id == recipe_id implies vs[t].version_id
        < version_id by {
        lemma_max_version_id_ge(vs, recipe_id, t);
    }
    // Version rows of one recipe stay strictly increasing.
    assert forall|i: int, j: int|
        0 <= i < j < new_vs.len() && (#[trigger] new_vs[i]).recipe_id == (
        #[trigger] new_vs[j]).recipe_id implies new_vs[i].version_id < new_vs[j].version_id by {
        if j == vs.len() && new_vs[i].recipe_id == recipe_id {
            lemma_max_version_id_ge(vs, recipe_id, i);
        }
    }
    assert(versions_wf(new_vs));
    // No old ingredient or instruction row carries the fresh key: its
    // foreign key would point at a version row below the maximum.
    let old_ing = olds.recipes_ingredients@;
    let added_ing = ingredient_rows_for(recipe_id, version_id, ing);
    let new_ing = news.recipes_ingredients@;
    assert forall|t: int|
        0 <= t < old_ing.len() implies !((#[trigger] old_ing[t]).recipe_id == recipe_id
        && old_ing[t].version_id == version_id) by {
        if old_ing[t].recipe_id == recipe_id && old_ing[t].version_id == version_id {
            let w = choose|w: int|
                0 <= w < vs.len() && (#[trigger] vs[w]).recipe_id == old_ing[t].recipe_id
                    && vs[w].version_id == old_ing[t].version_id;
            lemma_max_version_id_ge(vs, recipe_id, w);
        }
    }
    assert forall|i: int, j: int|
        0 <= i < j < new_ing.len() && (#[trigger] new_ing[i]).recipe_id == (
        #[trigger] new_ing[j]).recipe_id && new_ing[i].version_id == new_ing[j].version_id
        implies new_ing[i].list_order < new_ing[j].list_order by {
        if i < old_ing.len() && j >= old_ing.len() {
            assert(new_ing[j] == added_ing[j - old_ing.len()]);
            assert(new_ing[j].recipe_id == recipe_id && new_ing[j].version_id == version_id);
            assert(new_ing[i] == old_ing[i]);
        } else if i >= old_ing.len() {
            assert(new_ing[i] == added_ing[i - old_ing.len()]);
            assert(new_ing[j] == added_ing[j - old_ing.len()]);
            assert(new_ing[i].list_order == i - old_ing.len());
            assert(new_ing[j].list_order == j - old_ing.len());
        } else {
            assert(new_ing[i] == old_ing[i]);
            assert(new_ing[j] == old_ing[j]);
        }
    }
    assert(version_ingredients_wf(new_ing));
    let old_ins = olds.recipes_instructions@;
    let added_ins = instruction_rows_for(recipe_id, version_id, ins);
    let new_ins = news.recipes_instructions@;
    assert forall|t: int|
        0 <= t < old_ins.len() implies !((#[trigger] old_ins[t]).recipe_id == recipe_id
        && old_ins[t].version_id == version_id) by {
        if old_ins[t].recipe_id == recipe_id && old_ins[t].version_id == version_id {
            let w = choose|w: int|
                0 <= w < vs.len() && (#[trigger] vs[w]).recipe_id == old_ins[t].recipe_id
                    && vs[w].version_id == old_ins[t].version_id;
            lemma_max_version_id_ge(vs, recipe_id, w);
        }
    }
    assert forall|i: int, j: int|
        0 <= i < j < new_ins.len() && (#[trigger] new_ins[i]).recipe_id == (
        #[trigger] new_ins[j]).recipe_id && new_ins[i].version_id == new_ins[j].version_id
        implies new_ins[i].step_number < new_ins[j].step_number by {
        if i < old_ins.len() && j >= old_ins.len() {
            assert(new_ins[j] == added_ins[j - old_ins.len()]);
            assert(new_ins[i] == old_ins[i]);
        } else if i >= old_ins.len() {
            assert(new_ins[i] == added_ins[i - old_ins.len()]);
            assert(new_ins[j] == added_ins[j - old_ins.len()]);
            assert(new_ins[i].step_number == i - old_ins.len());
            assert(new_ins[j].step_number == j - old_ins.len());
        } else {
            assert(new_ins[i] == old_ins[i]);
            assert(new_ins[j] == old_ins[j]);
        }
    }
    assert(instructions_wf(new_ins));
    // Both foreign keys keep a witness: old rows point at their old version
    // row (still there after the push), new rows at the fresh one.
    assert forall|t: int| 0 <= t < new_ing.len() implies version_key_exists(
        new_vs,
        (#[trigger] new_ing[t]).recipe_id,
        new_ing[t].version_id,
    ) by {
        if t < old_ing.len() {
            assert(new_ing[t] == old_ing[t]);
            assert(version_key_exists(vs, old_ing[t].recipe_id, old_ing[t].version_id));
            let w = choose|w: int|
                0 <= w < vs.len() && (#[trigger] vs[w]).recipe_id == old_ing[t].recipe_id
                    && vs[w].version_id == old_ing[t].version_id;
            assert(new_vs[w] == vs[w]);
        } else {
            assert(new_ing[t] == added_ing[t - old_ing.len()]);
            assert(new_vs[vs.len() as int].recipe_id == recipe_id);
            assert(new_vs[vs.len() as int].version_id == version_id);
        }
    }
    assert(ingredient_rows_reference_versions(new_ing, new_vs));
    assert forall|t: int| 0 <= t < new_ins.len() implies version_key_exists(
        new_vs,
        (#[trigger] new_ins[t]).recipe_id,
        new_ins[t].version_id,
    ) by {
        if t < old_ins.len() {
            assert(new_ins[t] == old_ins[t]);
            assert(version_key_exists(vs, old_ins[t].recipe_id, old_ins[t].version_id));
            let w = choose|w: int|
                0 <= w < vs.len() && (#[trigger] vs[w]).recipe_id == old_ins[t].recipe_id
                    && vs[w].version_id == old_ins[t].version_id;
            assert(new_vs[w] == vs[w]);
        } else {
            assert(new_ins[t] == added_ins[t - old_ins.len()]);
            assert(new_vs[vs.len() as int].recipe_id == recipe_id);
            assert(new_vs[vs.len() as int].version_id == version_id);
        }
    }
    assert(instruction_rows_reference_versions(new_ins, new_vs));
}

impl RecipeVersion {
    /// Stores a new version of a visible recipe and returns its composite
    /// key.  Version identifiers are sequential per recipe, starting at 0.
    /// A `recipe_id` that does not refer to a visible recipe fails with
    /// `InvalidReference` and leaves the store unchanged.
    pub fn store_new(
        s: &mut Store,
        recipe_id: i64,
        created: i64,
        ingredients: Vec<QuantifiedIngredient>,
        instructions: Vec<Instruction>,
        duration: i64,
    ) -> (r: Result<RecipeVersionID, Error>)
        requires
            old(s).wf(),
            next_id_of(max_version_id(old(s).recipes_versions@, recipe_id)) < i64::MAX,
            ingredients@.len() <= i64::MAX,
            instructions@.len() <= i64::MAX,
        ensures
            final(s).wf(),
            !recipe_visible(*old(s), recipe_id) ==> r == Err::<RecipeVersionID, Error>(
                Error::InvalidReference,
            ) && *final(s) == *old(s),
            recipe_visible(*old(s), recipe_id) ==> ({
                let version_id = next_id_of(
                    max_version_id(old(s).recipes_versions@, recipe_id),
                ) as i64;
                &&& r == Ok::<RecipeVersionID, Error>(RecipeVersionID { recipe_id, version_id })
                &&& final(s).recipes_versions@ == old(s).recipes_versions@.push(
                    VersionRow { recipe_id, version_id, created, duration },
                )
                &&& final(s).recipes_ingredients@ == old(s).recipes_ingredients@
                    + ingredient_rows_for(recipe_id, version_id, ingredients@)
                &&& final(s).recipes_instructions@ == old(s).recipes_instructions@
                    + instruction_rows_for(recipe_id, version_id, instructions@)
                &&& final(s).categories == old(s).categories
                &&& final(s).ingredients == old(s).ingredients
                &&& final(s).recipes == old(s).recipes
                &&& final(s).recipes_categories == old(s).recipes_categories
            }),
    {
        if let Err(e) = ensure_recipe_visible(s, recipe_id) {
            return Err(e);
        }
        let version_id = next_version_id(s, recipe_id);
        s.recipes_versions.push(VersionRow { recipe_id, version_id, created, duration });
        let n_ing = ingredients.len();
        let mut k: usize = 0;
        while k < n_ing
            invariant
                k <= n_ing,
                n_ing == ingredients@.len(),
                ingredients@.len() <= i64::MAX,
                s.recipes_ingredients@ == old(s).recipes_ingredients@ + ingredient_rows_for(
                    recipe_id,
                    version_id,
                    ingredients@.take(k as int),
                ),
                s.recipes_versions@ == old(s).recipes_versions@.push(
                    VersionRow { recipe_id, version_id, created, duration },
                ),
                s.categories == old(s).categories,
                s.ingredients == old(s).ingredients,
                s.recipes == old(s).recipes,
                s.recipes_categories == old(s).recipes_categories,
                s.recipes_instructions == old(s).recipes_instructions,
            decreases n_ing - k,
        {
            let row = VersionIngredientRow {
                recipe_id,
                version_id,
                ingredient_id: ingredients[k].ingredient.id,
                list_order: k as i64,
                quantity: ingredients[k].quantity,
                measurement: ingredients[k].measurement.code(),
            };
            let ghost before = s.recipes_ingredients@;
            s.recipes_ingredients.push(row);
            proof {
                assert(ingredient_rows_for(recipe_id, version_id, ingredients@.take(k + 1))
                    =~= ingredient_rows_for(
                    recipe_id,
                    version_id,
                    ingredients@.take(k as int),
                ).push(row));
                assert(before.push(row) =~= old(s).recipes_ingredients@ + ingredient_rows_for(
                    recipe_id,
                    version_id,
                    ingredients@.take(k + 1),
                ));
            }
            k += 1;
        }
        proof {
            assert(ingredients@.take(n_ing as int) =~= ingredients@);
        }
        let n_ins = instructions.len();
        let mut k: usize = 0;
        while k < n_ins
            invariant
                k <= n_ins,
                n_ins == instructions@.len(),
                instructions@.len() <= i64::MAX,
                s.recipes_instructions@ == old(s).recipes_instructions@ + instruction_rows_for(
                    recipe_id,
                    version_id,
                    instructions@.take(k as int),
                ),
                s.recipes_ingredients@ == old(s).recipes_ingredients@ + ingredient_rows_for(
                    recipe_id,
                    version_id,
                    ingredients@,
                ),
                s.recipes_versions@ == old(s).recipes_versions@.push(
                    VersionRow { recipe_id, version_id, created, duration },
                ),
                s.categories == old(s).categories,
                s.ingredients == old(s).ingredients,
                s.recipes == old(s).recipes,
                s.recipes_categories == old(s).recipes_categories,
            decreases n_ins - k,
        {
            let row = InstructionRow {
                recipe_id,
                version_id,
                step_number: k as i64,
                step_text: instructions[k].text.clone(),
            };
            let ghost before = s.recipes_instructions@;
            s.recipes_instructions.push(row);
            proof {
                assert(instruction_rows_for(recipe_id, version_id, instructions@.take(k + 1))
                    =~= instruction_rows_for(
                    recipe_id,
                    version_id,
                    instructions@.take(k as int),
                ).push(row));
                assert(before.push(row) =~= old(s).recipes_instructions@ + instruction_rows_for(
                    recipe_id,
                    version_id,
                    instructions@.take(k + 1),
                ));
            }
            k += 1;
        }
        proof {
            assert(instructions@.take(n_ins as int) =~= instructions@);
            lemma_version_store_wf(
                *old(s),
                *s,
                recipe_id,
                version_id,
                created,
                duration,
                ingredients@,
                instructions@,
            );
        }
        Ok(RecipeVersionID { recipe_id, version_id })
    }

    /// What resolving this version's references yields: each ingredient
    /// reference resolved, one level deep; instructions own no references.
    pub open spec fn fill_view(v: RecipeVersionV, s: Store) -> Result<RecipeVersionV, Error> {
        match fill_qi_list(v.ingredients, s) {
            Ok(items) => Ok(
                RecipeVersionV {
                    id: v.id,
                    created: v.created,
                    ingredients: items,
                    instructions: v.instructions,
                    duration: v.duration,
                },
            ),
            Err(e) => Err(e),
        }
    }
}

impl Model for RecipeVersion {
    type ID = RecipeVersionID;

    /// A read of one version: the owning recipe must be visible (else
    /// `InvalidReference`); the version row must exist (else `NotFound`);
    /// the stored timestamp must be representable (else `Internal`);
    /// ingredients come in `list_order`, instructions in `step_number`
    /// order, and an unrecognized measurement code decodes to `Count`.
    open spec fn get_spec(s: Store, id: RecipeVersionID) -> Result<RecipeVersionV, Error> {
        if !recipe_visible(s, id.recipe_id) {
            Err(Error::InvalidReference)
        } else {
            match first_where(s.recipes_versions@, version_has_key(id.recipe_id, id.version_id)) {
                None => Err(Error::NotFound),
                Some(row) => if !timestamp_representable(row.created) {
                    Err(Error::Internal)
                } else {
                    Ok(
                        RecipeVersionV {
                            id: id.version_id,
                            created: row.created,
                            ingredients: stored_ingredients_view(s, id.recipe_id, id.version_id),
                            instructions: stored_instructions_view(s, id.recipe_id, id.version_id),
                            duration: row.duration,
                        },
                    )
                },
            }
        }
    }

    open spec fn fill_spec(v: RecipeVersionV, s: Store) -> Result<RecipeVersionV, Error> {
        RecipeVersion::fill_view(v, s)
    }

    fn get(s: &Store, id: RecipeVersionID) -> (r: Result<RecipeVersion, Error>) {
        if let Err(e) = ensure_recipe_visible(s, id.recipe_id) {
            return Err(e);
        }
        let row_index = match find_version_row(s, id.recipe_id, id.version_id) {
            Some(i) => i,
            None => {
                return Err(Error::NotFound);
            },
        };
        let created = match datetime_from_timestamp(s.recipes_versions[row_index].created) {
            Some(c) => c,
            None => {
                return Err(Error::Internal);
            },
        };
        let duration = s.recipes_versions[row_index].duration;
        let ingredients = collect_ingredients(s, id.recipe_id, id.version_id);
        let instructions = collect_instructions(s, id.recipe_id, id.version_id);
        Ok(RecipeVersion { id: id.version_id, created, ingredients, instructions, duration })
    }

    fn fill_refs(&mut self, s: &Store) -> (r: Result<(), Error>) {
        let n = self.ingredients.len();
        let mut k: usize = 0;
        while k < n
            invariant
                k <= n,
                n == self.ingredients@.len(),
                n == old(self).ingredients@.len(),
                s.wf(),
                self.id == old(self).id,
                self.created == old(self).created,
                self.duration == old(self).duration,
                self.instructions == old(self).instructions,
                forall|j: int| k <= j < n ==> self.ingredients@[j] == old(self).ingredients@[j],
                forall|j: int|
                    0 <= j < k ==> {
                        &&& ref_fill_spec::<Ingredient>(
                            (#[trigger] old(self).ingredients@[j])@.ingredient,
                            *s,
                        ) == Ok::<RefV<i64, IngredientV>, Error>(
                            (self.ingredients@[j])@.ingredient,
                        )
                        &&& self.ingredients@[j].quantity == old(self).ingredients@[j].quantity
                        &&& self.ingredients@[j].measurement == old(
                            self,
                        ).ingredients@[j].measurement
                    },
            decreases n - k,
        {
            let result = self.ingredients[k].ingredient.fill(s);
            if let Err(e) = result {
                proof {
                    let items = qi_views(old(self).ingredients@);
                    assert forall|j: int| 0 <= j < k implies ref_fill_spec::<Ingredient>(
                        (#[trigger] items[j]).ingredient,
                        *s,
                    ) is Ok by {
                        assert(items[j] == (old(self).ingredients@[j])@);
                        assert(ref_fill_spec::<Ingredient>(
                            (old(self).ingredients@[j])@.ingredient,
                            *s,
                        ) is Ok);
                    }
                    assert(items[k as int] == (old(self).ingredients@[k as int])@);
                    lemma_fill_qi_list_err(items, *s, k as int, e);
                }
                return Err(e);
            }
            k += 1;
        }
        proof {
            let items = qi_views(old(self).ingredients@);
            let out = qi_views(self.ingredients@);
            assert forall|j: int| 0 <= j < items.len() implies {
                &&& ref_fill_spec::<Ingredient>((#[trigger] items[j]).ingredient, *s) == Ok::<
                    RefV<i64, IngredientV>,
                    Error,
                >((#[trigger] out[j]).ingredient)
                &&& out[j].quantity == items[j].quantity
                &&& out[j].measurement == items[j].measurement
            } by {
                assert(items[j] == (old(self).ingredients@[j])@);
                assert(out[j] == (self.ingredients@[j])@);
            }
            lemma_fill_qi_list_ok(items, *s, out);
        }
        Ok(())
    }
}

} // verus!
