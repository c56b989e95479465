//! The listing operations behind the read endpoints, the request filter,
//! and the mapping of store errors to transport status codes.

use vstd::prelude::*;
use vstd::string::*;

use crate::error::Error;
use crate::models::category::{Category, CategoryV};
use crate::models::ingredient::{Ingredient, IngredientV};
use crate::models::model::{get_filled_spec, Model};
use crate::models::recipe::version_of_recipe;
use crate::models::recipeversion::{ensure_recipe_visible, RecipeVersion, RecipeVersionID,
    RecipeVersionV};
use crate::store::{recipe_visible, CategoryRow, IngredientRow, Store, VersionRow};
use crate::text::{dec_str, push_dec_u64};

verus! {

/// The maximum number of results to retrieve per listing request.
///
/// This limit only applies to single requests. It may be exceeded across
/// multiple requests using pagination.
pub const LISTING_LIMIT: usize = 1024;

/// The default number of results to retrieve per page in a listing request.
///
/// This can be overriden on certain endpoints, but the page size cannot
/// exceed `LISTING_LIMIT`.
pub const DEFAULT_PAGE_SIZE: u64 = 100;

/// The default limit of a recipe filter.
pub fn default_filter_limit() -> (v: u64)
    ensures
        v == DEFAULT_PAGE_SIZE,
{
    DEFAULT_PAGE_SIZE
}

/// A filter to determine which recipes to list.
///
/// The `text` filters results to only recipes containing certain keywords.
pub struct RecipeFilter {
    pub text: Option<String>,
    pub limit: u64,
}

impl RecipeFilter {
    /// The text that `summary` renders.
    pub open spec fn summary_spec(self) -> Seq<char> {
        match self.text {
            Some(text) => "Recipes matching \""@ + text@ + "\" with limit "@ + dec_str(
                self.limit as nat,
            ),
            None => "All recipes with limit "@ + dec_str(self.limit as nat),
        }
    }

    /// Renders the filter as a human-readable line.
    pub fn summary(&self) -> (s: String)
        ensures
            s@ == self.summary_spec(),
    {
        match &self.text {
            Some(text) => {
                let mut s = String::from_str("Recipes matching \"");
                s.append(text.as_str());
                s.append("\" with limit ");
                push_dec_u64(&mut s, self.limit);
                proof {
                    assert(s@ =~= self.summary_spec());
                }
                s
            },
            None => {
                let mut s = String::from_str("All recipes with limit ");
                push_dec_u64(&mut s, self.limit);
                proof {
                    assert(s@ =~= self.summary_spec());
                }
                s
            },
        }
    }
}

/// Represents an error that can be converted into a transport response:
/// a status code and a message.
pub struct ApiError {
    pub status_code: u16,
    pub message: String,
}

impl ApiError {
    /// Creates an API error from a store error.
    ///
    /// `NotFound` errors are converted into 404 errors, invalid references
    /// into 400 errors.  All other errors are converted into 500 errors.
    pub fn from_db(error: &Error) -> (r: ApiError)
        ensures
            r.status_code == (match error {
                Error::NotFound => 404u16,
                Error::InvalidReference => 400u16,
                _ => 500u16,
            }),
            r.message@ == (match error {
                Error::NotFound => "Resource not found"@,
                Error::InvalidReference => "Bad arguments: invalid reference"@,
                _ => "Internal database error"@,
            }),
    {
        match error {
            Error::NotFound => ApiError {
                status_code: 404,
                message: String::from_str("Resource not found"),
            },
            Error::InvalidReference => ApiError {
                status_code: 400,
                message: String::from_str("Bad arguments: invalid reference"),
            },
            _ => ApiError {
                status_code: 500,
                message: String::from_str("Internal database error"),
            },
        }
    }
}

/// The views of a list of categories.
pub open spec fn category_views(items: Seq<Category>) -> Seq<CategoryV> {
    items.map_values(|c: Category| c.view())
}

/// The views of a list of ingredients.
pub open spec fn ingredient_views(items: Seq<Ingredient>) -> Seq<IngredientV> {
    items.map_values(|item: Ingredient| item.view())
}

/// What listing categories yields: the first `limit` rows, in identifier
/// order.
pub open spec fn list_categories_spec(s: Store, limit: int) -> Seq<CategoryV> {
    s.categories@.take(if limit <= s.categories@.len() {
        limit
    } else {
        s.categories@.len() as int
    }).map_values(|row: CategoryRow| CategoryV { id: row.id, name: row.name@ })
}

/// Lists the categories that a recipe can be contained in, in identifier
/// order, at most `limit` of them.
pub fn list_categories(s: &Store, limit: usize) -> (out: Vec<Category>)
    ensures
        category_views(out@) == list_categories_spec(*s, limit as int),
{
    let n = s.categories.len();
    let upto = if limit <= n {
        limit
    } else {
        n
    };
    let mut out: Vec<Category> = Vec::new();
    let mut i: usize = 0;
    proof {
        assert(category_views(out@) =~= s.categories@.take(0).map_values(
            |row: CategoryRow| CategoryV { id: row.id, name: row.name@ },
        ));
    }
    while i < upto
        invariant
            i <= upto,
            upto <= n,
            n == s.categories@.len(),
            category_views(out@) == s.categories@.take(i as int).map_values(
                |row: CategoryRow| CategoryV { id: row.id, name: row.name@ },
            ),
        decreases upto - i,
    {
        let item = Category { id: s.categories[i].id, name: s.categories[i].name.clone() };
        let ghost out_before = out@;
        out.push(item);
        proof {
            s.categories@.lemma_take_succ_push(i as int);
            assert(category_views(out_before.push(item)) =~= category_views(out_before).push(
                item@,
            ));
            assert(s.categories@.take(i as int).push(s.categories@[i as int]).map_values(
                |row: CategoryRow| CategoryV { id: row.id, name: row.name@ },
            ) =~= s.categories@.take(i as int).map_values(
                |row: CategoryRow| CategoryV { id: row.id, name: row.name@ },
            ).push(item@));
        }
        i += 1;
    }
    out
}

/// What listing ingredients yields: the first `limit` rows, in identifier
/// order.
pub open spec fn list_ingredients_spec(s: Store, limit: int) -> Seq<IngredientV> {
    s.ingredients@.take(if limit <= s.ingredients@.len() {
        limit
    } else {
        s.ingredients@.len() as int
    }).map_values(
        |row: IngredientRow|
            IngredientV { id: row.id, name: row.name@, energy_density: row.energy_density },
    )
}

/// Lists the ingredients that are in the store, in identifier order, at
/// most `limit` of them.
pub fn list_ingredients(s: &Store, limit: usize) -> (out: Vec<Ingredient>)
    ensures
        ingredient_views(out@) == list_ingredients_spec(*s, limit as int),
{
    let n = s.ingredients.len();
    let upto = if limit <= n {
        limit
    } else {
        n
    };
    let mut out: Vec<Ingredient> = Vec::new();
    let mut i: usize = 0;
    proof {
        assert(ingredient_views(out@) =~= s.ingredients@.take(0).map_values(
            |row: IngredientRow|
                IngredientV { id: row.id, name: row.name@, energy_density: row.energy_density },
        ));
    }
    while i < upto
        invariant
            i <= upto,
            upto <= n,
            n == s.ingredients@.len(),
            ingredient_views(out@) == s.ingredients@.take(i as int).map_values(
                |row: IngredientRow|
                    IngredientV {
                        id: row.id,
                        name: row.name@,
                        energy_density: row.energy_density,
                    },
            ),
        decreases upto - i,
    {
        let item = Ingredient {
            id: s.ingredients[i].id,
            name: s.ingredients[i].name.clone(),
            energy_density: s.ingredients[i].energy_density,
        };
        let ghost out_before = out@;
        out.push(item);
        proof {
            s.ingredients@.lemma_take_succ_push(i as int);
            assert(ingredient_views(out_before.push(item)) =~= ingredient_views(out_before).push(
                item@,
            ));
            assert(s.ingredients@.take(i as int).push(s.ingredients@[i as int]).map_values(
                |row: IngredientRow|
                    IngredientV {
                        id: row.id,
                        name: row.name@,
                        energy_density: row.energy_density,
                    },
            ) =~= s.ingredients@.take(i as int).map_values(
                |row: IngredientRow|
                    IngredientV {
                        id: row.id,
                        name: row.name@,
                        energy_density: row.energy_density,
                    },
            ).push(item@));
        }
        i += 1;
    }
    out
}

/// The version identifiers of one recipe, in `version_id` order, at most
/// `limit` of them.
pub open spec fn limited_version_ids(rows: Seq<VersionRow>, recipe_id: i64, limit: int) -> Seq<
    i64,
> {
    let all = rows.filter(version_of_recipe(recipe_id)).map_values(
        |row: VersionRow| row.version_id,
    );
    all.take(
        if limit <= all.len() {
            limit
        } else {
            all.len() as int
        },
    )
}

/// What reading these versions one after another yields: each fetched and
/// resolved, stopping at the first failure.
pub open spec fn filled_versions_list(vids: Seq<i64>, recipe_id: i64, s: Store) -> Result<
    Seq<RecipeVersionV>,
    Error,
>
    decreases vids.len(),
{
    if vids.len() == 0 {
        Ok(Seq::empty())
    } else {
        match get_filled_spec::<RecipeVersion>(
            s,
            RecipeVersionID { recipe_id, version_id: vids[0] },
        ) {
            Ok(v) => match filled_versions_list(vids.drop_first(), recipe_id, s) {
                Ok(rest) => Ok(seq![v] + rest),
                Err(e) => Err(e),
            },
            Err(e) => Err(e),
        }
    }
}

/// What listing the versions of one recipe yields: `InvalidReference` for
/// an invisible recipe, otherwise its versions in `version_id` order, at
/// most `limit` of them, each fetched and resolved one level deep.
pub open spec fn list_versions_spec(s: Store, recipe_id: i64, limit: int) -> Result<
    Seq<RecipeVersionV>,
    Error,
> {
    if !recipe_visible(s, recipe_id) {
        Err(Error::InvalidReference)
    } else {
        filled_versions_list(limited_version_ids(s.recipes_versions@, recipe_id, limit), recipe_id, s)
    }
}

/// The views of a list of recipe versions.
pub open spec fn version_views(items: Seq<RecipeVersion>) -> Seq<RecipeVersionV> {
    items.map_values(|v: RecipeVersion| v.view())
}

/// A list of versions that each fetch and resolve is read pointwise.
proof fn lemma_filled_versions_ok(vids: Seq<i64>, recipe_id: i64, s: Store, out: Seq<
    RecipeVersionV,
>)
    requires
        vids.len() == out.len(),
        forall|j: int|
            0 <= j < vids.len() ==> get_filled_spec::<RecipeVersion>(
                s,
                RecipeVersionID { recipe_id, version_id: #[trigger] vids[j] },
            ) == Ok::<RecipeVersionV, Error>(#[trigger] out[j]),
    ensures
        filled_versions_list(vids, recipe_id, s) == Ok::<Seq<RecipeVersionV>, Error>(out),
    decreases vids.len(),
{
    if vids.len() == 0 {
        assert(out =~= Seq::<RecipeVersionV>::empty());
    } else {
        assert forall|j: int| 0 <= j < vids.drop_first().len() implies get_filled_spec::<
            RecipeVersion,
        >(s, RecipeVersionID { recipe_id, version_id: #[trigger] vids.drop_first()[j] }) == Ok::<
            RecipeVersionV,
            Error,
        >(#[trigger] out.drop_first()[j]) by {
            assert(vids.drop_first()[j] == vids[j + 1]);
            assert(out.drop_first()[j] == out[j + 1]);
        }
        lemma_filled_versions_ok(vids.drop_first(), recipe_id, s, out.drop_first());
        assert(seq![out[0]] + out.drop_first() =~= out);
    }
}

/// A list of versions whose first failing read fails with `e` reads as `e`.
proof fn lemma_filled_versions_err(vids: Seq<i64>, recipe_id: i64, s: Store, k: int, e: Error)
    requires
        0 <= k < vids.len(),
        forall|j: int|
            0 <= j < k ==> get_filled_spec::<RecipeVersion>(
                s,
                RecipeVersionID { recipe_id, version_id: #[trigger] vids[j] },
            ) is Ok,
        get_filled_spec::<RecipeVersion>(
            s,
            RecipeVersionID { recipe_id, version_id: vids[k] },
        ) == Err::<RecipeVersionV, Error>(e),
    ensures
        filled_versions_list(vids, recipe_id, s) == Err::<Seq<RecipeVersionV>, Error>(e),
    decreases vids.len(),
{
    if k > 0 {
        assert forall|j: int| 0 <= j < k - 1 implies get_filled_spec::<RecipeVersion>(
            s,
            RecipeVersionID { recipe_id, version_id: #[trigger] vids.drop_first()[j] },
        ) is Ok by {
            assert(vids.drop_first()[j] == vids[j + 1]);
        }
        assert(vids.drop_first()[k - 1] == vids[k]);
        lemma_filled_versions_err(vids.drop_first(), recipe_id, s, k - 1, e);
    }
}

/// Collects the version identifiers of one recipe, in `version_id` order,
/// at most `limit` of them.
fn collect_limited_version_ids(s: &Store, recipe_id: i64, limit: usize) -> (out: Vec<i64>)
    ensures
        out@ == limited_version_ids(s.recipes_versions@, recipe_id, limit as int),
{
    let n = s.recipes_versions.len();
    let mut out: Vec<i64> = Vec::new();
    let mut i: usize = 0;
    proof {
        assert(s.recipes_versions@.take(0) =~= Seq::<VersionRow>::empty());
        assert(out@ =~= limited_version_ids(s.recipes_versions@.take(0), recipe_id, limit as int));
    }
    while i < n
        invariant
            i <= n,
            n == s.recipes_versions@.len(),
            out@ == limited_version_ids(s.recipes_versions@.take(i as int), recipe_id, limit as int),
            out@.len() <= limit,
        decreases n - i,
    {
        proof {
            let rows = s.recipes_versions@;
            rows.lemma_take_succ_push(i as int);
            rows.take(i as int).lemma_filter_push(rows[i as int], version_of_recipe(recipe_id));
        }
        if s.recipes_versions[i].recipe_id == recipe_id && out.len() < limit {
            let ghost out_before = out@;
            out.push(s.recipes_versions[i].version_id);
            proof {
                let rows = s.recipes_versions@;
                let vid = rows[i as int].version_id;
                let all_before = rows.take(i as int).filter(
                    version_of_recipe(recipe_id),
                ).map_values(|row: VersionRow| row.version_id);
                let all_after = rows.take(i + 1).filter(version_of_recipe(recipe_id)).map_values(
                    |row: VersionRow| row.version_id,
                );
                assert(all_after =~= all_before.push(vid));
                assert(all_before.len() == out_before.len());
                assert(out_before.push(vid) =~= limited_version_ids(
                    rows.take(i + 1),
                    recipe_id,
                    limit as int,
                ));
            }
        } else {
            proof {
                let rows = s.recipes_versions@;
                let all_before = rows.take(i as int).filter(
                    version_of_recipe(recipe_id),
                ).map_values(|row: VersionRow| row.version_id);
                let all_after = rows.take(i + 1).filter(version_of_recipe(recipe_id)).map_values(
                    |row: VersionRow| row.version_id,
                );
                if rows[i as int].recipe_id == recipe_id {
                    assert(all_after =~= all_before.push(rows[i as int].version_id));
                    assert(all_before.len() >= limit);
                    assert(out@ =~= limited_version_ids(
                        rows.take(i + 1),
                        recipe_id,
                        limit as int,
                    ));
                } else {
                    assert(all_after =~= all_before);
                    assert(out@ =~= limited_version_ids(
                        rows.take(i + 1),
                        recipe_id,
                        limit as int,
                    ));
                }
            }
        }
        i += 1;
    }
    proof {
        assert(s.recipes_versions@.take(n as int) =~= s.recipes_versions@);
    }
    out
}

/// Lists all versions of the recipe with the id `recipe_id`, each fetched
/// and resolved one level deep, in `version_id` order, at most `limit` of
/// them.
///
/// Returns `InvalidReference` if `recipe_id` does not refer to a visible
/// recipe.
pub fn list_versions(s: &Store, recipe_id: i64, limit: usize) -> (r: Result<
    Vec<RecipeVersion>,
    Error,
>)
    requires
        s.wf(),
    ensures
        match list_versions_spec(*s, recipe_id, limit as int) {
            Ok(views) => r matches Ok(versions) && version_views(versions@) == views,
            Err(e) => r matches Err(actual) && actual == e,
        },
{
    if let Err(e) = ensure_recipe_visible(s, recipe_id) {
        return Err(e);
    }
    let ids = collect_limited_version_ids(s, recipe_id, limit);
    let n = ids.len();
    let mut out: Vec<RecipeVersion> = Vec::new();
    let mut k: usize = 0;
    while k < n
        invariant
            k <= n,
            n == ids@.len(),
            s.wf(),
            recipe_visible(*s, recipe_id),
            ids@ == limited_version_ids(s.recipes_versions@, recipe_id, limit as int),
            out@.len() == k,
            forall|j: int|
                0 <= j < k ==> get_filled_spec::<RecipeVersion>(
                    *s,
                    RecipeVersionID { recipe_id, version_id: #[trigger] ids@[j] },
                ) == Ok::<RecipeVersionV, Error>((out@[j])@),
        decreases n - k,
    {
        let id = RecipeVersionID { recipe_id, version_id: ids[k] };
        match RecipeVersion::get_filled(s, id) {
            Ok(version) => {
                out.push(version);
            },
            Err(e) => {
                proof {
                    lemma_filled_versions_err(ids@, recipe_id, *s, k as int, e);
                }
                return Err(e);
            },
        }
        k += 1;
    }
    proof {
        assert forall|j: int| 0 <= j < ids@.len() implies get_filled_spec::<RecipeVersion>(
            *s,
            RecipeVersionID { recipe_id, version_id: #[trigger] ids@[j] },
        ) == Ok::<RecipeVersionV, Error>(#[trigger] version_views(out@)[j]) by {
            assert(version_views(out@)[j] == (out@[j])@);
        }
        lemma_filled_versions_ok(ids@, recipe_id, *s, version_views(out@));
    }
    Ok(out)
}

} // verus!
