//! Recipes for making something edible.  A recipe may have multiple
//! revisions and belongs to any number of categories.

use vstd::prelude::*;

use crate::error::Error;
use crate::models::category::{Category, CategoryV};
use crate::models::model::Model;
use crate::models::modelref::{ref_fill_spec, Ref, RefV};
use crate::models::recipeversion::{RecipeVersion, RecipeVersionID, RecipeVersionV};
use crate::store::{
    category_exists, first_where, lemma_first_where_found, lemma_first_where_skip_all,
    lemma_first_where_step, lemma_max_recipe_id_ge, max_recipe_id, next_id_of, RecipeCategoryRow,
    RecipeRow, Store, VersionRow,
};

verus! {

/// Represents a recipe for making something edible.
///
/// The recipe may have multiple revisions.
pub struct Recipe {
    /// The recipe's internal ID.
    pub id: i64,

    /// The human-readable name of the recipe.
    pub name: String,

    /// A map from (revision number) to (recipe revision), held as pairs
    /// with unique keys in increasing revision order.
    pub versions: Vec<(i64, Ref<RecipeVersion>)>,

    /// A list of all the categories that this recipe is a part of.
    pub categories: Vec<Ref<Category>>,
}

/// The mathematical view of a recipe.
pub struct RecipeV {
    pub id: i64,
    pub name: Seq<char>,
    pub versions: Seq<(i64, RefV<RecipeVersionID, RecipeVersionV>)>,
    pub categories: Seq<RefV<i64, CategoryV>>,
}

/// The views of a recipe's version map entries.
pub open spec fn version_entry_views(items: Seq<(i64, Ref<RecipeVersion>)>) -> Seq<
    (i64, RefV<RecipeVersionID, RecipeVersionV>),
> {
    items.map_values(|entry: (i64, Ref<RecipeVersion>)| (entry.0, entry.1@))
}

/// The views of a recipe's category references.
pub open spec fn category_ref_views(items: Seq<Ref<Category>>) -> Seq<RefV<i64, CategoryV>> {
    items.map_values(|r: Ref<Category>| r@)
}

impl View for Recipe {
    type V = RecipeV;

    open spec fn view(&self) -> RecipeV {
        RecipeV {
            id: self.id,
            name: self.name@,
            versions: version_entry_views(self.versions@),
            categories: category_ref_views(self.categories@),
        }
    }
}

/// Selects the visible `recipes` row of one identifier: a hidden recipe is
/// invisible to every read.
pub open spec fn recipe_visible_with_id(id: i64) -> spec_fn(RecipeRow) -> bool {
    |row: RecipeRow| row.id == id && !row.hidden
}

/// Selects rows of the `recipes_versions` table by owning recipe.
pub open spec fn version_of_recipe(recipe_id: i64) -> spec_fn(VersionRow) -> bool {
    |row: VersionRow| row.recipe_id == recipe_id
}

/// Selects rows of the `recipes_categories` table by recipe.
pub open spec fn membership_of_recipe(recipe_id: i64) -> spec_fn(RecipeCategoryRow) -> bool {
    |row: RecipeCategoryRow| row.recipe_id == recipe_id
}

/// The version map a read of one recipe yields: each stored version of the
/// recipe, in `version_id` order, as an identifier-only reference keyed by
/// its revision number.
pub open spec fn version_entries_of(rows: Seq<VersionRow>, recipe_id: i64) -> Seq<
    (i64, RefV<RecipeVersionID, RecipeVersionV>),
> {
    rows.filter(version_of_recipe(recipe_id)).map_values(
        |row: VersionRow|
            (
                row.version_id,
                RefV::<RecipeVersionID, RecipeVersionV>::unresolved(
                    RecipeVersionID { recipe_id, version_id: row.version_id },
                ),
            ),
    )
}

/// The category references a read of one recipe yields, in table order.
pub open spec fn category_refs_of(rows: Seq<RecipeCategoryRow>, recipe_id: i64) -> Seq<
    RefV<i64, CategoryV>,
> {
    rows.filter(membership_of_recipe(recipe_id)).map_values(
        |row: RecipeCategoryRow| RefV::<i64, CategoryV>::unresolved(row.category_id),
    )
}

/// Every supplied category refers to an existing `categories` row: what
/// recipe creation validates.
pub open spec fn all_categories_exist(s: Store, categories: Seq<Category>) -> bool {
    forall|k: int| 0 <= k < categories.len() ==> category_exists(s, (#[trigger] categories[k]).id)
}

/// The `recipes_categories` rows that attaching these categories to one
/// recipe writes: one membership row per category, in order.
pub open spec fn membership_rows_for(recipe_id: i64, categories: Seq<Category>) -> Seq<
    RecipeCategoryRow,
> {
    Seq::new(
        categories.len(),
        |k: int| RecipeCategoryRow { recipe_id, category_id: categories[k].id },
    )
}

/// Whether a `categories` row with this identifier exists.
fn category_exists_exec(s: &Store, category_id: i64) -> (b: bool)
    ensures
        b == category_exists(*s, category_id),
{
    let n = s.categories.len();
    let mut i: usize = 0;
    while i < n
        invariant
            i <= n,
            n == s.categories@.len(),
            forall|k: int| 0 <= k < i ==> (#[trigger] s.categories@[k]).id != category_id,
        decreases n - i,
    {
        if s.categories[i].id == category_id {
            return true;
        }
        i += 1;
    }
    false
}

/// Computes the identifier the allocator hands to the next recipe: the
/// maximum existing identifier plus one, or 0 for an empty table.  Hidden
/// recipes count: allocation sees them.
fn next_recipe_id(s: &Store) -> (id: i64)
    requires
        next_id_of(max_recipe_id(s.recipes@)) < i64::MAX,
    ensures
        id == next_id_of(max_recipe_id(s.recipes@)),
{
    let n = s.recipes.len();
    let mut acc: Option<i64> = None;
    let mut i: usize = 0;
    while i < n
        invariant
            i <= n,
            n == s.recipes@.len(),
            acc == max_recipe_id(s.recipes@.take(i as int)),
        decreases n - i,
    {
        proof {
            assert(s.recipes@.take(i + 1).drop_last() =~= s.recipes@.take(i as int));
            assert(s.recipes@.take(i + 1).last() == s.recipes@[i as int]);
        }
        let row_id = s.recipes[i].id;
        acc = match acc {
            None => Some(row_id),
            Some(m) => Some(
                if row_id >= m {
                    row_id
                } else {
                    m
                },
            ),
        };
        i += 1;
    }
    proof {
        assert(s.recipes@.take(n as int) =~= s.recipes@);
    }
    match acc {
        None => 0,
        Some(m) => m + 1,
    }
}

/// Collects the stored versions of one recipe, in table (that is,
/// `version_id`) order, as identifier-only references keyed by revision.
fn collect_version_entries(s: &Store, recipe_id: i64) -> (out: Vec<(i64, Ref<RecipeVersion>)>)
    ensures
        version_entry_views(out@) == version_entries_of(s.recipes_versions@, recipe_id),
{
    let n = s.recipes_versions.len();
    let mut out: Vec<(i64, Ref<RecipeVersion>)> = Vec::new();
    let mut i: usize = 0;
    proof {
        assert(s.recipes_versions@.take(0) =~= Seq::<VersionRow>::empty());
        assert(version_entry_views(out@) =~= version_entries_of(
            s.recipes_versions@.take(0),
            recipe_id,
        ));
    }
    while i < n
        invariant
            i <= n,
            n == s.recipes_versions@.len(),
            version_entry_views(out@) == version_entries_of(
                s.recipes_versions@.take(i as int),
                recipe_id,
            ),
        decreases n - i,
    {
        proof {
            let rows = s.recipes_versions@;
            rows.lemma_take_succ_push(i as int);
            rows.take(i as int).lemma_filter_push(rows[i as int], version_of_recipe(recipe_id));
        }
        if s.recipes_versions[i].recipe_id == recipe_id {
            let version_id = s.recipes_versions[i].version_id;
            let entry = (version_id, Ref::<RecipeVersion>::new(RecipeVersionID {
                recipe_id,
                version_id,
            }));
            let ghost out_before = out@;
            out.push(entry);
            proof {
                let rows = s.recipes_versions@;
                let pred = version_of_recipe(recipe_id);
                assert(version_entry_views(out_before.push(entry)) =~= version_entry_views(
                    out_before,
                ).push((entry.0, entry.1@)));
                assert(rows.take(i as int).filter(pred).push(rows[i as int]).map_values(
                    |row: VersionRow|
                        (
                            row.version_id,
                            RefV::<RecipeVersionID, RecipeVersionV>::unresolved(
                                RecipeVersionID { recipe_id, version_id: row.version_id },
                            ),
                        ),
                ) =~= version_entries_of(rows.take(i as int), recipe_id).push(
                    (
                        rows[i as int].version_id,
                        RefV::<RecipeVersionID, RecipeVersionV>::unresolved(
                            RecipeVersionID {
                                recipe_id,
                                version_id: rows[i as int].version_id,
                            },
                        ),
                    ),
                ));
            }
        }
        i += 1;
    }
    proof {
        assert(s.recipes_versions@.take(n as int) =~= s.recipes_versions@);
    }
    out
}

/// Collects the category references of one recipe, in table order.
fn collect_category_refs(s: &Store, recipe_id: i64) -> (out: Vec<Ref<Category>>)
    ensures
        category_ref_views(out@) == category_refs_of(s.recipes_categories@, recipe_id),
{
    let n = s.recipes_categories.len();
    let mut out: Vec<Ref<Category>> = Vec::new();
    let mut i: usize = 0;
    proof {
        assert(s.recipes_categories@.take(0) =~= Seq::<RecipeCategoryRow>::empty());
        assert(category_ref_views(out@) =~= category_refs_of(
            s.recipes_categories@.take(0),
            recipe_id,
        ));
    }
    while i < n
        invariant
            i <= n,
            n == s.recipes_categories@.len(),
            category_ref_views(out@) == category_refs_of(
                s.recipes_categories@.take(i as int),
                recipe_id,
            ),
        decreases n - i,
    {
        proof {
            let rows = s.recipes_categories@;
            rows.lemma_take_succ_push(i as int);
            rows.take(i as int).lemma_filter_push(rows[i as int], membership_of_recipe(recipe_id));
        }
        if s.recipes_categories[i].recipe_id == recipe_id {
            let item = Ref::<Category>::new(s.recipes_categories[i].category_id);
            let ghost out_before = out@;
            out.push(item);
            proof {
                let rows = s.recipes_categories@;
                let pred = membership_of_recipe(recipe_id);
                assert(category_ref_views(out_before.push(item)) =~= category_ref_views(
                    out_before,
                ).push(item@));
                assert(rows.take(i as int).filter(pred).push(rows[i as int]).map_values(
                    |row: RecipeCategoryRow| RefV::<i64, CategoryV>::unresolved(row.category_id),
                ) =~= category_refs_of(rows.take(i as int), recipe_id).push(
                    RefV::<i64, CategoryV>::unresolved(rows[i as int].category_id),
                ));
            }
        }
        i += 1;
    }
    proof {
        assert(s.recipes_categories@.take(n as int) =~= s.recipes_categories@);
    }
    out
}

/// What resolving a recipe's version map yields: each reference resolved in
/// order, stopping at the first failure; keys never change.
pub open spec fn fill_version_entries(
    items: Seq<(i64, RefV<RecipeVersionID, RecipeVersionV>)>,
    s: Store,
) -> Result<Seq<(i64, RefV<RecipeVersionID, RecipeVersionV>)>, Error>
    decreases items.len(),
{
    if items.len() == 0 {
        Ok(items)
    } else {
        match ref_fill_spec::<RecipeVersion>(items[0].1, s) {
            Ok(filled) => match fill_version_entries(items.drop_first(), s) {
                Ok(rest) => Ok(seq![(items[0].0, filled)] + rest),
                Err(e) => Err(e),
            },
            Err(e) => Err(e),
        }
    }
}

/// What resolving a recipe's category list yields: each reference resolved
/// in order, stopping at the first failure.
pub open spec fn fill_category_refs(items: Seq<RefV<i64, CategoryV>>, s: Store) -> Result<
    Seq<RefV<i64, CategoryV>>,
    Error,
>
    decreases items.len(),
{
    if items.len() == 0 {
        Ok(items)
    } else {
        match ref_fill_spec::<Category>(items[0], s) {
            Ok(filled) => match fill_category_refs(items.drop_first(), s) {
                Ok(rest) => Ok(seq![filled] + rest),
                Err(e) => Err(e),
            },
            Err(e) => Err(e),
        }
    }
}

/// A version map whose references each resolve is resolved pointwise.
proof fn lemma_fill_version_entries_ok(
    items: Seq<(i64, RefV<RecipeVersionID, RecipeVersionV>)>,
    s: Store,
    out: Seq<(i64, RefV<RecipeVersionID, RecipeVersionV>)>,
)
    requires
        items.len() == out.len(),
        forall|j: int|
            0 <= j < items.len() ==> {
                &&& ref_fill_spec::<RecipeVersion>((#[trigger] items[j]).1, s) == Ok::<
                    RefV<RecipeVersionID, RecipeVersionV>,
                    Error,
                >((#[trigger] out[j]).1)
                &&& out[j].0 == items[j].0
            },
    ensures
        fill_version_entries(items, s) == Ok::<
            Seq<(i64, RefV<RecipeVersionID, RecipeVersionV>)>,
            Error,
        >(out),
    decreases items.len(),
{
    if items.len() == 0 {
        assert(items =~= out);
    } else {
        assert forall|j: int| 0 <= j < items.drop_first().len() implies {
            &&& ref_fill_spec::<RecipeVersion>((#[trigger] items.drop_first()[j]).1, s) == Ok::<
                RefV<RecipeVersionID, RecipeVersionV>,
                Error,
            >((#[trigger] out.drop_first()[j]).1)
            &&& out.drop_first()[j].0 == items.drop_first()[j].0
        } by {
            assert(items.drop_first()[j] == items[j + 1]);
            assert(out.drop_first()[j] == out[j + 1]);
        }
        lemma_fill_version_entries_ok(items.drop_first(), s, out.drop_first());
        assert(seq![(items[0].0, out[0].1)] + out.drop_first() =~= out);
    }
}

/// A version map whose first failing reference fails with `e` resolves to
/// `e`.
proof fn lemma_fill_version_entries_err(
    items: Seq<(i64, RefV<RecipeVersionID, RecipeVersionV>)>,
    s: Store,
    k: int,
    e: Error,
)
    requires
        0 <= k < items.len(),
        forall|j: int|
            0 <= j < k ==> ref_fill_spec::<RecipeVersion>((#[trigger] items[j]).1, s) is Ok,
        ref_fill_spec::<RecipeVersion>(items[k].1, s) == Err::<
            RefV<RecipeVersionID, RecipeVersionV>,
            Error,
        >(e),
    ensures
        fill_version_entries(items, s) == Err::<
            Seq<(i64, RefV<RecipeVersionID, RecipeVersionV>)>,
            Error,
        >(e),
    decreases items.len(),
{
    if k > 0 {
        assert forall|j: int| 0 <= j < k - 1 implies ref_fill_spec::<RecipeVersion>(
            (#[trigger] items.drop_first()[j]).1,
            s,
        ) is Ok by {
            assert(items.drop_first()[j] == items[j + 1]);
        }
        assert(items.drop_first()[k - 1] == items[k]);
        lemma_fill_version_entries_err(items.drop_first(), s, k - 1, e);
    }
}

/// A category list whose references each resolve is resolved pointwise.
proof fn lemma_fill_category_refs_ok(
    items: Seq<RefV<i64, CategoryV>>,
    s: Store,
    out: Seq<RefV<i64, CategoryV>>,
)
    requires
        items.len() == out.len(),
        forall|j: int|
            0 <= j < items.len() ==> ref_fill_spec::<Category>(#[trigger] items[j], s) == Ok::<
                RefV<i64, CategoryV>,
                Error,
            >(#[trigger] out[j]),
    ensures
        fill_category_refs(items, s) == Ok::<Seq<RefV<i64, CategoryV>>, Error>(out),
    decreases items.len(),
{
    if items.len() == 0 {
        assert(items =~= out);
    } else {
        assert forall|j: int| 0 <= j < items.drop_first().len() implies ref_fill_spec::<Category>(
            #[trigger] items.drop_first()[j],
            s,
        ) == Ok::<RefV<i64, CategoryV>, Error>(out.drop_first()[j]) by {
            assert(items.drop_first()[j] == items[j + 1]);
            assert(out.drop_first()[j] == out[j + 1]);
        }
        lemma_fill_category_refs_ok(items.drop_first(), s, out.drop_first());
        assert(seq![out[0]] + out.drop_first() =~= out);
    }
}

/// A category list whose first failing reference fails with `e` resolves to
/// `e`.
proof fn lemma_fill_category_refs_err(items: Seq<RefV<i64, CategoryV>>, s: Store, k: int, e: Error)
    requires
        0 <= k < items.len(),
        forall|j: int| 0 <= j < k ==> ref_fill_spec::<Category>(#[trigger] items[j], s) is Ok,
        ref_fill_spec::<Category>(items[k], s) == Err::<RefV<i64, CategoryV>, Error>(e),
    ensures
        fill_category_refs(items, s) == Err::<Seq<RefV<i64, CategoryV>>, Error>(e),
    decreases items.len(),
{
    if k > 0 {
        assert forall|j: int| 0 <= j < k - 1 implies ref_fill_spec::<Category>(
            #[trigger] items.drop_first()[j],
            s,
        ) is Ok by {
            assert(items.drop_first()[j] == items[j + 1]);
        }
        assert(items.drop_first()[k - 1] == items[k]);
        lemma_fill_category_refs_err(items.drop_first(), s, k - 1, e);
    }
}

impl Model for Recipe {
    type ID = i64;

    /// A read of one recipe: its visible row (a hidden or absent recipe is
    /// `NotFound`), its versions in `version_id` order as identifier-only
    /// references keyed by revision, and its categories as identifier-only
    /// references.
    open spec fn get_spec(s: Store, id: i64) -> Result<RecipeV, Error> {
        match first_where(s.recipes@, recipe_visible_with_id(id)) {
            None => Err(Error::NotFound),
            Some(row) => Ok(
                RecipeV {
                    id,
                    name: row.name@,
                    versions: version_entries_of(s.recipes_versions@, id),
                    categories: category_refs_of(s.recipes_categories@, id),
                },
            ),
        }
    }

    /// Resolution of a recipe resolves its version references and its
    /// category references -- one level deep: the resolved versions' own
    /// ingredient references stay identifier-only.
    open spec fn fill_spec(v: RecipeV, s: Store) -> Result<RecipeV, Error> {
        match fill_version_entries(v.versions, s) {
            Ok(versions) => match fill_category_refs(v.categories, s) {
                Ok(categories) => Ok(
                    RecipeV { id: v.id, name: v.name, versions, categories },
                ),
                Err(e) => Err(e),
            },
            Err(e) => Err(e),
        }
    }

    fn get(s: &Store, id: i64) -> (r: Result<Recipe, Error>) {
        let n = s.recipes.len();
        let mut i: usize = 0;
        proof {
            lemma_first_where_skip_all(s.recipes@, recipe_visible_with_id(id));
        }
        while i < n
            invariant
                i <= n,
                n == s.recipes@.len(),
                first_where(s.recipes@, recipe_visible_with_id(id)) == first_where(
                    s.recipes@.skip(i as int),
                    recipe_visible_with_id(id),
                ),
            decreases n - i,
        {
            if s.recipes[i].id == id && !s.recipes[i].hidden {
                proof {
                    lemma_first_where_found(s.recipes@, recipe_visible_with_id(id), i as int);
                }
                let name = s.recipes[i].name.clone();
                let versions = collect_version_entries(s, id);
                let categories = collect_category_refs(s, id);
                return Ok(Recipe { id, name, versions, categories });
            }
            proof {
                lemma_first_where_step(s.recipes@, recipe_visible_with_id(id), i as int);
            }
            i += 1;
        }
        proof {
            assert(s.recipes@.skip(n as int) =~= Seq::<RecipeRow>::empty());
        }
        Err(Error::NotFound)
    }

    fn fill_refs(&mut self, s: &Store) -> (r: Result<(), Error>) {
        let n = self.versions.len();
        let mut k: usize = 0;
        while k < n
            invariant
                k <= n,
                n == self.versions@.len(),
                n == old(self).versions@.len(),
                s.wf(),
                self.id == old(self).id,
                self.name == old(self).name,
                self.categories == old(self).categories,
                forall|j: int| k <= j < n ==> self.versions@[j] == old(self).versions@[j],
                forall|j: int|
                    0 <= j < k ==> {
                        &&& ref_fill_spec::<RecipeVersion>(
                            (#[trigger] old(self).versions@[j]).1@,
                            *s,
                        ) == Ok::<RefV<RecipeVersionID, RecipeVersionV>, Error>(
                            (self.versions@[j]).1@,
                        )
                        &&& self.versions@[j].0 == old(self).versions@[j].0
                    },
            decreases n - k,
        {
            let result = self.versions[k].1.fill(s);
            if let Err(e) = result {
                proof {
                    let items = version_entry_views(old(self).versions@);
                    assert forall|j: int| 0 <= j < k implies ref_fill_spec::<RecipeVersion>(
                        (#[trigger] items[j]).1,
                        *s,
                    ) is Ok by {
                        assert(items[j] == (old(self).versions@[j].0, old(self).versions@[j].1@));
                    }
                    assert(items[k as int] == (
                        old(self).versions@[k as int].0,
                        old(self).versions@[k as int].1@,
                    ));
                    lemma_fill_version_entries_err(items, *s, k as int, e);
                }
                return Err(e);
            }
            k += 1;
        }
        proof {
            let items = version_entry_views(old(self).versions@);
            let out = version_entry_views(self.versions@);
            assert forall|j: int| 0 <= j < items.len() implies {
                &&& ref_fill_spec::<RecipeVersion>((#[trigger] items[j]).1, *s) == Ok::<
                    RefV<RecipeVersionID, RecipeVersionV>,
                    Error,
                >((#[trigger] out[j]).1)
                &&& out[j].0 == items[j].0
            } by {
                assert(items[j] == (old(self).versions@[j].0, old(self).versions@[j].1@));
                assert(out[j] == (self.versions@[j].0, self.versions@[j].1@));
            }
            lemma_fill_version_entries_ok(items, *s, out);
        }
        let ghost versions_done = self.versions@;
        let n = self.categories.len();
        let mut k: usize = 0;
        while k < n
            invariant
                k <= n,
                n == self.categories@.len(),
                n == old(self).categories@.len(),
                s.wf(),
                self.id == old(self).id,
                self.name == old(self).name,
                self.versions@ == versions_done,
                fill_version_entries(version_entry_views(old(self).versions@), *s) == Ok::<
                    Seq<(i64, RefV<RecipeVersionID, RecipeVersionV>)>,
                    Error,
                >(version_entry_views(versions_done)),
                forall|j: int| k <= j < n ==> self.categories@[j] == old(self).categories@[j],
                forall|j: int|
                    0 <= j < k ==> ref_fill_spec::<Category>(
                        (#[trigger] old(self).categories@[j])@,
                        *s,
                    ) == Ok::<RefV<i64, CategoryV>, Error>((self.categories@[j])@),
            decreases n - k,
        {
            let result = self.categories[k].fill(s);
            if let Err(e) = result {
                proof {
                    let items = category_ref_views(old(self).categories@);
                    assert forall|j: int| 0 <= j < k implies ref_fill_spec::<Category>(
                        #[trigger] items[j],
                        *s,
                    ) is Ok by {
                        assert(items[j] == (old(self).categories@[j])@);
                    }
                    assert(items[k as int] == (old(self).categories@[k as int])@);
                    lemma_fill_category_refs_err(items, *s, k as int, e);
                }
                return Err(e);
            }
            k += 1;
        }
        proof {
            let items = category_ref_views(old(self).categories@);
            let out = category_ref_views(self.categories@);
            assert forall|j: int| 0 <= j < items.len() implies ref_fill_spec::<Category>(
                #[trigger] items[j],
                *s,
            ) == Ok::<RefV<i64, CategoryV>, Error>(out[j]) by {
                assert(items[j] == (old(self).categories@[j])@);
                assert(out[j] == (self.categories@[j])@);
            }
            lemma_fill_category_refs_ok(items, *s, out);
        }
        Ok(())
    }
}

impl Recipe {
    /// Stores a new recipe (visible by default) under the next sequential
    /// identifier, attaches one membership row per supplied category, and
    /// returns the identifier.  A category whose identifier does not refer
    /// to an existing row fails the whole operation with `InvalidReference`
    /// and leaves the store unchanged: no recipe or membership rows remain
    /// behind.
    pub fn store_new(s: &mut Store, name: String, categories: Vec<Category>) -> (r: Result<
        i64,
        Error,
    >)
        requires
            old(s).wf(),
            next_id_of(max_recipe_id(old(s).recipes@)) < i64::MAX,
        ensures
            final(s).wf(),
            ({
                let id = next_id_of(max_recipe_id(old(s).recipes@)) as i64;
                if all_categories_exist(*old(s), categories@) {
                    &&& r == Ok::<i64, Error>(id)
                    &&& final(s).recipes@ == old(s).recipes@.push(
                        RecipeRow { id, name, hidden: false },
                    )
                    &&& final(s).recipes_categories@ == old(s).recipes_categories@
                        + membership_rows_for(id, categories@)
                    &&& final(s).categories == old(s).categories
                    &&& final(s).ingredients == old(s).ingredients
                    &&& final(s).recipes_versions == old(s).recipes_versions
                    &&& final(s).recipes_ingredients == old(s).recipes_ingredients
                    &&& final(s).recipes_instructions == old(s).recipes_instructions
                } else {
                    &&& r == Err::<i64, Error>(Error::InvalidReference)
                    &&& *final(s) == *old(s)
                }
            }),
    {
        let n_cats = categories.len();
        let mut k: usize = 0;
        while k < n_cats
            invariant
                k <= n_cats,
                n_cats == categories@.len(),
                s == old(s),
                s.wf(),
                forall|j: int|
                    0 <= j < k ==> category_exists(*old(s), (#[trigger] categories@[j]).id),
            decreases n_cats - k,
        {
            if !category_exists_exec(s, categories[k].id) {
                return Err(Error::InvalidReference);
            }
            k += 1;
        }
        let id = next_recipe_id(s);
        s.recipes.push(RecipeRow { id, name, hidden: false });
        proof {
            let rows = old(s).recipes@;
            let now = s.recipes@;
            assert forall|i: int, j: int|
                0 <= i < j < now.len() implies (#[trigger] now[i]).id < (#[trigger] now[j]).id by {
                if j == rows.len() {
                    lemma_max_recipe_id_ge(rows, i);
                }
            }
        }
        let mut k: usize = 0;
        while k < n_cats
            invariant
                k <= n_cats,
                n_cats == categories@.len(),
                s.recipes@ == old(s).recipes@.push(
                    RecipeRow {
                        id: next_id_of(max_recipe_id(old(s).recipes@)) as i64,
                        name,
                        hidden: false,
                    },
                ),
                s.recipes_categories@ == old(s).recipes_categories@ + membership_rows_for(
                    id,
                    categories@.take(k as int),
                ),
                id == next_id_of(max_recipe_id(old(s).recipes@)) as i64,
                s.categories == old(s).categories,
                s.ingredients == old(s).ingredients,
                s.recipes_versions == old(s).recipes_versions,
                s.recipes_ingredients == old(s).recipes_ingredients,
                s.recipes_instructions == old(s).recipes_instructions,
                s.wf(),
            decreases n_cats - k,
        {
            let row = RecipeCategoryRow { recipe_id: id, category_id: categories[k].id };
            let ghost before = s.recipes_categories@;
            s.recipes_categories.push(row);
            proof {
                assert(membership_rows_for(id, categories@.take(k + 1)) =~= membership_rows_for(
                    id,
                    categories@.take(k as int),
                ).push(row));
                assert(before.push(row) =~= old(s).recipes_categories@ + membership_rows_for(
                    id,
                    categories@.take(k + 1),
                ));
            }
            k += 1;
        }
        proof {
            assert(categories@.take(n_cats as int) =~= categories@);
        }
        Ok(id)
    }
}

} // verus!
