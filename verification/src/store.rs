//! The relational store that the entity layer runs against, modelled as
//! plain in-memory tables.
//!
//! Every entity operation takes the store of one open transaction
//! explicitly; within a transaction, statements observe each other's
//! writes.  Floating-point columns (`energy_density`, `quantity`) are held
//! as raw 64-bit patterns so the store carries them exactly without the
//! library computing on them.

use vstd::prelude::*;

verus! {

/// One row of `categories(id, name)`.
pub struct CategoryRow {
    pub id: i64,
    pub name: String,
}

/// One row of `ingredients(id, name, energy_density)`.  The energy density
/// (J/kg) is a 64-bit float carried as its bit pattern.
pub struct IngredientRow {
    pub id: i64,
    pub name: String,
    pub energy_density: u64,
}

/// One row of `recipes(id, name, hidden)`.  A hidden recipe is soft-deleted:
/// invisible to every read path.
pub struct RecipeRow {
    pub id: i64,
    pub name: String,
    pub hidden: bool,
}

/// One row of `recipes_categories(recipe_id, category_id)`.
pub struct RecipeCategoryRow {
    pub recipe_id: i64,
    pub category_id: i64,
}

/// One row of `recipes_versions(recipe_id, version_id, created, duration)`:
/// creation time as non-leap seconds since the Unix epoch, and a duration in
/// seconds.
pub struct VersionRow {
    pub recipe_id: i64,
    pub version_id: i64,
    pub created: i64,
    pub duration: i64,
}

/// One row of `recipes_ingredients(recipe_id, version_id, ingredient_id,
/// list_order, quantity, measurement)`.  The quantity (SI units) is a 64-bit
/// float carried as its bit pattern; the measurement is a stored integer
/// code.
pub struct VersionIngredientRow {
    pub recipe_id: i64,
    pub version_id: i64,
    pub ingredient_id: i64,
    pub list_order: i64,
    pub quantity: u64,
    pub measurement: i64,
}

/// One row of `recipes_instructions(recipe_id, version_id, step_number,
/// step_text)`.
pub struct InstructionRow {
    pub recipe_id: i64,
    pub version_id: i64,
    pub step_number: i64,
    pub step_text: String,
}

/// The tables of one recipes database, as seen by one transaction.
pub struct Store {
    pub categories: Vec<CategoryRow>,
    pub ingredients: Vec<IngredientRow>,
    pub recipes: Vec<RecipeRow>,
    pub recipes_categories: Vec<RecipeCategoryRow>,
    pub recipes_versions: Vec<VersionRow>,
    pub recipes_ingredients: Vec<VersionIngredientRow>,
    pub recipes_instructions: Vec<InstructionRow>,
}

impl Store {
    /// Identifiers are unique per table and below `i64::MAX`, so one more
    /// can always be allocated; version, ingredient and instruction rows
    /// stand in the order their keys give, so ordered reads are filters.
    pub open spec fn wf(self) -> bool {
        &&& categories_wf(self.categories@)
        &&& ingredients_wf(self.ingredients@)
        &&& recipes_wf(self.recipes@)
        &&& versions_wf(self.recipes_versions@)
        &&& version_ingredients_wf(self.recipes_ingredients@)
        &&& instructions_wf(self.recipes_instructions@)
        &&& ingredient_rows_reference_versions(self.recipes_ingredients@, self.recipes_versions@)
        &&& instruction_rows_reference_versions(
            self.recipes_instructions@,
            self.recipes_versions@,
        )
    }

    /// Every table of this store is empty.
    pub open spec fn is_empty(self) -> bool {
        &&& self.categories@ == Seq::<CategoryRow>::empty()
        &&& self.ingredients@ == Seq::<IngredientRow>::empty()
        &&& self.recipes@ == Seq::<RecipeRow>::empty()
        &&& self.recipes_categories@ == Seq::<RecipeCategoryRow>::empty()
        &&& self.recipes_versions@ == Seq::<VersionRow>::empty()
        &&& self.recipes_ingredients@ == Seq::<VersionIngredientRow>::empty()
        &&& self.recipes_instructions@ == Seq::<InstructionRow>::empty()
    }

    /// A store with no rows at all.
    pub fn new() -> (s: Store)
        ensures
            s.is_empty(),
            s.wf(),
    {
        let s = Store {
            categories: Vec::new(),
            ingredients: Vec::new(),
            recipes: Vec::new(),
            recipes_categories: Vec::new(),
            recipes_versions: Vec::new(),
            recipes_ingredients: Vec::new(),
            recipes_instructions: Vec::new(),
        };
        proof {
            assert(s.categories@ =~= Seq::<CategoryRow>::empty());
            assert(s.ingredients@ =~= Seq::<IngredientRow>::empty());
            assert(s.recipes@ =~= Seq::<RecipeRow>::empty());
            assert(s.recipes_categories@ =~= Seq::<RecipeCategoryRow>::empty());
            assert(s.recipes_versions@ =~= Seq::<VersionRow>::empty());
            assert(s.recipes_ingredients@ =~= Seq::<VersionIngredientRow>::empty());
            assert(s.recipes_instructions@ =~= Seq::<InstructionRow>::empty());
        }
        s
    }
}

/// Ascending adjacent category identifiers are ascending pairwise.
proof fn lemma_categories_sorted_pairwise(rows: Seq<CategoryRow>, i: int, j: int)
    requires
        forall|k: int| 0 <= k && k + 1 < rows.len() ==> (#[trigger] rows[k]).id < rows[k + 1].id,
        0 <= i < j < rows.len(),
    ensures
        rows[i].id < rows[j].id,
    decreases j - i,
{
    if i + 1 < j {
        lemma_categories_sorted_pairwise(rows, i, j - 1);
    }
}

/// Ascending adjacent ingredient identifiers are ascending pairwise.
proof fn lemma_ingredients_sorted_pairwise(rows: Seq<IngredientRow>, i: int, j: int)
    requires
        forall|k: int| 0 <= k && k + 1 < rows.len() ==> (#[trigger] rows[k]).id < rows[k + 1].id,
        0 <= i < j < rows.len(),
    ensures
        rows[i].id < rows[j].id,
    decreases j - i,
{
    if i + 1 < j {
        lemma_ingredients_sorted_pairwise(rows, i, j - 1);
    }
}

/// Ascending adjacent recipe identifiers are ascending pairwise.
proof fn lemma_recipes_sorted_pairwise(rows: Seq<RecipeRow>, i: int, j: int)
    requires
        forall|k: int| 0 <= k && k + 1 < rows.len() ==> (#[trigger] rows[k]).id < rows[k + 1].id,
        0 <= i < j < rows.len(),
    ensures
        rows[i].id < rows[j].id,
    decreases j - i,
{
    if i + 1 < j {
        lemma_recipes_sorted_pairwise(rows, i, j - 1);
    }
}

/// Whether the `categories` table is well-formed.
fn check_categories(rows: &Vec<CategoryRow>) -> (b: bool)
    ensures
        b == categories_wf(rows@),
{
    let n = rows.len();
    let mut i: usize = 0;
    while i < n
        invariant
            i <= n,
            n == rows@.len(),
            forall|k: int| 0 <= k < i ==> 0 <= (#[trigger] rows@[k]).id < i64::MAX,
            forall|k: int| 0 <= k && k + 1 < i ==> (#[trigger] rows@[k]).id < rows@[k + 1].id,
        decreases n - i,
    {
        if rows[i].id < 0 || rows[i].id == i64::MAX {
            return false;
        }
        if i > 0 && rows[i - 1].id >= rows[i].id {
            return false;
        }
        i += 1;
    }
    proof {
        assert forall|a: int, b_: int| 0 <= a < b_ < rows@.len() implies (#[trigger] rows@[a]).id
            < (#[trigger] rows@[b_]).id by {
            lemma_categories_sorted_pairwise(rows@, a, b_);
        }
    }
    true
}

/// Whether the `ingredients` table is well-formed.
fn check_ingredients(rows: &Vec<IngredientRow>) -> (b: bool)
    ensures
        b == ingredients_wf(rows@),
{
    let n = rows.len();
    let mut i: usize = 0;
    while i < n
        invariant
            i <= n,
            n == rows@.len(),
            forall|k: int| 0 <= k < i ==> 0 <= (#[trigger] rows@[k]).id < i64::MAX,
            forall|k: int| 0 <= k && k + 1 < i ==> (#[trigger] rows@[k]).id < rows@[k + 1].id,
        decreases n - i,
    {
        if rows[i].id < 0 || rows[i].id == i64::MAX {
            return false;
        }
        if i > 0 && rows[i - 1].id >= rows[i].id {
            return false;
        }
        i += 1;
    }
    proof {
        assert forall|a: int, b_: int| 0 <= a < b_ < rows@.len() implies (#[trigger] rows@[a]).id
            < (#[trigger] rows@[b_]).id by {
            lemma_ingredients_sorted_pairwise(rows@, a, b_);
        }
    }
    true
}

/// Whether the `recipes` table is well-formed.
fn check_recipes(rows: &Vec<RecipeRow>) -> (b: bool)
    ensures
        b == recipes_wf(rows@),
{
    let n = rows.len();
    let mut i: usize = 0;
    while i < n
        invariant
            i <= n,
            n == rows@.len(),
            forall|k: int| 0 <= k < i ==> 0 <= (#[trigger] rows@[k]).id < i64::MAX,
            forall|k: int| 0 <= k && k + 1 < i ==> (#[trigger] rows@[k]).id < rows@[k + 1].id,
        decreases n - i,
    {
        if rows[i].id < 0 || rows[i].id == i64::MAX {
            return false;
        }
        if i > 0 && rows[i - 1].id >= rows[i].id {
            return false;
        }
        i += 1;
    }
    proof {
        assert forall|a: int, b_: int| 0 <= a < b_ < rows@.len() implies (#[trigger] rows@[a]).id
            < (#[trigger] rows@[b_]).id by {
            lemma_recipes_sorted_pairwise(rows@, a, b_);
        }
    }
    true
}

/// Whether the `recipes_versions` table is well-formed.
fn check_versions(rows: &Vec<VersionRow>) -> (b: bool)
    ensures
        b == versions_wf(rows@),
{
    let n = rows.len();
    let mut i: usize = 0;
    while i < n
        invariant
            i <= n,
            n == rows@.len(),
            forall|k: int| 0 <= k < i ==> 0 <= (#[trigger] rows@[k]).version_id < i64::MAX,
            forall|a: int, j: int|
                0 <= a < i && a < j < n && (#[trigger] rows@[a]).recipe_id == (
                #[trigger] rows@[j]).recipe_id ==> rows@[a].version_id < rows@[j].version_id,
        decreases n - i,
    {
        if rows[i].version_id < 0 || rows[i].version_id == i64::MAX {
            return false;
        }
        let mut j: usize = i + 1;
        while j < n
            invariant
                i < j <= n,
                n == rows@.len(),
                forall|l: int|
                    i < l < j && (#[trigger] rows@[l]).recipe_id == rows@[i as int].recipe_id
                        ==> rows@[i as int].version_id < rows@[l].version_id,
            decreases n - j,
        {
            if rows[j].recipe_id == rows[i].recipe_id && rows[i].version_id >= rows[j].version_id {
                return false;
            }
            j += 1;
        }
        i += 1;
    }
    true
}

/// Whether the `recipes_ingredients` table is well-formed.
fn check_version_ingredients(rows: &Vec<VersionIngredientRow>) -> (b: bool)
    ensures
        b == version_ingredients_wf(rows@),
{
    let n = rows.len();
    let mut i: usize = 0;
    while i < n
        invariant
            i <= n,
            n == rows@.len(),
            forall|a: int, j: int|
                0 <= a < i && a < j < n && (#[trigger] rows@[a]).recipe_id == (
                #[trigger] rows@[j]).recipe_id && rows@[a].version_id == rows@[j].version_id
                    ==> rows@[a].list_order < rows@[j].list_order,
        decreases n - i,
    {
        let mut j: usize = i + 1;
        while j < n
            invariant
                i < j <= n,
                n == rows@.len(),
                forall|l: int|
                    i < l < j && (#[trigger] rows@[l]).recipe_id == rows@[i as int].recipe_id
                        && rows@[l].version_id == rows@[i as int].version_id ==> rows@[
                        i as int
                    ].list_order < rows@[l].list_order,
            decreases n - j,
        {
            if rows[j].recipe_id == rows[i].recipe_id && rows[j].version_id == rows[i].version_id
                && rows[i].list_order >= rows[j].list_order {
                return false;
            }
            j += 1;
        }
        i += 1;
    }
    true
}

/// Whether the `recipes_instructions` table is well-formed.
fn check_instructions(rows: &Vec<InstructionRow>) -> (b: bool)
    ensures
        b == instructions_wf(rows@),
{
    let n = rows.len();
    let mut i: usize = 0;
    while i < n
        invariant
            i <= n,
            n == rows@.len(),
            forall|a: int, j: int|
                0 <= a < i && a < j < n && (#[trigger] rows@[a]).recipe_id == (
                #[trigger] rows@[j]).recipe_id && rows@[a].version_id == rows@[j].version_id
                    ==> rows@[a].step_number < rows@[j].step_number,
        decreases n - i,
    {
        let mut j: usize = i + 1;
        while j < n
            invariant
                i < j <= n,
                n == rows@.len(),
                forall|l: int|
                    i < l < j && (#[trigger] rows@[l]).recipe_id == rows@[i as int].recipe_id
                        && rows@[l].version_id == rows@[i as int].version_id ==> rows@[
                        i as int
                    ].step_number < rows@[l].step_number,
            decreases n - j,
        {
            if rows[j].recipe_id == rows[i].recipe_id && rows[j].version_id == rows[i].version_id
                && rows[i].step_number >= rows[j].step_number {
                return false;
            }
            j += 1;
        }
        i += 1;
    }
    true
}

/// Whether a version row with this composite key stands in the table.
fn has_version_row(versions: &Vec<VersionRow>, recipe_id: i64, version_id: i64) -> (b: bool)
    ensures
        b == version_key_exists(versions@, recipe_id, version_id),
{
    let n = versions.len();
    let mut w: usize = 0;
    while w < n
        invariant
            w <= n,
            n == versions@.len(),
            forall|k: int|
                0 <= k < w ==> !((#[trigger] versions@[k]).recipe_id == recipe_id && versions@[
                    k
                ].version_id == version_id),
        decreases n - w,
    {
        if versions[w].recipe_id == recipe_id && versions[w].version_id == version_id {
            return true;
        }
        w += 1;
    }
    false
}

/// Whether every ingredient row's foreign key finds its version row.
fn check_ingredient_fk(rows: &Vec<VersionIngredientRow>, versions: &Vec<VersionRow>) -> (b: bool)
    ensures
        b == ingredient_rows_reference_versions(rows@, versions@),
{
    let n = rows.len();
    let mut k: usize = 0;
    while k < n
        invariant
            k <= n,
            n == rows@.len(),
            forall|t: int|
                0 <= t < k ==> version_key_exists(
                    versions@,
                    (#[trigger] rows@[t]).recipe_id,
                    rows@[t].version_id,
                ),
        decreases n - k,
    {
        if !has_version_row(versions, rows[k].recipe_id, rows[k].version_id) {
            return false;
        }
        k += 1;
    }
    true
}

/// Whether every instruction row's foreign key finds its version row.
fn check_instruction_fk(rows: &Vec<InstructionRow>, versions: &Vec<VersionRow>) -> (b: bool)
    ensures
        b == instruction_rows_reference_versions(rows@, versions@),
{
    let n = rows.len();
    let mut k: usize = 0;
    while k < n
        invariant
            k <= n,
            n == rows@.len(),
            forall|t: int|
                0 <= t < k ==> version_key_exists(
                    versions@,
                    (#[trigger] rows@[t]).recipe_id,
                    rows@[t].version_id,
                ),
        decreases n - k,
    {
        if !has_version_row(versions, rows[k].recipe_id, rows[k].version_id) {
            return false;
        }
        k += 1;
    }
    true
}

impl Store {
    /// Decides well-formedness, so that callers outside the library can
    /// test what its operations ask of a store they hand in.
    pub fn check_wf(&self) -> (b: bool)
        ensures
            b == self.wf(),
    {
        check_categories(&self.categories) && check_ingredients(&self.ingredients)
            && check_recipes(&self.recipes) && check_versions(&self.recipes_versions)
            && check_version_ingredients(&self.recipes_ingredients) && check_instructions(
            &self.recipes_instructions,
        ) && check_ingredient_fk(&self.recipes_ingredients, &self.recipes_versions)
            && check_instruction_fk(&self.recipes_instructions, &self.recipes_versions)
    }
}

/// Category identifiers are unique, allocatable, and stand in creation
/// (that is, ascending) order.
pub open spec fn categories_wf(rows: Seq<CategoryRow>) -> bool {
    &&& forall|i: int, j: int|
        0 <= i < j < rows.len() ==> #[trigger] rows[i].id < #[trigger] rows[j].id
    &&& forall|i: int| 0 <= i < rows.len() ==> 0 <= #[trigger] rows[i].id < i64::MAX
}

/// Ingredient identifiers are unique, allocatable, and stand in creation
/// (that is, ascending) order.
pub open spec fn ingredients_wf(rows: Seq<IngredientRow>) -> bool {
    &&& forall|i: int, j: int|
        0 <= i < j < rows.len() ==> #[trigger] rows[i].id < #[trigger] rows[j].id
    &&& forall|i: int| 0 <= i < rows.len() ==> 0 <= #[trigger] rows[i].id < i64::MAX
}

/// Recipe identifiers are unique, allocatable, and stand in creation (that
/// is, ascending) order.
pub open spec fn recipes_wf(rows: Seq<RecipeRow>) -> bool {
    &&& forall|i: int, j: int|
        0 <= i < j < rows.len() ==> #[trigger] rows[i].id < #[trigger] rows[j].id
    &&& forall|i: int| 0 <= i < rows.len() ==> 0 <= #[trigger] rows[i].id < i64::MAX
}

/// Version rows of one recipe stand in strictly increasing `version_id`
/// order (which also makes the composite key unique), and version
/// identifiers are allocatable.
pub open spec fn versions_wf(rows: Seq<VersionRow>) -> bool {
    &&& forall|i: int, j: int|
        0 <= i < j < rows.len() && #[trigger] rows[i].recipe_id == #[trigger] rows[j].recipe_id
            ==> rows[i].version_id < rows[j].version_id
    &&& forall|i: int| 0 <= i < rows.len() ==> 0 <= #[trigger] rows[i].version_id < i64::MAX
}

/// Ingredient rows of one version stand in strictly increasing `list_order`.
pub open spec fn version_ingredients_wf(rows: Seq<VersionIngredientRow>) -> bool {
    forall|i: int, j: int|
        0 <= i < j < rows.len() && #[trigger] rows[i].recipe_id == #[trigger] rows[j].recipe_id
            && rows[i].version_id == rows[j].version_id ==> rows[i].list_order < rows[j].list_order
}

/// Instruction rows of one version stand in strictly increasing
/// `step_number`.
pub open spec fn instructions_wf(rows: Seq<InstructionRow>) -> bool {
    forall|i: int, j: int|
        0 <= i < j < rows.len() && #[trigger] rows[i].recipe_id == #[trigger] rows[j].recipe_id
            && rows[i].version_id == rows[j].version_id ==> rows[i].step_number < rows[j].step_number
}

/// The first row satisfying `pred`, in table order: the row a point read
/// returns.
pub open spec fn first_where<A>(rows: Seq<A>, pred: spec_fn(A) -> bool) -> Option<A>
    decreases rows.len(),
{
    if rows.len() == 0 {
        None
    } else if pred(rows[0]) {
        Some(rows[0])
    } else {
        first_where(rows.drop_first(), pred)
    }
}

pub proof fn lemma_first_where_skip_all<A>(rows: Seq<A>, pred: spec_fn(A) -> bool)
    ensures
        first_where(rows, pred) == first_where(rows.skip(0), pred),
{
    assert(rows.skip(0) =~= rows);
}

pub proof fn lemma_first_where_found<A>(rows: Seq<A>, pred: spec_fn(A) -> bool, i: int)
    requires
        0 <= i < rows.len(),
        pred(rows[i]),
    ensures
        first_where(rows.skip(i), pred) == Some(rows[i]),
{
    assert(rows.skip(i)[0] == rows[i]);
}

pub proof fn lemma_first_where_step<A>(rows: Seq<A>, pred: spec_fn(A) -> bool, i: int)
    requires
        0 <= i < rows.len(),
        !pred(rows[i]),
    ensures
        first_where(rows.skip(i), pred) == first_where(rows.skip(i + 1), pred),
{
    assert(rows.skip(i)[0] == rows[i]);
    assert(rows.skip(i).drop_first() =~= rows.skip(i + 1));
}

/// A point read of a grown table returns what it returned before, or the
/// new row where nothing matched yet.
pub proof fn lemma_first_where_push<A>(rows: Seq<A>, pred: spec_fn(A) -> bool, elem: A)
    ensures
        first_where(rows.push(elem), pred) == (match first_where(rows, pred) {
            Some(row) => Some(row),
            None => if pred(elem) {
                Some(elem)
            } else {
                None
            },
        }),
    decreases rows.len(),
{
    if rows.len() == 0 {
        assert(rows.push(elem).len() == 1);
        assert(rows.push(elem)[0] == elem);
        if !pred(elem) {
            assert(rows.push(elem).drop_first() =~= Seq::<A>::empty());
            assert(first_where(rows.push(elem).drop_first(), pred) is None);
        }
    } else {
        assert(rows.push(elem)[0] == rows[0]);
        if !pred(rows[0]) {
            assert(rows.push(elem).drop_first() =~= rows.drop_first().push(elem));
            lemma_first_where_push(rows.drop_first(), pred, elem);
            assert(first_where(rows.push(elem), pred) == first_where(
                rows.drop_first().push(elem),
                pred,
            ));
        }
    }
}

/// Filtering keeps a sequence whose rows all satisfy the predicate.
pub proof fn lemma_filter_all_pos<A>(rows: Seq<A>, pred: spec_fn(A) -> bool)
    requires
        forall|i: int| 0 <= i < rows.len() ==> pred(#[trigger] rows[i]),
    ensures
        rows.filter(pred) == rows,
    decreases rows.len(),
{
    reveal(Seq::filter);
    if rows.len() > 0 {
        assert forall|i: int| 0 <= i < rows.drop_last().len() implies pred(
            #[trigger] rows.drop_last()[i],
        ) by {
            assert(rows.drop_last()[i] == rows[i]);
        }
        lemma_filter_all_pos(rows.drop_last(), pred);
        assert(rows.drop_last().push(rows.last()) =~= rows);
    }
}

/// A row satisfying `pred` exists exactly when the point read finds one.
pub proof fn lemma_first_where_exists<A>(rows: Seq<A>, pred: spec_fn(A) -> bool)
    ensures
        first_where(rows, pred) is Some <==> exists|i: int| 0 <= i < rows.len() && pred(rows[i]),
        first_where(rows, pred) matches Some(row) ==> pred(row),
    decreases rows.len(),
{
    if rows.len() > 0 {
        if pred(rows[0]) {
        } else {
            lemma_first_where_exists(rows.drop_first(), pred);
            if exists|i: int| 0 <= i < rows.len() && pred(rows[i]) {
                let i = choose|i: int| 0 <= i < rows.len() && pred(rows[i]);
                assert(rows.drop_first()[i - 1] == rows[i]);
            }
        }
    }
}

/// `MAX(id)` over the `categories` table: `None` when the table is empty.
pub open spec fn max_category_id(rows: Seq<CategoryRow>) -> Option<i64>
    decreases rows.len(),
{
    if rows.len() == 0 {
        None
    } else {
        match max_category_id(rows.drop_last()) {
            None => Some(rows.last().id),
            Some(m) => Some(if rows.last().id >= m { rows.last().id } else { m }),
        }
    }
}

/// `MAX(id)` over the `ingredients` table.
pub open spec fn max_ingredient_id(rows: Seq<IngredientRow>) -> Option<i64>
    decreases rows.len(),
{
    if rows.len() == 0 {
        None
    } else {
        match max_ingredient_id(rows.drop_last()) {
            None => Some(rows.last().id),
            Some(m) => Some(if rows.last().id >= m { rows.last().id } else { m }),
        }
    }
}

/// `MAX(id)` over the `recipes` table (hidden rows included: allocation sees
/// them).
pub open spec fn max_recipe_id(rows: Seq<RecipeRow>) -> Option<i64>
    decreases rows.len(),
{
    if rows.len() == 0 {
        None
    } else {
        match max_recipe_id(rows.drop_last()) {
            None => Some(rows.last().id),
            Some(m) => Some(if rows.last().id >= m { rows.last().id } else { m }),
        }
    }
}

/// `MAX(version_id)` over the version rows of one recipe.
pub open spec fn max_version_id(rows: Seq<VersionRow>, recipe_id: i64) -> Option<i64>
    decreases rows.len(),
{
    if rows.len() == 0 {
        None
    } else {
        let rest = max_version_id(rows.drop_last(), recipe_id);
        if rows.last().recipe_id == recipe_id {
            match rest {
                None => Some(rows.last().version_id),
                Some(m) => Some(
                    if rows.last().version_id >= m {
                        rows.last().version_id
                    } else {
                        m
                    },
                ),
            }
        } else {
            rest
        }
    }
}

/// The identifier the sequential allocator derives from a maximum: dense,
/// zero-based, monotonic per scope.
pub open spec fn next_id_of(max: Option<i64>) -> int {
    match max {
        None => 0,
        Some(m) => m + 1,
    }
}

/// Every category identifier is bounded by the table's maximum.
pub proof fn lemma_max_category_id_ge(rows: Seq<CategoryRow>, i: int)
    requires
        0 <= i < rows.len(),
    ensures
        max_category_id(rows) matches Some(m) && rows[i].id <= m,
    decreases rows.len(),
{
    if i < rows.len() - 1 {
        lemma_max_category_id_ge(rows.drop_last(), i);
        assert(rows.drop_last()[i] == rows[i]);
    }
}

/// Every ingredient identifier is bounded by the table's maximum.
pub proof fn lemma_max_ingredient_id_ge(rows: Seq<IngredientRow>, i: int)
    requires
        0 <= i < rows.len(),
    ensures
        max_ingredient_id(rows) matches Some(m) && rows[i].id <= m,
    decreases rows.len(),
{
    if i < rows.len() - 1 {
        lemma_max_ingredient_id_ge(rows.drop_last(), i);
        assert(rows.drop_last()[i] == rows[i]);
    }
}

/// Every recipe identifier is bounded by the table's maximum.
pub proof fn lemma_max_recipe_id_ge(rows: Seq<RecipeRow>, i: int)
    requires
        0 <= i < rows.len(),
    ensures
        max_recipe_id(rows) matches Some(m) && rows[i].id <= m,
    decreases rows.len(),
{
    if i < rows.len() - 1 {
        lemma_max_recipe_id_ge(rows.drop_last(), i);
        assert(rows.drop_last()[i] == rows[i]);
    }
}

/// Every version identifier of a recipe is bounded by that recipe's maximum.
pub proof fn lemma_max_version_id_ge(rows: Seq<VersionRow>, recipe_id: i64, i: int)
    requires
        0 <= i < rows.len(),
        rows[i].recipe_id == recipe_id,
    ensures
        max_version_id(rows, recipe_id) matches Some(m) && rows[i].version_id <= m,
    decreases rows.len(),
{
    if i < rows.len() - 1 {
        lemma_max_version_id_ge(rows.drop_last(), recipe_id, i);
        assert(rows.drop_last()[i] == rows[i]);
    }
}

/// A version row with this composite key stands in the table.
pub open spec fn version_key_exists(
    versions: Seq<VersionRow>,
    recipe_id: i64,
    version_id: i64,
) -> bool {
    exists|i: int|
        0 <= i < versions.len() && (#[trigger] versions[i]).recipe_id == recipe_id && versions[
            i
        ].version_id == version_id
}

/// Every ingredient row belongs to a stored version: the foreign key from
/// `recipes_ingredients` into `recipes_versions`.
pub open spec fn ingredient_rows_reference_versions(
    rows: Seq<VersionIngredientRow>,
    versions: Seq<VersionRow>,
) -> bool {
    forall|k: int|
        0 <= k < rows.len() ==> version_key_exists(
            versions,
            (#[trigger] rows[k]).recipe_id,
            rows[k].version_id,
        )
}

/// Every instruction row belongs to a stored version: the foreign key from
/// `recipes_instructions` into `recipes_versions`.
pub open spec fn instruction_rows_reference_versions(
    rows: Seq<InstructionRow>,
    versions: Seq<VersionRow>,
) -> bool {
    forall|k: int|
        0 <= k < rows.len() ==> version_key_exists(
            versions,
            (#[trigger] rows[k]).recipe_id,
            rows[k].version_id,
        )
}

/// A maximum, when there is one, is the value of some row.
pub proof fn lemma_max_version_id_is_some_row(rows: Seq<VersionRow>, recipe_id: i64)
    requires
        max_version_id(rows, recipe_id) is Some,
    ensures
        exists|i: int|
            0 <= i < rows.len() && (#[trigger] rows[i]).recipe_id == recipe_id
                && rows[i].version_id == max_version_id(rows, recipe_id)->0,
    decreases rows.len(),
{
    let m = max_version_id(rows, recipe_id)->0;
    if rows.last().recipe_id == recipe_id && rows.last().version_id == m {
        assert(rows[rows.len() - 1] == rows.last());
    } else {
        lemma_max_version_id_is_some_row(rows.drop_last(), recipe_id);
        let i = choose|i: int|
            0 <= i < rows.drop_last().len() && (#[trigger] rows.drop_last()[i]).recipe_id
                == recipe_id && rows.drop_last()[i].version_id == max_version_id(
                rows.drop_last(),
                recipe_id,
            )->0;
        assert(rows[i] == rows.drop_last()[i]);
    }
}

/// A visible (not hidden) recipe row with this identifier exists.
pub open spec fn recipe_visible(s: Store, recipe_id: i64) -> bool {
    exists|i: int|
        0 <= i < s.recipes@.len() && (#[trigger] s.recipes@[i]).id == recipe_id
            && !s.recipes@[i].hidden
}

/// A category row with this identifier exists: what the existence count of
/// a validated foreign reference checks.
pub open spec fn category_exists(s: Store, category_id: i64) -> bool {
    exists|i: int| 0 <= i < s.categories@.len() && (#[trigger] s.categories@[i]).id == category_id
}

} // verus!
