//! Categories of recipes.

use vstd::prelude::*;

use crate::error::Error;
use crate::models::model::Model;
use crate::store::{
    first_where, lemma_first_where_found, lemma_first_where_skip_all, lemma_first_where_step,
    lemma_max_category_id_ge, max_category_id, next_id_of, CategoryRow, Store,
};

verus! {

/// Represents a category of recipes.
#[derive(Clone)]
pub struct Category {
    /// The category's internal ID.
    pub id: i64,

    /// The human-readable name of the category. This should be unique.
    pub name: String,
}

/// The mathematical view of a category.
pub struct CategoryV {
    pub id: i64,
    pub name: Seq<char>,
}

impl View for Category {
    type V = CategoryV;

    open spec fn view(&self) -> CategoryV {
        CategoryV { id: self.id, name: self.name@ }
    }
}

/// Selects rows of the `categories` table by identifier.
pub open spec fn category_has_id(id: i64) -> spec_fn(CategoryRow) -> bool {
    |row: CategoryRow| row.id == id
}

impl Category {
    /// Stores a new category under the next sequential identifier and
    /// returns that identifier.  Identifiers are dense and zero-based: the
    /// first category of an empty table gets 0.  Callers keep the
    /// identifier space clear of the type's top, so the increment fits.
    pub fn store_new(s: &mut Store, name: String) -> (r: Result<i64, Error>)
        requires
            old(s).wf(),
            next_id_of(max_category_id(old(s).categories@)) < i64::MAX,
        ensures
            final(s).wf(),
            ({
                let id = next_id_of(max_category_id(old(s).categories@));
                &&& r == Ok::<i64, Error>(id as i64)
                &&& final(s).categories@ == old(s).categories@.push(
                    CategoryRow { id: id as i64, name },
                )
            }),
            final(s).ingredients == old(s).ingredients,
            final(s).recipes == old(s).recipes,
            final(s).recipes_categories == old(s).recipes_categories,
            final(s).recipes_versions == old(s).recipes_versions,
            final(s).recipes_ingredients == old(s).recipes_ingredients,
            final(s).recipes_instructions == old(s).recipes_instructions,
    {
        let id = next_category_id(s);
        s.categories.push(CategoryRow { id, name });
        proof {
            let rows = old(s).categories@;
            let now = s.categories@;
            assert forall|i: int, j: int|
                0 <= i < j < now.len() implies (#[trigger] now[i]).id < (#[trigger] now[j]).id by {
                if j == rows.len() {
                    lemma_max_category_id_ge(rows, i);
                }
            }
        }
        Ok(id)
    }
}

/// Computes the identifier the allocator hands to the next category: the
/// maximum existing identifier plus one, or 0 for an empty table.
fn next_category_id(s: &Store) -> (id: i64)
    requires
        next_id_of(max_category_id(s.categories@)) < i64::MAX,
    ensures
        id == next_id_of(max_category_id(s.categories@)),
{
    let n = s.categories.len();
    let mut acc: Option<i64> = None;
    let mut i: usize = 0;
    while i < n
        invariant
            i <= n,
            n == s.categories@.len(),
            acc == max_category_id(s.categories@.take(i as int)),
        decreases n - i,
    {
        proof {
            assert(s.categories@.take(i + 1).drop_last() =~= s.categories@.take(i as int));
            assert(s.categories@.take(i + 1).last() == s.categories@[i as int]);
        }
        let row_id = s.categories[i].id;
        acc = match acc {
            None => Some(row_id),
            Some(m) => Some(
                if row_id >= m {
                    row_id
                } else {
                    m
                },
            ),
        };
        i += 1;
    }
    proof {
        assert(s.categories@.take(n as int) =~= s.categories@);
    }
    match acc {
        None => 0,
        Some(m) => m + 1,
    }
}

impl Model for Category {
    type ID = i64;

    /// The first `categories` row with this identifier, or `NotFound`.
    open spec fn get_spec(s: Store, id: i64) -> Result<CategoryV, Error> {
        match first_where(s.categories@, category_has_id(id)) {
            Some(row) => Ok(CategoryV { id, name: row.name@ }),
            None => Err(Error::NotFound),
        }
    }

    /// A category owns no references: resolution returns it unchanged.
    open spec fn fill_spec(v: CategoryV, s: Store) -> Result<CategoryV, Error> {
        Ok(v)
    }

    fn get(s: &Store, id: i64) -> (r: Result<Category, Error>) {
        let n = s.categories.len();
        let mut i: usize = 0;
        proof {
            lemma_first_where_skip_all(s.categories@, category_has_id(id));
        }
        while i < n
            invariant
                i <= n,
                n == s.categories@.len(),
                first_where(s.categories@, category_has_id(id)) == first_where(
                    s.categories@.skip(i as int),
                    category_has_id(id),
                ),
            decreases n - i,
        {
            if s.categories[i].id == id {
                proof {
                    lemma_first_where_found(s.categories@, category_has_id(id), i as int);
                }
                let name = s.categories[i].name.clone();
                return Ok(Category { id, name });
            }
            proof {
                lemma_first_where_step(s.categories@, category_has_id(id), i as int);
            }
            i += 1;
        }
        proof {
            assert(s.categories@.skip(n as int) =~= Seq::<CategoryRow>::empty());
        }
        Err(Error::NotFound)
    }

    fn fill_refs(&mut self, s: &Store) -> (r: Result<(), Error>) {
        Ok(())
    }
}

} // verus!
