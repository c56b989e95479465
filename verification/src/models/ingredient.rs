//! General ingredients that can be used in recipes.

use vstd::prelude::*;

use crate::error::Error;
use crate::models::model::Model;
use crate::store::{
    first_where, lemma_first_where_found, lemma_first_where_skip_all, lemma_first_where_step,
    lemma_max_ingredient_id_ge, max_ingredient_id, next_id_of, IngredientRow, Store,
};

verus! {

/// Represents a general ingredient that can be used in recipes. This can be
/// any edible recipe ingredient, from water to a spice to a baked good.
pub struct Ingredient {
    /// The ingredient's internal ID.
    pub id: i64,

    /// The human-readable name of the ingredient. This should be unique.
    pub name: String,

    /// The typical energy density of the ingredient (in J/kg): a 64-bit
    /// float carried as its raw bit pattern, which the store keeps exactly.
    pub energy_density: u64,
}

/// The mathematical view of an ingredient.
pub struct IngredientV {
    pub id: i64,
    pub name: Seq<char>,
    pub energy_density: u64,
}

impl View for Ingredient {
    type V = IngredientV;

    open spec fn view(&self) -> IngredientV {
        IngredientV { id: self.id, name: self.name@, energy_density: self.energy_density }
    }
}

/// Selects rows of the `ingredients` table by identifier.
pub open spec fn ingredient_has_id(id: i64) -> spec_fn(IngredientRow) -> bool {
    |row: IngredientRow| row.id == id
}

impl Ingredient {
    /// Stores a new ingredient under the next sequential identifier and
    /// returns that identifier.  Identifiers are dense and zero-based: the
    /// first ingredient of an empty table gets 0.  Callers keep the
    /// identifier space clear of the type's top, so the increment fits.
    pub fn store_new(s: &mut Store, name: String, energy_density: u64) -> (r: Result<i64, Error>)
        requires
            old(s).wf(),
            next_id_of(max_ingredient_id(old(s).ingredients@)) < i64::MAX,
        ensures
            final(s).wf(),
            ({
                let id = next_id_of(max_ingredient_id(old(s).ingredients@));
                &&& r == Ok::<i64, Error>(id as i64)
                &&& final(s).ingredients@ == old(s).ingredients@.push(
                    IngredientRow { id: id as i64, name, energy_density },
                )
            }),
            final(s).categories == old(s).categories,
            final(s).recipes == old(s).recipes,
            final(s).recipes_categories == old(s).recipes_categories,
            final(s).recipes_versions == old(s).recipes_versions,
            final(s).recipes_ingredients == old(s).recipes_ingredients,
            final(s).recipes_instructions == old(s).recipes_instructions,
    {
        let id = next_ingredient_id(s);
        s.ingredients.push(IngredientRow { id, name, energy_density });
        proof {
            let rows = old(s).ingredients@;
            let now = s.ingredients@;
            assert forall|i: int, j: int|
                0 <= i < j < now.len() implies (#[trigger] now[i]).id < (#[trigger] now[j]).id by {
                if j == rows.len() {
                    lemma_max_ingredient_id_ge(rows, i);
                }
            }
        }
        Ok(id)
    }
}

/// Computes the identifier the allocator hands to the next ingredient: the
/// maximum existing identifier plus one, or 0 for an empty table.
fn next_ingredient_id(s: &Store) -> (id: i64)
    requires
        next_id_of(max_ingredient_id(s.ingredients@)) < i64::MAX,
    ensures
        id == next_id_of(max_ingredient_id(s.ingredients@)),
{
    let n = s.ingredients.len();
    let mut acc: Option<i64> = None;
    let mut i: usize = 0;
    while i < n
        invariant
            i <= n,
            n == s.ingredients@.len(),
            acc == max_ingredient_id(s.ingredients@.take(i as int)),
        decreases n - i,
    {
        proof {
            assert(s.ingredients@.take(i + 1).drop_last() =~= s.ingredients@.take(i as int));
            assert(s.ingredients@.take(i + 1).last() == s.ingredients@[i as int]);
        }
        let row_id = s.ingredients[i].id;
        acc = match acc {
            None => Some(row_id),
            Some(m) => Some(
                if row_id >= m {
                    row_id
                } else {
                    m
                },
            ),
        };
        i += 1;
    }
    proof {
        assert(s.ingredients@.take(n as int) =~= s.ingredients@);
    }
    match acc {
        None => 0,
        Some(m) => m + 1,
    }
}

impl Model for Ingredient {
    type ID = i64;

    /// The first `ingredients` row with this identifier, or `NotFound`.
    open spec fn get_spec(s: Store, id: i64) -> Result<IngredientV, Error> {
        match first_where(s.ingredients@, ingredient_has_id(id)) {
            Some(row) => Ok(
                IngredientV { id, name: row.name@, energy_density: row.energy_density },
            ),
            None => Err(Error::NotFound),
        }
    }

    /// An ingredient owns no references: resolution returns it unchanged.
    open spec fn fill_spec(v: IngredientV, s: Store) -> Result<IngredientV, Error> {
        Ok(v)
    }

    fn get(s: &Store, id: i64) -> (r: Result<Ingredient, Error>) {
        let n = s.ingredients.len();
        let mut i: usize = 0;
        proof {
            lemma_first_where_skip_all(s.ingredients@, ingredient_has_id(id));
        }
        while i < n
            invariant
                i <= n,
                n == s.ingredients@.len(),
                first_where(s.ingredients@, ingredient_has_id(id)) == first_where(
                    s.ingredients@.skip(i as int),
                    ingredient_has_id(id),
                ),
            decreases n - i,
        {
            if s.ingredients[i].id == id {
                proof {
                    lemma_first_where_found(s.ingredients@, ingredient_has_id(id), i as int);
                }
                let name = s.ingredients[i].name.clone();
                let energy_density = s.ingredients[i].energy_density;
                return Ok(Ingredient { id, name, energy_density });
            }
            proof {
                lemma_first_where_step(s.ingredients@, ingredient_has_id(id), i as int);
            }
            i += 1;
        }
        proof {
            assert(s.ingredients@.skip(n as int) =~= Seq::<IngredientRow>::empty());
        }
        Err(Error::NotFound)
    }

    fn fill_refs(&mut self, s: &Store) -> (r: Result<(), Error>) {
        Ok(())
    }
}

} // verus!
