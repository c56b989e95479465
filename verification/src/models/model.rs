//! The capability every retrievable entity type implements: fetch by
//! identity and one-level reference resolution.
//!
//! Contracts are stated over each entity's mathematical view (`View::V`):
//! `get_spec` says what fetch-by-identity returns, `fill_spec` what
//! one-level resolution turns a value into.

use vstd::prelude::*;

use crate::error::Error;
use crate::store::Store;

verus! {

/// A data type that can be retrieved from the store by identity.
pub trait Model: Sized + View {
    /// The type of identity that addresses a value of this type.
    type ID: Copy;

    /// What `get` returns: the functional model of fetch-by-identity.
    spec fn get_spec(s: Store, id: Self::ID) -> Result<Self::V, Error>;

    /// What `fill_refs` turns a value into: the functional model of
    /// resolving the references the value directly owns, one level deep.
    spec fn fill_spec(v: Self::V, s: Store) -> Result<Self::V, Error>;

    /// Attempts to retrieve the model of this type with the ID `id` from
    /// the store.
    fn get(s: &Store, id: Self::ID) -> (r: Result<Self, Error>)
        requires
            s.wf(),
        ensures
            match Self::get_spec(*s, id) {
                Ok(v) => r matches Ok(model) && model@ == v,
                Err(e) => r matches Err(actual) && actual == e,
            },
    ;

    /// Eagerly retrieves all data referenced by this model.
    ///
    /// When creating a model with `Model::get`, models may not actually
    /// retrieve all referenced submodels. Calling this method will retrieve
    /// all directly referenced submodels -- exactly one level deep.
    fn fill_refs(&mut self, s: &Store) -> (r: Result<(), Error>)
        requires
            s.wf(),
        ensures
            match Self::fill_spec(old(self)@, *s) {
                Ok(v) => r is Ok && final(self)@ == v,
                Err(e) => r matches Err(actual) && actual == e,
            },
    ;

    /// Attempts to retrieve the model of this type with the ID `id` and its
    /// submodels from the store: `get`, followed by `fill_refs` if the call
    /// to `get` succeeds, failing if either step fails.
    fn get_filled(s: &Store, id: Self::ID) -> (r: Result<Self, Error>)
        requires
            s.wf(),
        ensures
            match Self::get_spec(*s, id) {
                Ok(v) => match Self::fill_spec(v, *s) {
                    Ok(filled) => r matches Ok(model) && model@ == filled,
                    Err(e) => r matches Err(actual) && actual == e,
                },
                Err(e) => r matches Err(actual) && actual == e,
            },
    {
        match Self::get(s, id) {
            Ok(mut model) => match model.fill_refs(s) {
                Ok(()) => Ok(model),
                Err(e) => Err(e),
            },
            Err(e) => Err(e),
        }
    }
}

/// What `get_filled` returns, over views: a fetch, then one-level
/// resolution of the fetched value.
pub open spec fn get_filled_spec<M: Model>(s: Store, id: M::ID) -> Result<M::V, Error> {
    match M::get_spec(s, id) {
        Ok(v) => M::fill_spec(v, s),
        Err(e) => Err(e),
    }
}

} // verus!
