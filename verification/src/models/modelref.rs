//! A reference to a model.
//!
//! The model is referenced using its internal ID.  At any point in time, a
//! `Ref` either holds a cached version of the referenced model (and its ID)
//! or holds only the ID.  The cached slot only ever moves from absent to
//! present.

use vstd::prelude::*;

use crate::error::Error;
use crate::models::model::Model;
use crate::store::Store;

verus! {

/// A deferred, cacheable pointer to another entity by identity.
pub struct Ref<M: Model> {
    /// The referenced model's internal ID.
    pub id: M::ID,
    /// The cached resolved value, if resolution has happened.  Verified
    /// operations only ever move this slot from absent to present.
    pub value: Option<M>,
}

/// The mathematical view of a reference: the identifier, and the view of
/// the cached value if one is present.
pub struct RefV<ID, V> {
    pub id: ID,
    pub value: Option<V>,
}

impl<M: Model> View for Ref<M> {
    type V = RefV<M::ID, M::V>;

    open spec fn view(&self) -> RefV<M::ID, M::V> {
        RefV {
            id: self.id,
            value: match self.value {
                Some(model) => Some(model.view()),
                None => None,
            },
        }
    }
}

impl<ID, V> RefV<ID, V> {
    /// A view that holds only the ID: how a freshly constructed reference
    /// looks.
    pub open spec fn unresolved(id: ID) -> RefV<ID, V> {
        RefV { id, value: None }
    }

    /// A view that holds the ID and a cached resolved value.
    pub open spec fn resolved(id: ID, value: V) -> RefV<ID, V> {
        RefV { id, value: Some(value) }
    }

    /// Whether the cached slot is filled.
    pub open spec fn is_resolved(self) -> bool {
        self.value is Some
    }
}

/// What resolving one reference turns it into: itself if a cached value is
/// present, otherwise the fetched target stored into the cache slot; the
/// identifier never changes.
pub open spec fn ref_fill_spec<M: Model>(r: RefV<M::ID, M::V>, s: Store) -> Result<
    RefV<M::ID, M::V>,
    Error,
> {
    if r.is_resolved() {
        Ok(r)
    } else {
        match M::get_spec(s, r.id) {
            Ok(v) => Ok(RefV::resolved(r.id, v)),
            Err(e) => Err(e),
        }
    }
}

impl<M: Model> Ref<M> {
    /// Creates a reference to a model with the ID `id`.
    ///
    /// The reference initially holds only the ID and not a cached version of
    /// the referenced model.
    pub fn new(id: M::ID) -> (r: Ref<M>)
        ensures
            r@ == RefV::<M::ID, M::V>::unresolved(id),
            r.id == id,
            r.value is None,
    {
        Ref { id, value: None }
    }

    /// The cached resolved value, if resolution has happened.
    pub fn cached_value(&self) -> (r: Option<&M>)
        ensures
            match r {
                Some(value) => self.value matches Some(v) && *value == v,
                None => self.value is None,
            },
    {
        self.value.as_ref()
    }

    /// Attempts to retrieve the referenced model from the store.
    ///
    /// If successful, the model is cached in this struct and returned.  A
    /// reference that already holds a cached value returns it without
    /// consulting the store.
    pub fn query<'a>(&'a mut self, s: &Store) -> (r: Result<&'a M, Error>)
        requires
            s.wf(),
        ensures
            match ref_fill_spec::<M>(old(self)@, *s) {
                Ok(filled) => {
                    &&& final(self)@ == filled
                    &&& final(self).id == old(self).id
                    &&& r matches Ok(value) && Some(value@) == filled.value
                },
                Err(e) => r matches Err(actual) && actual == e && *final(self) == *old(self),
            },
    {
        if self.value.is_some() {
            Ok(self.value.as_ref().unwrap())
        } else {
            match M::get(s, self.id) {
                Ok(value) => {
                    self.value = Some(value);
                    Ok(self.value.as_ref().unwrap())
                },
                Err(e) => Err(e),
            }
        }
    }

    /// Attempts to retrieve the referenced model from the store.
    ///
    /// If successful, the model is cached in this struct.
    pub fn fill(&mut self, s: &Store) -> (r: Result<(), Error>)
        requires
            s.wf(),
        ensures
            match ref_fill_spec::<M>(old(self)@, *s) {
                Ok(filled) => r is Ok && final(self)@ == filled && final(self).id == old(self).id,
                Err(e) => r matches Err(actual) && actual == e && *final(self) == *old(self),
            },
    {
        match self.query(s) {
            Ok(_) => Ok(()),
            Err(e) => Err(e),
        }
    }
}

/// A reference is immutable in its identifier, and its cached slot moves
/// only from absent to present: resolution never clears or replaces a
/// cached value.
pub proof fn lemma_ref_cache_one_way<M: Model>(r: RefV<M::ID, M::V>, s: Store)
    ensures
        ref_fill_spec::<M>(r, s) matches Ok(filled) ==> {
            &&& filled.id == r.id
            &&& filled.is_resolved()
            &&& r.is_resolved() ==> filled == r
        },
{
}

/// Resolution is idempotent: once a reference has resolved successfully,
/// resolving it again -- against any store, even one where the target has
/// since vanished -- performs no fetch and changes nothing.
pub proof fn lemma_resolve_idempotent<M: Model>(r: RefV<M::ID, M::V>, s1: Store, s2: Store)
    ensures
        ref_fill_spec::<M>(r, s1) matches Ok(filled) ==> ref_fill_spec::<M>(filled, s2) == Ok::<
            RefV<M::ID, M::V>,
            Error,
        >(filled),
{
}

} // verus!
