//! The capabilities a storage backend can offer, each usable on its own, and
//! their composition into full CRUD.
use vstd::prelude::*;
use vstd::pervasive::strictly_cloned;
use crate::page::{Page, Sort};

verus! {

/// Represents an entity that can be stored in the system.
/// You have to implement this trait for your custom type to be able to store it.
/// Keep in mind that different implementations may require additional type constraints.
pub trait Entity<IdType>: Clone + core::fmt::Debug + Sized {
    /// The identity key of this value.
    spec fn id(&self) -> IdType;

    /// Returns the identity key; equal values always give equal keys.
    fn get_id(&self) -> (r: IdType)
        ensures
            r == self.id(),
    ;

    /// Entities have value-copy semantics: a duplicate is the same value.
    proof fn lemma_clone_is_copy(a: Self, b: Self)
        requires
            strictly_cloned(a, b),
        ensures
            a == b,
    ;
}

/// Represents ability to save entity in the storage.
/// This trait is used by custom storage implementations.
pub trait Create<I, E: Entity<I>> {
    type Error;

    fn save(&mut self, entity: &E) -> Result<(), Self::Error>;
}

/// Represents the ability to find single entity by its id in the system.
/// This trait is used by custom storage implementations.
pub trait Read<I, E: Entity<I>> {
    type Error;

    fn find_by_id(&self, id: &I) -> Result<E, Self::Error>;
}

/// Represents the ability to list items with pagination and sorting.
/// This trait is used by custom storage implementations.
pub trait ReadWithPaginationAndSort<I, E: Entity<I>> {
    type Error;

    fn find_all_with_page(&self, page: &Page) -> Result<Vec<E>, Self::Error>;

    fn find_all_with_page_and_sort(&self, page: &Page, sort: &Sort) -> Result<Vec<E>, Self::Error>;
}

/// Represents the ability to update the entity.
/// This trait is used by custom storage implementations.
pub trait Update<I, E: Entity<I>> {
    type Error;

    fn update(&mut self, entity: &E) -> Result<(), Self::Error>;
}

/// Represents the ability to remove the entity from the storage.
/// This trait is used by custom storage implementations.
pub trait Delete<I, E: Entity<I>> {
    type Error;

    fn remove_by_id(&mut self, id: &I) -> Result<(), Self::Error>;

    fn remove(&mut self, entity: &E) -> Result<(), Self::Error>;
}

/// A backend offering every capability.
pub trait Crud<I, E: Entity<I>>: Create<I, E> + Read<I, E> + ReadWithPaginationAndSort<
    I,
    E,
> + Update<I, E> + Delete<I, E> {

}

} // verus!
