//! Backend-neutral capability traits for storing identifiable entities,
//! with pagination and sort values, and an in-memory store that implements
//! every capability.
pub mod capability;
pub mod laws;
pub mod memory;
pub mod page;

pub use capability::{Create, Crud, Delete, Entity, Read, ReadWithPaginationAndSort, Update};
pub use memory::{MemoryStore, StoreError};
pub use page::{Page, Sort};
