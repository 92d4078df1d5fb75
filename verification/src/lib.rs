//! A small verified core for a book-collection CRUD service: the JSON
//! request/response format, the error-to-status mapping, and an in-memory
//! model of the collection with unique server-assigned identifiers.
//!
//! The collection is held in process memory, not in an external document
//! database: nothing persists across restarts, and of the failure taxonomy
//! the connection kind is mapped but never produced here. A database-backed
//! deployment would put a driver behind the same store interface and
//! surface its failures through `error::Error`.
pub mod book;
pub mod clock;
pub mod error;
pub mod handler;
pub mod json;
pub mod laws;
pub mod store;
pub mod num;
pub mod text;
