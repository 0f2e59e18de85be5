//! An in-memory to-do list: an ordered store of items with create, list,
//! toggle and remove, and the request handlers that answer over it.

pub mod ident;
pub mod item;
pub mod laws;
pub mod model;
pub mod service;
pub mod store;
