//! The transactor: what a transaction does to a store.

pub mod bootstrap;
pub mod cache;
pub mod cascade;
pub mod classes;
pub mod laws;
pub mod model;
pub mod normalize;
pub mod observer;
pub mod reflect;
pub mod resolve;
pub mod store;
pub mod upsert;
