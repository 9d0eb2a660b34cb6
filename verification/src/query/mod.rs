//! Answers to queries over the live datoms of a store.
//!
//! A query is answered clause by clause. The answer so far is a list of
//! bindings of variables to values. A pattern extends each binding by each
//! datom that it matches, in the order of the datoms; a predicate keeps
//! the bindings for which it holds. What is found is then read off the
//! bindings, each row once.

pub mod answers;
pub mod bindings;
pub mod laws;
pub mod run;
