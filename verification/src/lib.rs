//! A verified model of a small book-record service.
//!
//! The crate models the persistence layer of a book catalogue — a store of
//! `(id, title, author)` records with list, get, create, update and delete
//! operations — together with the validation and HTTP routing rules that
//! sit on top of it. Every operation carries a contract describing its
//! effect on the abstract store contents, a map from id to record.

pub mod book;
pub mod errors;
pub mod http;
pub mod laws;
pub mod order;
pub mod service;
pub mod store;
