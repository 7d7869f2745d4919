//! A durable registry of saloons and the services they offer.
//!
//! Saloons live in stable memory, each as one record under the identifier
//! that the store issued for it. Anyone may read; only the caller who created
//! a saloon may change or delete it.
//!
//! - `model`: the records, the requests, the errors, and their views.
//! - `validate`: what a request has to hold.
//! - `messages`: the texts of the errors.
//! - `codec`: the byte layout of a record, with the proof that reading a
//!   record gives back the saloon that was written.
//! - `stable`: the stable-memory structures, which are trusted.
//! - `registry`: the registry as a mathematical object, and what each
//!   operation makes of it.
//! - `store`: the store in stable memory, read as a registry.
//! - `service`: the operations.
//! - `laws`: what holds of the registry whatever is done with it.

pub mod codec;
pub mod laws;
pub mod messages;
pub mod model;
pub mod registry;
pub mod service;
pub mod stable;
pub mod store;
pub mod validate;
