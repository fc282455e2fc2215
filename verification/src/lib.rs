//! A verified core for a small HTTP backend that exposes CRUD operations over
//! user-owned resources ("cats"), plus the pure parts of an address-intelligence
//! passthrough endpoint.
//!
//! The library holds everything that can be stated and proved: the error
//! taxonomy and its mapping to HTTP statuses, the object-id codec, the
//! pagination calculator, the response envelope builder, and the resource
//! service itself, modelled over an in-memory collection scoped by the owning
//! user. Transport, persistence and the third-party HTTP call are external
//! collaborators: they hand this core plain values and take plain values back.

pub mod arkham;
pub mod cat;
pub mod errors;
pub mod object_id;
pub mod pagination;
pub mod records;
pub mod response;
pub mod service;
pub mod token;
