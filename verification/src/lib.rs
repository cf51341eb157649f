//! Storage and bookkeeping logic of the BastionAI server: length-prefixed
//! object streams, authenticated artifacts, and the artifact registry.

pub mod sized_objects;
pub mod artifact;
pub mod store;
pub mod names;
