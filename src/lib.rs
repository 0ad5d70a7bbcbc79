//! Scheme IPC: a user-space provider serves a URL namespace; clients'
//! file calls become requests that the provider reads and completes, with
//! the clients' buffers aliased into the provider's address space.

pub mod registry;
pub mod scheme;
pub mod vec;
