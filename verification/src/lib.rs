//! Request dispatch and authorization core.
//!
//! Given an inbound REST request (method, path, payload, optional bearer
//! token) or an inbound channel message (channel name, instruction, payload),
//! the library resolves it to exactly one handler, enforces authentication
//! where required, and normalizes the outcome into a uniform response shape.
//! Transport, connection lifecycle and delivery are external collaborators.

pub mod json;
pub mod response;
pub mod codec;
pub mod auth;
pub mod rest;
pub mod socket;
