//! Support for AI agents over the Model Context Protocol: the tools a Runfile offers, how
//! a call's named arguments become positional ones, and how requests are dispatched.
pub mod handlers;
pub mod mapping;
pub mod tools;
