//! A payment-routing simulation harness.
//!
//! A sampler draws synthetic transactions from a weighted configuration tree,
//! a merchant filter restricts each of them to the connectors that support it,
//! a routing policy picks one connector, an evaluator draws the outcome from
//! the connector's configured success rate, and a recorder aggregates the
//! outcomes per connector and payment method.
//!
//! Everything in this crate is verified. Randomness, JSON text and header
//! validation come from other crates through a small number of functions
//! whose contracts are assumed; each of them says so in its documentation.

mod cells;
pub mod context;
pub mod evaluator;
pub mod grpc_clients;
pub mod harness;
pub mod json;
pub mod key;
pub mod merchant;
pub mod metrics;
pub mod random;
pub mod recorder;
pub mod routing;
pub mod sampler;
pub mod text;
pub mod types;

