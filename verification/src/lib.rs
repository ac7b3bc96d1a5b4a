//! Sign-In with Ethereum (EIP-4361) message model and verification engine.
//!
//! The library parses the canonical EIP-4361 text into a structured message,
//! serializes a structured message back to canonical text, and decides whether
//! a signature over that text is acceptable under domain, nonce and time-window
//! constraints.
pub mod address;
pub mod engine;
pub mod grammar;
pub mod hexnum;
pub mod laws;
pub mod model;
pub mod nonce;
pub mod text;
pub mod validity;

