//! Routing and translation core of a language-model API gateway.
//!
//! The gateway sits in front of several chat-completion backends and presents
//! one canonical chat-completion interface. This library holds the parts that
//! decide: configuration lookups and validation, the bounded traffic record,
//! the schema translators for Messages-style providers, the sufficiency
//! heuristic and the routing decisions of the Dispatch and Escalate modes.
//! The HTTP exchanges themselves are made by the caller.

pub mod backends;
pub mod config;
pub mod error;
pub mod json;
pub mod messages;
pub mod router;
pub mod service;
pub mod text;
pub mod traffic;

pub use config::Config;
pub use error::{AppError, ErrorKind, GatewayError};
pub use json::{Json, JsonNumber};
pub use traffic::{TrafficEntry, TrafficLog};
