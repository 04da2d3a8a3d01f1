//! Core of a deployment tool: which nodes an invocation applies to, how the
//! output of an external command is captured, and where the configuration
//! is found.

pub mod capture;
pub mod execution;
pub mod locator;
pub mod node;
pub mod pattern;
pub mod selector;
pub mod selector_laws;
pub mod text;
