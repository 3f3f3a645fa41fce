//! Interaction-net evaluator for closed lambda-calculus terms.
//!
//! A term is parsed into a [`tree::Tree`], compiled into an interaction net
//! ([`net::Net`]) — a port graph whose local rewrite rules implement
//! beta-reduction, sharing and garbage collection — and reduced one local
//! rewrite at a time.  A snapshot form ([`snapshot`]) mirrors the graph
//! document exchanged with a visualising host.

pub mod builder;
pub mod edge;
pub mod lexer;
pub mod parser;
pub mod reduce;
pub mod snapshot;
pub mod net;
pub mod tree;
