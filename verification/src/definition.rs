//! The workflow definition language: the text that declares a workflow's
//! nodes, its start node, its context type and the edges between nodes.
//!
//! ```text
//! pub struct Name<G> {
//!     #[retry = policy] node: NodeType,
//!     policy: RetryPolicy,
//! }
//! start = node;
//! context = Ctx;
//! edges {
//!     node => [other];
//!     node on_failure => { [fallback] };
//!     other => { Action::Done(value) if value.ok() => [last]; Action::Stop => []; };
//! }
//! ```
//!
//! Text is first cut into tokens ([`token`]), then read by a
//! recursive-descent grammar ([`grammar`] states it, [`parser`] runs it);
//! the edges are gathered per source node ([`edges`]). [`plan`] derives
//! what a workflow needs from a parsed definition: its work-item variants,
//! its terminal node and its graph in DOT form.
pub mod token;
pub mod ast;
pub mod edges;
pub mod grammar;
pub mod parser;
pub mod plan;
pub mod laws;
pub mod route;
