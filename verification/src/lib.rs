//! Verification of refactorings by equality saturation.
//!
//! Two versions of a computation go in: as s-expressions, as data flow graphs
//! in single-assignment form, or as Python sources of a small subset. What
//! comes out is a verdict on their equivalence, found by rewriting within
//! fixed bounds.
//!
//! ```text
//! frontend_python   source          -> graph
//! canonical         graph           -> graph, parameters first, by name
//! ssa_bridge        value of graph  -> term
//! engine            two terms       -> verdict
//! ```
//!
//! Every function states what it does in its contract. What holds of several
//! functions together is stated by the public proof functions whose names
//! begin with `law_`: that the rewrite rules are identities of integers and of
//! truth values, that lowering preserves meaning, and hence that an
//! equivalence is one.
//!
//! The saturation engine and the parser are the crates `egg` and
//! `tree-sitter`; what is relied on of them is stated in [`egraph`] and
//! [`concrete_syntax`], and of the clock in [`time`].

pub mod canonical;
pub mod concrete_syntax;
pub mod dfg;
pub mod e2e_proof;
pub mod egraph;
pub mod engine;
pub mod frontend_python;
pub mod jobs;
pub mod limits;
pub mod python_api;
pub mod python_semantics;
pub mod python_syntax;
pub mod rules;
pub mod ssa;
pub mod ssa_bridge;
pub mod telemetry;
pub mod terms;
pub mod text;
pub mod time;
pub mod verifier_config;
