//! Pattern-match lowering for a small functional core language.
//!
//! Surface matches may leave constructor fields and the numeric predecessor
//! unnamed. This library makes those binders explicit, validates algebraic
//! matches against the constructor registry, and lowers every match into
//! freshly minted top-level definitions.
pub mod term;
pub mod names;
pub mod registry;
pub mod validate;
pub mod desugar;
pub mod subst;
pub mod lower;
pub mod simplify;
pub mod book;
pub mod laws;
