pub mod expr;
pub mod patterns;
pub mod render;
pub mod scope;
pub mod eval;
pub mod semantics;
pub mod laws;
pub mod behaviour;
