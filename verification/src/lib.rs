pub mod anal;
pub mod ast;
pub mod ast_opt;
pub mod collections;
pub mod hoist;
pub mod ir;
pub mod opt;
pub mod print;
pub mod scope;
pub mod ssa;
pub mod traverse;
pub mod visit;
