//! Closure-signature deduction for a bidirectional type-inference engine,
//! with the unification table it drives.
pub mod ty;
pub mod subst;
pub mod table;
pub mod closure;
pub mod syntax_kind;
pub mod make;
pub mod join_lines;
pub mod range;
pub mod insert_use;
