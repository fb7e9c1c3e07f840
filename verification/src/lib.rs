//! A dependently typed lambda calculus: named terms with a type checker, and a
//! de Bruijn core language with beta reduction, simplification and type inference.
pub mod named;
pub mod text;
pub mod union_find;
pub mod lang;
pub mod parser;
pub mod coc;
pub mod desugar;
