pub mod term;
pub mod beta_eq;
pub mod type_check;
pub mod span;
pub mod parse_error;
