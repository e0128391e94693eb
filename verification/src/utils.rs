pub mod check;
pub mod examples;
pub mod symbol_table;
