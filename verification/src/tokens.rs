pub mod instructions;
pub mod label;
pub mod token;
