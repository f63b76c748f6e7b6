pub mod builders;
pub mod errors;
pub mod instructions;
pub mod scope;
pub mod expressions;
