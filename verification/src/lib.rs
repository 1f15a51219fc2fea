pub mod attrs;
pub mod balance;
pub mod diagnostics;
pub mod laws;
pub mod layout;
pub mod outcome;
pub mod solidity_error;
pub mod steps;
pub mod storage;
pub mod syntax;
pub mod text;
pub mod tokens;
pub mod written;
