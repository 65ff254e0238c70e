//! DynamoDB notions that the rest of the crate builds on.
pub mod key;
pub mod table;
