//! Placeholder resolution for text templates.
//!
//! A template line may hold tokens of the form `<<key>>`. Each token is looked
//! up in a secret store and replaced by the secret's value; a token whose
//! lookup fails stays in the line exactly as it was written.

pub mod grammar;
pub mod json;
pub mod laws;
pub mod populate;
pub mod render;
pub mod scanner;
pub mod store;
pub mod text;
