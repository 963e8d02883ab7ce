//! Versioned kitty records, the schema migrations between their encodings, and a
//! proof-of-existence claim registry.
pub mod kitty;
pub mod store;
pub mod migrations;
pub mod poe;
