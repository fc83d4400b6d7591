//! Authorization tokens made of signed blocks of Datalog facts and rules.
//!
//! A token starts as an authority block, which states the rights that it gives. Whoever holds a
//! token can append blocks, whose caveats restrict what the token is good for. A verifier checks a
//! token with facts, rules and caveats of its own.
//!
//! Signing, encoding and Datalog evaluation are done by functions that the caller hands in. What
//! is decided around them stands here, with contracts that hold for whatever they return.
//!
//! What holds across operations is stated in `laws`, `block_laws`, `round_trips` and `growth`. What
//! each operation gives, told by places, characters and calls alone, is stated in `plain_values`,
//! `plain_worlds`, `plain_tokens`, `plain_checks` and `plain_texts`.
pub mod block;
pub mod block_laws;
pub mod check;
pub mod growth;
pub mod laws;
pub mod plain_checks;
pub mod plain_tokens;
pub mod plain_texts;
pub mod plain_values;
pub mod plain_worlds;
pub mod print;
pub mod round_trips;
pub mod symbols;
pub mod terms;
pub mod text;
pub mod token;
pub mod world;

pub use crate::block::Block;
pub use crate::symbols::{default_symbol_table, SymbolTable};
pub use crate::terms::{Constraint, ConstraintKind, Fact, Predicate, Rule, ID};
pub use crate::token::{Biscuit, BlockBuilder, SealedBiscuit, SerializedBiscuit};
pub use crate::world::{Engine, World};
