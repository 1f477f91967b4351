//! Type inference for a small line-oriented contract language.
//!
//! A body of text is read line by line; declarations and assignments in it
//! fix the types of local variables, of the `lambda` parameters and of the
//! contract-level state variables. The accumulated state is then rendered
//! as source text.
//!
//! - [`text`] and [`decimal`]: text as a sequence of characters;
//! - [`types`]: the types and their spelling, with the laws of the
//!   spelling in [`spelling_laws`];
//! - [`table`]: the tables that the state is made of;
//! - [`generator`]: the state and the rules by which a line changes it;
//! - [`render`]: the source text that the state stands for;
//! - [`service`] and [`abi`]: what the service around the generator
//!   answers, and what it takes out of the compiler's output.
pub mod abi;
pub mod decimal;
pub mod error;
pub mod generator;
pub mod render;
pub mod service;
pub mod spelling_laws;
pub mod table;
pub mod text;
pub mod types;

pub use error::{ErrorKind, GeneratorError};
pub use generator::{ContractGenerator, Visbility};
pub use table::NameTable;
pub use types::PrimitiveSolidityType;
