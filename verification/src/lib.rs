//! A small query language for semi-structured documents.
//!
//! An expression such as `.users[]|.id,.name` is compiled into a tree of
//! steps, sets and groups, and the tree is then applied to a document:
//!
//! * [`lexer`] turns the text of an expression into tokens, and [`grammar`]
//!   says which steps the tokens write and which tree they build;
//! * [`parser`] builds the tree, and [`filter`] applies it;
//! * [`dataset`] holds the documents, and [`decode`] makes them of what a
//!   decoder found in a file.
//!
//! Every function comes with a contract over the mathematical value of what
//! it takes and returns, and Verus proves that its code keeps the contract.
//! The contracts that Verus takes on trust stand in [`std_specs`].

pub mod console;
pub mod dataset;
pub mod decode;
pub mod error;
pub mod filter;
pub mod grammar;
pub mod lexer;
pub mod number;
pub mod parser;
pub mod std_specs;

pub use dataset::{Data, DataView};
pub use error::Error;
pub use filter::{
    evaluate, DataStrategy, Filter, FilterExpression, FilterGroup, FilterSet, FilterType,
    Filterable,
};
pub use lexer::{Lexer, Token};
pub use parser::{compile, ExpressionParser};
