//! A front end for mathematical equations.
//!
//! The text of an equation, such as `2sin(x)+log(y,10)`, becomes an
//! expression tree in three stages. The tokenizer cuts the text into raw
//! tokens that name places in the text. The resolver checks numbers, cuts
//! out names, looks up functions and writes out the multiplications that
//! juxtaposition implies. The builder assembles the resolved tokens into a
//! tree by the binding of the operators, and holds the nodes of the tree in
//! an arena, where a node refers to its operands by handle.
//!
//! Numbers are kept as the text that spells them: what value a number has
//! is for the caller to say.
//!
//! Every stage is stated as a function on sequences of characters or
//! tokens, and the code of the stage is proved to compute that function.
//! The modules `laws` and `roundtrip` hold what follows from the
//! statements: how operators fold, how scopes pair, and that an expression
//! written down in infix notation parses back to itself.
pub mod ast;
pub mod builder;
pub mod chars;
pub mod error;
pub mod laws;
pub mod pipeline;
pub mod printer;
pub mod resolver;
pub mod roundtrip;
pub mod tokenizer;
pub mod tree;
pub mod written;

pub use ast::{FunctionType, Operator, ParenthesisType, RawSyntax, Syntax};
pub use builder::third_parse;
pub use error::EquationParseError;
pub use pipeline::parse;
pub use printer::render;
pub use resolver::second_parse;
pub use tokenizer::first_parse;
pub use tree::{Entity, Expression, Function, Operation};
