//! Compiler and matcher for the CSS value definition syntax, the registry of
//! property, function and shared-type grammars, and the DOM node records of
//! the HTML parser.

pub mod text;
pub mod value;
pub mod syntax;
pub mod matcher;
pub mod compile;
pub mod table;
pub mod definitions;
pub mod node;
pub mod token_states;
pub mod laws;
