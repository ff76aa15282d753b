//! Rewrites documentation comments of Lua sources from the annotation
//! dialect of the Lua language server (`@param`, `@return`, `@class`, ...)
//! into LDoc's (`@tparam`, `@treturn`, `@module`, ...).
//!
//! The pipeline for one file: [`alias`] takes type alias blocks out of the
//! text; the structural parser (outside this library) turns the text into a
//! [`tree::SyntaxTree`]; [`assemble`] finds the comment runs that document a
//! statement and [`chunk`] parses them with the grammars of [`attr`] and
//! [`typexpr`]; [`group`] writes the chunks, module sections first; and
//! [`examples`] turns example blocks into `@usage` annotations.

pub mod text;
pub mod typexpr;
pub mod render;
pub mod attr;
pub mod tree;
pub mod chunk;
pub mod assemble;
pub mod group;
pub mod alias;
pub mod examples;
