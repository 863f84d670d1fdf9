//! A formatter for GSC scripts: a lexer that turns source text into tokens,
//! and a layout engine that prints the tokens back with normalised spacing,
//! indentation and blank lines.
pub mod text;
pub mod lexer;
pub mod lexspec;
pub mod emitspec;
pub mod formatter;
pub mod tidy;
pub mod diff;
pub mod lexlaws;
pub mod emitlaws;
pub mod tidylaws;
pub mod formatlaws;
pub mod difflaws;
