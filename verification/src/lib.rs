//! Symbol database, digest parsing and editor analyses for the Verse language.
pub mod text;
pub mod lexer;
pub mod symbol;
pub mod pattern;
pub mod parser;
pub mod database;
pub mod util;
pub mod definition;
pub mod hover;
pub mod signature_help;
pub mod completion;
pub mod diagnostics;
pub mod workspace;
pub mod documents;
pub mod requests;
