//! Parsing, formatting, sorting and validation of `.env`-style configuration
//! text: lines `KEY=VALUE` among comments and blank lines, with inline
//! comments, `export` prefixes and `${NAME}` references.
//!
//! The text of a file goes through [`parser`] and comes out as a sequence of
//! line records. [`formatters`], [`sorter`] and [`validator`] each take such
//! a sequence; [`cli`] ties a command to what it prints and writes. Every
//! function states what it returns over a mathematical model of its
//! arguments. The modules whose names end in `_laws`, and [`round_trip`],
//! hold what is proved of these models.

pub mod cli;
pub mod formatter_laws;
pub mod formatters;
pub mod order;
pub mod order_laws;
pub mod parser;
pub mod parser_laws;
pub mod references;
pub mod reparse_laws;
pub mod round_trip;
pub mod scan_laws;
pub mod sorter;
pub mod sorter_laws;
pub mod text;
pub mod text_laws;
pub mod validator;
pub mod validator_laws;
