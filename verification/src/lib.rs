//! A verified engine for a CSV restructuring tool.
//!
//! A small configuration language describes the shape of each output row:
//! cell references piped through string filters, literals, and conditional
//! expressions. This crate parses that language and evaluates it against
//! input rows, with contracts stating exactly what each step produces.
//! Reading and writing files is the caller's business; the library works on
//! rows of strings.

pub mod chars;
pub mod cli;
pub mod config;
pub mod csv;
pub mod errors;
pub mod filter;
pub mod laws;
pub mod num;
pub mod process;

pub use chars::is_space;
pub use chars::lower_of;
pub use chars::upper_of;
pub use cli::CliColor;
pub use cli::Settings;
pub use cli::help;
pub use cli::usage;
pub use config::Condition;
pub use config::Item;
pub use config::OutputConfig;
pub use csv::CsvParser;
pub use csv::export;
pub use csv::quote_csv_cell;
pub use csv::rows_from_text;
pub use errors::CliError;
pub use errors::ConfigError;
pub use errors::ErrorStages;
pub use errors::EvalError;
pub use filter::Filter;
pub use num::Number;
