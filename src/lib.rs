//! Local judge for programming exercises: fixture pairing, verdicts and
//! reporting, plus the small grammars used to fetch and store fixtures.

pub mod error;
pub mod file;
pub mod judge;
pub mod login;
pub mod parser;
pub mod report;
pub mod request;
pub mod text;
