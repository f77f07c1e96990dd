//! Scripted editing sessions: the document that each editor keeps, the script
//! language, and the run of a script against a set of editors.

pub mod diagnostics;
pub mod document;
pub mod language;
pub mod parser;
pub mod promises;
pub mod report;
pub mod runner;
pub mod spoke;
pub mod wording;
