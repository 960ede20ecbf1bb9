//! Verified core of a wimlib front end: the text, number and path logic
//! that decides what the tool asks wimlib to do and what it reports.

pub mod cli;
pub mod error;
pub mod order;
pub mod parse;
pub mod paths;
pub mod progress;
pub mod text;
pub mod types;
pub mod util;
pub mod wide;
