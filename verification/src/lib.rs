//! Unique random tickets drawn from a configurable alphabet, laid out as a
//! one-column CSV document.

pub mod alphabet;
pub mod decimal;
pub mod encoding;
pub mod error;
pub mod form;
pub mod reading;
pub mod run;
pub mod space;
pub mod text;
pub mod token;
