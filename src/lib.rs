//! A small password generator: command-line option parsing into a validated
//! configuration, and generation of random strings over the alphabet that the
//! configuration selects.
pub mod decimal;
pub mod options;
pub mod generator;
pub mod usage;
