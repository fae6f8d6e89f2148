//! The `su` front end: what its command line asks for.

pub mod cli;
