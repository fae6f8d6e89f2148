//! The core of a `sudo`: a policy that says who may run which command as
//! whom, the judgement on a request, and the environment that the command is
//! given.
//!
//! - [`sudoers::parse`] reads the text of a policy,
//! - [`evaluate::evaluate`] judges a request by it,
//! - [`env::build_environment`] builds the environment of the command,
//! - [`su::cli`] reads the command line of `su`.
//!
//! What each of them computes is stated in its contract, over models of the
//! data, and proved.

pub mod analysis;
pub mod ast;
pub mod basic_parser;
pub mod env;
pub mod evaluate;
pub mod glob;
pub mod policy;
pub mod settings;
pub mod su;
pub mod sudoers;
pub mod text;
pub mod tokens;
