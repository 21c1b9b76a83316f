//! The precompilation passes: command-line arguments and in-source
//! directives both feed the configuration mapping before anything else
//! runs.

pub mod argumentprocessor;
pub mod preprocessor;
