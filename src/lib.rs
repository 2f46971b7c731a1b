//! Templated command lines: compile a template against named parameters,
//! tokenize the compiled command, classify what the child process produced
//! and map it to a job status and message.
pub mod command;
pub mod job;
pub mod laws;
pub mod template;
pub mod text;
