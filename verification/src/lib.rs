//! A condition-gated command dispatcher.

pub mod course;
pub mod dispatcher;
pub mod gate;
pub mod job;
pub mod lines;
pub mod logger;
pub mod order;
pub mod runner;
pub mod text;
