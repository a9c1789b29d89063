//! The decision-making core of an interactive command shell: argument
//! parsing, redirection, pipelines, builtin dispatch, line editing,
//! completion and history, each stated and proved over plain values.

pub mod text;
pub mod builtins;
pub mod parser;
pub mod command;
pub mod history;
pub mod completion;
pub mod editor;
pub mod cd;
pub mod paths;
pub mod files;
