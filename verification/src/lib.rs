pub mod json;
pub mod types;
pub mod text;
pub mod digest;
pub mod clock;
pub mod paths;
pub mod parser;
pub mod reader;
pub mod counter;
pub mod stats;
pub mod dto;
pub mod version;
pub mod install;
pub mod runtime;
pub mod store;
pub mod watch;
pub mod hooks;
