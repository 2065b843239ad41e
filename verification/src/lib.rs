//! Rendering, command-line and serving logic of a Markdown reader.

pub mod chars;
pub mod math;
pub mod html;
pub mod markdown;
pub mod cli;
pub mod base64;
pub mod url;
pub mod server;
pub mod page;
pub mod browser;
