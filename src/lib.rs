pub mod config;
pub mod error;
pub mod headers;
pub mod html;
pub mod relay;
pub mod rewrite;
