//! A small server-rendered article site: Markdown articles with optional
//! front matter are parsed into a document model, paginated, and turned into
//! view models for an HTML template.

pub mod config;
pub mod deep_copy;
pub mod domain;
pub mod text;
pub mod render;
pub mod repository;
pub mod server;
