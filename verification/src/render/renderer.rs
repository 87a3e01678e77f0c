//! The `Renderer` trait — the interface between handlers and any HTML backend.
//!
//! Handlers depend only on this trait. Swapping the template engine (or a
//! JSON serialiser, or a test stub) requires changing only the
//! implementation and where it is created.

use vstd::prelude::*;

use crate::render::views::PageView;

verus! {

/// Why a page could not be rendered; the text says what failed.
#[derive(Debug)]
pub struct RenderError {
    pub message: String,
}

pub trait Renderer: Send + Sync {
    fn render(&self, view: PageView) -> Result<String, RenderError>;
}

} // verus!
