//! Renders the events of a Markdown document back to Markdown.
//!
//! [`cmark()`] writes a whole document. [`cmark_resume()`] writes a part of one and returns the
//! [`State`] from which the rest can be written. Both come in a form that takes [`Options`].
//!
//! The text that is written is given by [`model`], and what holds of it by [`laws`].
pub mod event;
pub mod laws;
mod lines;
pub mod model;
pub mod options;
pub mod padding;
pub mod render;
pub mod state;
mod tags;
pub mod text;
pub mod write;

pub use crate::event::{Alignment, CodeBlockKind, Event, HeadingLevel, LinkType, Tag};
pub use crate::options::Options;
pub use crate::padding::Padding;
pub use crate::render::{
    cmark, cmark_resume, cmark_resume_with_options, cmark_with_options, is_renderable,
};
pub use crate::state::State;
pub use crate::write::Write;
