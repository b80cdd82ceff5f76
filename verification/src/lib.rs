//! Markdown documents rendered as Gemtext and served over the Gemini protocol.

pub mod event;
pub mod front_matter;
pub mod gemtext;
pub mod markgem;
pub mod request;
pub mod serve;
