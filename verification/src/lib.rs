//! Song library, tab-row detection and scroll-sync planning for a
//! practice tool that scrolls a guitar/bass tab in time with a recording.

pub mod detect;
pub mod form;
pub mod library;
pub mod llm;
pub mod media;
pub mod model;
pub mod png;
pub mod session;
pub mod sync;
pub mod text;
