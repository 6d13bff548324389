//! A terminal document reader's core: the bookmark (outline) tree with its
//! navigation, the page cache with its prefetch queue, and the decisions the
//! interactive loop takes on each event.
pub mod text;
pub mod decode;
pub mod pdf;
pub mod outline;
pub mod navigation;
pub mod event;
pub mod cache;
pub mod app;
pub mod handler;
pub mod image;
pub mod args;
