//! Core domain logic of the Komga server: the task queue, the runtime event log,
//! transient books, thumbnails helpers and the web UI updater decisions.
mod text;
pub mod task_queue;
pub mod runtime_events;
pub mod webui;
pub mod thumbnails;
pub mod transient_books;
pub mod media_analysis;
pub mod devices;
pub mod settings;
pub mod routing;

pub use text::{trim_text, is_whitespace_char};
