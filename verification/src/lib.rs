//! Wrapping text in Markdown fences or `<paste>` tags and taking such wrappers
//! off again, with the request and reply formats of the clipboard daemon.
pub mod decimal;
pub mod text;
pub mod wire;
pub mod wrapping;
pub mod laws;
pub mod protocol;
pub mod client;
pub mod clipboard;
pub mod protocol_laws;
pub mod command_laws;
pub mod registry;

pub use wrapping::{
    detect_wrapped_format, longest_backtick_run, transform_clipboard_for_paste, unwrap_auto,
    wrap_content, Format, WrappedFormat,
};
