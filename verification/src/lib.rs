//! A single-line text input: its content, selection and IME marked range, the
//! editing operations on them, and the UTF-8/UTF-16 offset conversions they need.
pub mod behaviour;
pub mod document;
pub mod graphemes;
pub mod input;
pub mod laws;
pub mod model;
pub mod utf;
