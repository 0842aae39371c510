//! Renders a message inside a rectangular frame of border and margin cells.
pub mod border;
pub mod options;
pub mod text;

pub use border::create_text_border;
pub use options::TextBorderOptions;
