//! Previews by the kind of file.
pub mod image_preview;
pub mod svg_preview;
pub mod text_file_preview;
