pub mod glyph;
pub mod term;
