//! Text: the parser of `.fnt` font descriptions and the alignment
//! settings of rendered text.
pub mod chars;
pub mod font;
pub mod text_renderer;
