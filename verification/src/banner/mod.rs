//! The banner: a picture of text, boxes and letters, and how it reaches the
//! terminal.

pub mod bars;
pub mod canvas;
pub mod layout;
pub mod letters;
pub mod lines;
pub mod marks;
pub mod output;
pub mod palette;
pub mod title;
