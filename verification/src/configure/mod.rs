//! The wizard that writes the settings: its questions, its presets, its files.

pub mod answers;
pub mod presets;
pub mod wizard;
pub mod writer;
