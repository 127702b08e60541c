//! A music-theory and fretboard model: integer-encoded pitches with
//! flats-only note names, intervals, strings and instruments built from a
//! tuning, location lookup for a pitch, and an ASCII fret-diagram renderer.

pub mod guitar;
pub mod note;
pub mod text;

pub use guitar::find_report;
pub use guitar::standard_tuning;
pub use guitar::FretDiagram;
pub use guitar::FretboardLocation;
pub use guitar::Size;
pub use guitar::Guitar;
pub use guitar::GuitarString;
pub use note::Error;
pub use note::Interval;
pub use note::Note;
pub use note::NoteIter;
