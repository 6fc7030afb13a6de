//! Fingering-chart generation for a wind instrument.
//!
//! The crate turns a stream of MIDI-style pitch bytes into printable
//! fingering-chart bitmaps: a catalog maps each pitch to its candidate
//! fingerings, a resolver picks one fingering per note so that adjacent
//! notes move the fingers as little as possible, a compositor renders the
//! chosen fingering as a fixed-size chart, and a layout engine arranges
//! the charts into rows and whole-track images.

pub mod atlas;
pub mod bitmap;
pub mod catalog;
pub mod chart;
pub mod keys;
pub mod layout;
pub mod note;
pub mod song;
pub mod track;

pub use atlas::GlyphAtlas;
pub use bitmap::Bitmap;
pub use catalog::FingeringCatalog;
pub use keys::Key;
pub use keys::KeySet;
pub use note::Fingering;
pub use note::Note;
pub use song::Song;
pub use track::Track;
