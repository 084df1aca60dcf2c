//! Text to Morse transcoding with configurable symbols and multi-script
//! character tables, and a playback scheduler that turns an encoded string
//! into a timed sequence of tone and silence events.
//!
//! A [`MorseCode`] is made from [`Options`] and encodes and decodes with the
//! tables that [`get_characters`] gives for them. A [`PlaybackScheduler`]
//! hands out the tones and silences of an encoded string one by one.

pub mod script;
pub mod text;
pub mod pattern;
pub mod tables;
pub mod options;
pub mod table;
pub mod characters;
pub mod reverse;
pub mod codec;
pub mod playback;
pub mod learning;
pub mod stats;
pub mod laws;
pub mod international;

pub use characters::{base_characters, get_characters, Characters};
pub use codec::{IEncoderDecoder, MorseCode};
pub use learning::{Learning, PracticeItem};
pub use options::{InvalidCharCallback, Options};
pub use playback::{
    PlaybackEvent, PlaybackKind, PlaybackScheduler, PlaybackState, PlaybackStep, Player,
};
pub use script::MorseCharacterSet;
pub use stats::{Achievement, AchievementLevel};
pub use table::CharacterMap;
