//! Presentation for terminal programs: what their screens and their output look like while they
//! are revealed, recoloured, animated, highlighted and masked, and what becomes of typed keys.
//!
//! The library decides; it reads and writes nothing. Streams arrive as bytes, screens as cells,
//! and what is to be done comes back as plain values.
pub mod bytes;
pub mod changes;
pub mod cli_backend;
pub mod cli_frames;
pub mod config;
pub mod draw;
pub mod effects;
pub mod emulator;
pub mod flash;
pub mod highlight;
pub mod keymap;
pub mod laws;
pub mod live;
pub mod matching;
pub mod model;
pub mod noise;
pub mod passthrough;
pub mod render;
pub mod rounding;
pub mod rules;
pub mod screen;
pub mod screen_text;
pub mod sequences;
pub mod session;
pub mod settings;
pub mod settling;
pub mod sgr;
pub mod single;
pub mod text;
pub mod theme;
pub mod transform;
pub mod triggers;
