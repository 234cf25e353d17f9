//! Microsoft Agent characters in Rust: parsers for the character file formats, the
//! portable animation runtime that sequences and plays them, and the embedding layer
//! that drives a character from a serial action queue.

pub mod acf;
pub mod agent;
pub mod acs;
pub mod act;
pub mod ask;
pub mod ask_geometry;
pub mod acs_records;
pub mod acs_v15;
pub mod balloon;
pub mod balloon_ui;
pub mod blocks;
pub mod character;
pub mod decode;
pub mod error;
pub mod gif;
pub mod idle;
pub mod model;
pub mod motion;
pub mod paint;
pub mod player;
pub mod reader;
pub mod rng;
pub mod sequence;
pub mod text;
pub mod textutil;
pub mod tts;
pub mod wav;
pub mod wmf;
