//! Codecs for metadata tag containers embedded in audio files.
//!
//! Two containers are covered: the frame-based ID3v2 tag and the box tree of
//! MP4. Every function works on bytes held in memory and returns plain values;
//! reading and writing files is left to the caller.

pub mod atom;
pub mod bitpadded;
pub mod bytes;
pub mod decode;
pub mod error;
pub mod frames;
pub mod genres;
pub mod header;
pub mod id3tags;
pub mod info;
pub mod inverse;
pub mod offsets;
pub mod probe;
pub mod reader;
pub mod render;
pub mod tags;
pub mod text;
pub mod textframe;
pub mod unsynch;
pub mod value;
pub mod writer;
