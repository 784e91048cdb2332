//! Project bundles: their media, manifest, journal and edits.

pub mod bundle;
pub mod fragment;
pub mod index;
pub mod journal;
pub mod layout;
pub mod lock;
pub mod manifest;
pub mod media_validator;
pub mod mp4;
pub mod names;
pub mod pcm;
pub mod reader;
pub mod recovery;
pub mod revision;
pub mod sample_table;
pub mod segment_writer;
pub mod silence;
pub mod waveform;
