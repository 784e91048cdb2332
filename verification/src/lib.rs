//! The verified core of a screen-recording editor.
#![allow(unused_imports)]

pub mod bytes;
pub mod capture;
pub mod commands;
pub mod dsp;
pub mod export;
pub mod fixtures;
pub mod ids;
pub mod media;
pub mod paths;
pub mod playback;
pub mod project;
pub mod render;
pub mod session;
pub mod sorting;
pub mod text;
pub mod timeline;
pub mod zoom;
