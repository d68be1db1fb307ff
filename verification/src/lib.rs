//! Redraws a black and white video with filled circles, one picture at a time.

pub mod bounds;
pub mod canvas;
pub mod compile;
pub mod dialog;
pub mod error;
pub mod ffmpeg;
pub mod frames;
pub mod geometry;
pub mod options;
pub mod output;
pub mod paint;
pub mod prefix;
pub mod process;
pub mod rng;
pub mod score;
pub mod search;
pub mod text;
pub mod tile;
pub mod top;
