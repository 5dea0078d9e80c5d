//! Narrated-audio assembly: turns the lines of a text document into speech
//! requests, merges the returned waveforms sample by sample and derives
//! caption timing from the measured length of every segment.

pub mod api;
pub mod args;
pub mod audio;
pub mod batch;
pub mod blacklist;
pub mod charset;
pub mod lrc;
pub mod process;
pub mod retry;
pub mod text;
