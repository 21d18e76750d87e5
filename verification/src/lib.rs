//! The verified core of a media downloader: resolving a user-supplied
//! reference to a catalog item, picking source and output formats,
//! synthesizing legal file names from a template, the per-track download
//! pipeline and batch sequencer as state machines, and the saved-playlist
//! document format with a proved serialize/parse round trip.

pub mod format;
pub mod metadata;
pub mod pipeline;
pub mod playlist;
pub mod resolve;
pub mod sequence;
pub mod text;
