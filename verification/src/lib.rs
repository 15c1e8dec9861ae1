//! Core logic of a small audio-player daemon: a whitespace-token command
//! parser, a model of the playback sink and its queue, and the dispatch
//! step that turns one client line into a sink transition and a log line.
//!
//! Process plumbing (forking, the socket, the log file, the audio device)
//! lives outside this crate; everything here is plain data in, plain data
//! out, and verified.

pub mod command;
pub mod daemon;
pub mod media;
