//! Orchestration core of a video-to-frames converter: the worker's line
//! protocol, the decisions of a supervised run, the archive plan of an export
//! and the reply of an info probe, each stated over byte sequences.
pub mod split;
pub mod text;
pub mod protocol;
pub mod archive;
pub mod probe;
pub mod order;
pub mod supervisor;
