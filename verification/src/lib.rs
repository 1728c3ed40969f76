//! Verified core of the G-MaP-SE speech-enhancement inference tool: the
//! integer and structural logic that decides how audio is padded, cut into
//! overlapping chunks, blended back, and how configuration and command-line
//! values are checked.

pub mod numparse;
pub mod text;
pub mod device;
pub mod metadata;
pub mod chunking;
pub mod signal;
pub mod paths;
pub mod embeddings;
