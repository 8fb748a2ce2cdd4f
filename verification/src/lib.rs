use vstd::prelude::*;

pub mod audio;
pub mod bind;
pub mod cache;
pub mod cli;
pub mod config;
pub mod corrections;
pub mod cue;
pub mod delivery;
pub mod device;
pub mod doctor;
pub mod download;
pub mod filter;
pub mod gesture;
pub mod inject;
pub mod hotkeys;
pub mod input;
pub mod key_combo;
pub mod link;
pub mod machine;
pub mod model;
pub mod pipeline;
pub mod prompt;
pub mod protocol;
pub mod pty;
pub mod queue;
pub mod session;
pub mod sink;
pub mod streaming;
pub mod strip;
pub mod supervisor;
pub mod text;
pub mod time;
pub mod transcript;
pub mod trigger;
pub mod vulkan;
pub mod window;
pub mod wrapper;

verus! {
} // verus!
