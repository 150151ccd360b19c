use vstd::prelude::*;

pub mod audio_graph;
pub mod audio_graph_client;
pub mod audio_graph_runtime;
pub mod audio_recorder;
pub mod chord;
pub mod clock;
pub mod config;
pub mod config_reload;
pub mod control;
pub mod demo;
pub mod drum_catalog;
pub mod drum_pattern;
pub mod controller_learn;
pub mod controller_profile;
pub mod engine;
pub mod final_bus;
pub mod help;
pub mod pads;
pub mod sequencer;
pub mod text;

verus! {

} // verus!
