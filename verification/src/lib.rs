//! A real-time audio mixing engine for an interactive, location-triggered
//! soundtrack, with a command-emitting orchestrator above it.
//!
//! The mixer (`engine`, `render`) owns decoded PCM assets, playback tracks
//! routed onto named buses, and sidechain duckers, and renders blocks of
//! stereo output sample-accurately: linear-interpolating resampler, seamless
//! loops, deferred asset switches at loop boundaries or markers,
//! envelope-follower ducking, per-track and per-bus gain ramps, and
//! track-ended events back to the host.  All amplitudes and cursor
//! positions are Q32.32 fixed point (`fx`), so every stage is verified
//! exactly; the host converts to its sample format at the edge.
//!
//! The orchestrator (`orch`) turns geographic events into deterministic
//! command sequences; `game` keeps the per-tick geographic state; `laws`
//! states and proves the engine-level properties.

pub mod engine;
pub mod fx;
pub mod game;
pub mod laws;
pub mod orch;
pub mod render;
pub mod strutil;
