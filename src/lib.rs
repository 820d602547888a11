//! A podcast and audio playback daemon: command grammar, persisted playback
//! state, the playback orchestrator, and the episode index of subscribed feeds.

pub mod cmd;
pub mod feed;
pub mod log;
pub mod player;
pub mod state;
pub mod text;
