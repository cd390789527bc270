use vstd::prelude::*;

pub mod game_config;
pub mod ids;
pub mod json;
pub mod libretro;
pub mod message;
pub mod audio;
pub mod config;
pub mod controllers;
pub mod protocol;
pub mod registry;
pub mod room_state;
pub mod server;
pub mod session_payload;
pub mod signal_router;
pub mod strmap;
pub mod url_utils;
pub mod video;
pub mod video_pacing;
pub mod video_queue;
pub mod video_sender;
pub mod text;

verus! {

} // verus!
