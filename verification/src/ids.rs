//! Message ids of the signaling contract, and the labels of the WebRTC data channels.
use vstd::prelude::*;

verus! {

pub const GET_GAMES: &'static str = "getGames";
pub const GAMES: &'static str = "games";
pub const GAME_INFO: &'static str = "gameInfo";
pub const INIT_WEBRTC: &'static str = "initwebrtc";
pub const OFFER: &'static str = "offer";
pub const ANSWER: &'static str = "answer";
pub const CANDIDATE: &'static str = "candidate";
pub const JOIN_ROOM: &'static str = "joinRoom";
pub const INPUT: &'static str = "input";
pub const TERMINATE_SESSION: &'static str = "terminateSession";
pub const UPDATE_PLAYER_COUNT: &'static str = "updatePlayerCount";
pub const CONTROLLER_HOST: &'static str = "controllerHost";
pub const CONTROLLER_JOIN: &'static str = "controllerJoin";
pub const CONTROLLER_INPUT: &'static str = "controllerInput";
pub const CONTROLLER_AUDIO: &'static str = "controllerAudio";
pub const CONTROLLER_READY: &'static str = "controllerReady";
pub const CONTROLLER_JOINED: &'static str = "controllerJoined";
pub const CONTROLLER_LEFT: &'static str = "controllerLeft";
pub const CONTROLLER_REJECTED: &'static str = "controllerRejected";

/// The data channel that carries a browser's input to the worker.
pub const GAME_INPUT_CHANNEL: &'static str = "game-input";
/// The data channel that carries the game's sound to a browser.
pub const GAME_AUDIO_CHANNEL: &'static str = "game-audio";

} // verus!
