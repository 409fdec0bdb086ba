//! The logic of a desktop music client: lyrics parsing and selection, local-library naming,
//! download bookkeeping, the remote-control handshake, and the player's small decisions.
use vstd::prelude::*;

pub mod text;
pub mod lyrics;
pub mod lrc;
pub mod local;
pub mod player;
pub mod remote;
pub mod downloads;
pub mod commands;
pub mod artist_packs;
pub mod db;
pub mod ytdlp;
pub mod visualizer;
pub mod romaji;
pub mod krc;
pub mod fetch;
pub mod markup;
pub mod art;
pub mod floating;
pub mod gamepad;
pub mod tray;
pub mod lan;
pub mod settings;
pub mod waveform;
pub mod albums;
pub mod table;
pub mod plays;
pub mod richsync;
pub mod providers;
pub mod scrape;
pub mod formats;

verus! {

} // verus!
