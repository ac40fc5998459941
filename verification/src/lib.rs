//! The decisions of a tool for Granblue Fantasy: Relink: the party, the rooms found in
//! the game's memory, and the hooks on its multiplayer library. Nothing here touches
//! memory or files; what is needed is asked for, and what is to be done is given back.
pub mod antikick;
pub mod bytes;
pub mod chars;
pub mod command;
pub mod detour;
pub mod diag;
pub mod dispatch;
pub mod game;
pub mod guard;
pub mod ids;
pub mod json;
pub mod kick;
pub mod log;
pub mod members;
pub mod memory;
pub mod net;
pub mod rooms;
pub mod scan;
pub mod sdk;
pub mod snapshot;
pub mod telemetry;
pub mod text;
pub mod time;
pub mod worker;
