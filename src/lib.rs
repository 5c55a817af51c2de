//! A cooperative exploration game's server-side core: realms on hex-grid
//! islands, a template of ground truth per realm and the view that clients
//! get of it, the requests that clients send, and the framing of messages.
//!
//! - `utility`: lists and id-keyed maps with a selection cursor.
//! - `hex`: the hex grid and its adjacency.
//! - `tokens`: the protocol messages and the game's data.
//! - `realms`: a realm's template and view, and the rules that change them.
//! - `tutorial`: generation of the tutorial realm.
//! - `server`: clients, the shared universe, and request dispatch.
//! - `framing`: length-prefixed messages.

pub mod framing;
pub mod hex;
pub mod realms;
pub mod server;
pub mod tokens;
pub mod tutorial;
pub mod utility;
