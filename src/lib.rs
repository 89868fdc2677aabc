//! A query client for the A2S game-server protocol: request framing,
//! fragment reassembly, compressed-payload verification, the challenge
//! handshake and the typed decoders, each with a verified contract.
use vstd::prelude::*;

pub mod client;
pub mod errors;
pub mod info;
pub mod integrity;
pub mod packet;
pub mod players;
pub mod query;
pub mod reassembly;
pub mod rules;
pub mod wire;

pub use crate::client::{A2SClientAsync, Builder};
pub use crate::errors::Error;
pub use crate::info::{ExtendedServerInfo, Info, SourceTVInfo, TheShip, INFO_REQUEST};
pub use crate::packet::PacketFragment;
pub use crate::players::{Player, TheShipPlayer, PLAYER_REQUEST};
pub use crate::rules::{Rule, RULES_REQUEST};

verus! {

} // verus!
