//! Session host for the card game Regicide: the cards and their combos, the
//! lobby directory with its join protocol, and the tick that drives every lobby.

pub mod action;
pub mod actor;
pub mod batch;
pub mod card;
pub mod channel;
pub mod deck;
pub mod directory;
pub mod error;
pub mod game;
pub mod ident;
pub mod msg;
pub mod pacer;
pub mod phase;
pub mod random;
pub mod state;
pub mod system;
pub mod table;
