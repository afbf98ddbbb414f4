//! A verified blackjack card-game service library.
//!
//! The library covers the three verifiable layers of the service: the
//! line-oriented wire codec (`text`, `message`, `frame`), the card shoe and
//! blackjack state machine (`deck`, `blackjack`, `replies`), and the login
//! directory that hands out one shared game per case-folded name
//! (`directory`).  Socket handling lives outside the library.

pub mod blackjack;
pub mod deck;
pub mod directory;
pub mod frame;
pub mod message;
pub mod replies;
pub mod text;
