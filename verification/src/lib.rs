//! Planechase deck handling: the card catalogue, the active deck and the
//! application state machine that drives them.

pub mod cards;
pub mod deck;
pub mod planar;
mod text;

pub use cards::{get_card_type, Card, CardType};
pub use deck::Deck;
pub use planar::{set_default_deck, Action, Event, Model, Planar, ViewModel};
