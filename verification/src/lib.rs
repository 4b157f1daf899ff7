pub mod building;
pub mod deck;
pub mod game;
pub mod parse;
pub mod render;
pub mod setup;
pub use deck::Decks;
