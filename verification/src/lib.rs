pub mod deck;
pub mod game;
pub mod pairing;
