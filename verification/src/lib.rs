pub mod chess;
pub mod assets;
pub mod explorer;
pub mod menu;
mod rng;
pub mod window;
