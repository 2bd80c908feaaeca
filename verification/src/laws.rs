//! What holds of the library as a whole.

pub mod daemon;
pub mod events;
pub mod feed;
pub mod members;
pub mod removal;
pub mod settings;
pub mod shown;
pub mod stream;
pub mod texts;
pub mod tree;
pub mod views;
