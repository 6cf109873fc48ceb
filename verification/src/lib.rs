pub mod buffer;
pub mod engine;
pub mod errors;
pub mod host;
pub mod layout;
pub mod playlist;
pub mod ranges;
