//! A lunch-planning bot for a chat channel: the command language it
//! understands and the state that the commands act on.
pub mod clock;
pub mod encoding;
pub mod laws;
pub mod round_trip;
pub mod state;
pub mod syntax;
pub mod text;
