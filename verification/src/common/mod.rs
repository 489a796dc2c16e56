//! What all protocols share.
pub mod net;
