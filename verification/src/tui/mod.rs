//! What the user of the terminal sees.
pub mod approval;
pub mod laws;
pub mod reducer;
pub mod render;
pub mod state;
