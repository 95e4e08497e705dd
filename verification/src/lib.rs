pub mod text;
pub mod codec;
pub mod sort;
pub mod json;
pub mod pactl;
pub mod bluez;
pub mod state;
pub mod controls;
pub mod commands;
pub mod laws;
