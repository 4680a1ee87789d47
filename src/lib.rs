pub mod atlas;
pub mod config;
pub mod decoder;
pub mod input;
pub mod packer;
pub mod screen;
pub mod screen_model;
pub mod terminal;
pub mod text;
