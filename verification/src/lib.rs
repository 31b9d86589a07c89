pub mod text;
pub mod keys;
pub mod config;
pub mod gesture;
pub mod overlay;
pub mod daemon;
pub mod gui;
pub mod yaml;
pub mod yaml_read;
pub mod autostart;
pub mod perms;
pub mod devices;
pub mod focus;
pub mod injector;
pub mod tray;
