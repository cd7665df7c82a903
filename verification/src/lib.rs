//! Apex: the logic of a keyboard launcher.
pub mod alias_laws;
pub mod app;
pub mod app_laws;
pub mod appindex;
pub mod backdrop;
pub mod config;
pub mod config_laws;
pub mod editor;
pub mod editor_laws;
pub mod frecency;
pub mod fuzzy;
pub mod fuzzy_laws;
pub mod history_laws;
pub mod icon;
pub mod indexfile;
pub mod launch;
pub mod layout_laws;
pub mod list_laws;
pub mod machine_laws;
pub mod messages;
pub mod numbers;
pub mod offsets;
pub mod order;
pub mod picture_laws;
pub mod pieces;
pub mod plugin;
pub mod plugins;
pub mod render;
pub mod rewrite;
pub mod rewrite_laws;
pub mod scene;
pub mod setup;
pub mod state_laws;
pub mod text;
pub mod text_laws;
pub mod window;
pub mod window_laws;
