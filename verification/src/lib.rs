//! The logic of a software updater for Linux distributions.

pub mod command;
pub mod decode;
pub mod event_laws;
pub mod events;
pub mod flatpak;
pub mod flatpak_list;
pub mod flatpak_log;
pub mod flatpak_rows;
pub mod helper;
pub mod items;
pub mod laws;
pub mod managers;
pub mod model;
pub mod number;
pub mod offers;
pub mod order;
pub mod packagekit;
pub mod parse;
pub mod phrases;
pub mod progress;
pub mod run;
pub mod run_laws;
pub mod shell;
pub mod states;
pub mod stream;
pub mod system;
pub mod text;
pub mod updates;
pub mod view;
pub mod view_laws;
