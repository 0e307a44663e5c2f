//! The decisions of the client's widgets, apart from drawing them.

pub mod autocomplete;
pub mod inline_player;
pub mod login;
pub mod media_viewer;
pub mod members;
pub mod message;
pub mod message_menu;
pub mod room_history;
pub mod roomlist;
