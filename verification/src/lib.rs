//! Message, room and member logic of the Fractal Matrix client, with
//! contracts proved by Verus.

pub mod backend;
pub mod cache;
pub mod client;
pub mod model;
pub mod outside;
pub mod passwd;
pub mod text;
pub mod ui;
pub mod util;
pub mod widgets;
