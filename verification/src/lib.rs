//! Achieve: the verified core of a proactive day-companion.

pub mod intervals;
pub mod json;
pub mod text;
pub mod model;
pub mod ledger;
pub mod sorting;
pub mod dashboard;
pub mod media;
pub mod idle;
pub mod email;
pub mod reminder;
pub mod engine;
pub mod niri;
pub mod desktop;
pub mod autostart;
pub mod window;
