//! Game model, rules engine and decision logic of an MTG Arena playing bot.
pub mod app;
pub mod multi_platform;
