//! A chat bot's rule engine: rules built from their definitions, the
//! first-match evaluation of a message against an ordered rule list, the
//! reactions (fixed text, processes, builtin commands), a sliding-window
//! reply limit, the dynamic rule store and the listing of all triggers.
pub mod action;
pub mod bot;
pub mod builtins;
pub mod engine;
pub mod listing;
pub mod message;
pub mod pattern;
pub mod rate;
pub mod reaction;
pub mod store;
pub mod text;
