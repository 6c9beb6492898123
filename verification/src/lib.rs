//! The decisions of a window switcher: which windows are real, how apps are
//! ordered, what a card says, and what every key does to the hub.
pub mod sequences;
pub mod text;
pub mod text_laws;
pub mod chrome;
pub mod chrome_laws;
pub mod modifiers;
pub mod hotkey;
pub mod tap;
pub mod focus;
pub mod capture;
pub mod windows;
pub mod windows_laws;
pub mod lists_laws;
pub mod summary;
pub mod layout;
pub mod hub;
pub mod mru;
pub mod cards;
pub mod events;
pub mod hub_laws;
pub mod switch_laws;
pub mod cards_laws;
pub mod summary_laws;
