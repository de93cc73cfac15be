pub mod app_state;
pub mod clipboard;
pub mod config;
pub mod detail;
pub mod editor;
pub mod favorites;
pub mod history;
pub mod keys;
pub mod order;
pub mod otp_setup;
pub mod pass;
pub mod picker;
pub mod recovery;
pub mod screen;
pub mod search;
pub mod text;
pub mod text_facts;
pub mod text_input;
pub mod theme;
pub mod totp;
