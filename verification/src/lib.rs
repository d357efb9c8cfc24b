//! A keyboard macro runner for the Windows On-Screen Keyboard: the
//! configuration and its text format, the ordered key actions of a macro and
//! the decisions of a cancellable run, key binding text, UI Automation key
//! name matching, the rules of the desktop bar and its slot editor, and the
//! steps of starting a fresh On-Screen Keyboard.
pub mod text;
pub mod config;
pub mod config_format;
pub mod macro_engine;
pub mod accessibility;
pub mod key_binding;
pub mod editor;
pub mod ui;
pub mod layout;
pub mod style;
pub mod cli;
pub mod windows_search;
pub mod osk_start;
