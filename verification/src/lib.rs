//! A terminal session for local models: its state, its screens, and what it asks of
//! the world around it.

pub mod app;
pub mod config;
pub mod cursor;
pub mod effects;
pub mod event;
pub mod hint;
pub mod laws;
pub mod layout;
pub mod model;
pub mod ollama;
pub mod rag;
pub mod scrollback;
pub mod text;
pub mod ui;
