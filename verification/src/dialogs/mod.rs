//! What the dialogs decide before anything is saved.

pub mod add_server;
