pub mod ansi;
pub mod artifact;
pub mod codec;
pub mod editor;
pub mod events;
pub mod filter;
pub mod gitlog;
pub mod json;
pub mod notify;
pub mod phases;
pub mod plans;
pub mod record;
pub mod tree;
pub mod ui;
pub mod slug;
pub mod store;
pub mod strutil;
