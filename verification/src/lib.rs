//! Verified core of the alter bot: the text it renders, the decisions it
//! takes on Discord events and web requests, and the poll bookkeeping.

pub mod text;
pub mod emojis;
pub mod renderer;
pub mod commands;
pub mod minecraft;
pub mod awty;
pub mod cache;
pub mod polls;
pub mod votes;
pub mod web;
pub mod config;
pub mod reactions;
pub mod quote;
pub mod settings;
pub mod server;
