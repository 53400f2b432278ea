//! Core of a conversational reminder scheduler.
//!
//! The library parses natural-language time specifications, keeps a store of
//! pending and repeating reminder events, and drives a per-user dialog state
//! machine; an engine routes inbound text and button events to the state
//! machine and surfaces due events as outbound notifications.

pub mod arith;
pub mod civil;
pub mod command;
pub mod database;
pub mod engine;
pub mod helpers;
pub mod numfmt;
pub mod state;
pub mod time;
