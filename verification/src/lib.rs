//! Verified core of the governed pi web terminal's admin extension.
pub mod admission;
pub mod approvals;
pub mod config;
pub mod conversation;
pub mod cache;
pub mod codec;
pub mod decimal;
pub mod display;
pub mod errors;
pub mod events;
pub mod gate;
pub mod hub;
pub mod jail;
pub mod journal;
pub mod json;
pub mod launch;
pub mod ledger;
pub mod magic_link;
pub mod mcp;
pub mod models;
pub mod portal;
pub mod pulse;
pub mod registration;
pub mod replay;
pub mod rpc;
pub mod scope;
pub mod secrets;
pub mod site;
pub mod skills;
pub mod stats;
pub mod text;
pub mod throttle;
pub mod token;
pub mod trace;
pub mod transcript;
pub mod waitlist;
