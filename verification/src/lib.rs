//! Offline-first synchronisation engine for a personal list of companies.
//!
//! A user keeps a list of companies on several devices. Every change is
//! applied to the local record set at once and sent to the server when it
//! can be; the local set is reconciled with the server's without losing
//! work that has not arrived there; and an access token that has run out is
//! replaced without the user noticing.
//!
//! The engine makes no call itself. `engine::Engine` hands out the calls to
//! make and takes their answers; whoever drives it sends the requests,
//! stores the record set after every step and shows it.
//!
//! - `models`: records, their identity key, and credentials.
//! - `status`: the status of a record and how answers move it.
//! - `records`: the mathematical model of a record set and of its
//!   reconciliation with the server's.
//! - `store`: the local record set.
//! - `flight`: the records with a call under way.
//! - `guard`: one refresh of the credentials per episode of refused tokens.
//! - `engine`: all of these at work, and what holds of every run.
//! - `helper`: credentials out of what the identity service sends.
//! - `text`: cutting and searching text.
//! - `codec`: what is taken on trust from `base64` and `serde_json`.

pub mod codec;
pub mod engine;
pub mod flight;
pub mod guard;
pub mod helper;
pub mod models;
pub mod records;
pub mod status;
pub mod store;
pub mod text;
