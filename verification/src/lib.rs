//! A client for a self-hosted Plane CE instance: read and write issues without
//! a shell pipeline.
//!
//! The library decides and something outside performs. A command of [`cmd`] is
//! a function from the answers it has heard so far to its next step: a request
//! to send, a file to read or write, a program to run, or the end with what to
//! print. [`script`] holds what can be asked and answered.
//!
//! [`client`] encodes the quirks of the API and what its responses mean,
//! [`names`] what names mean in a project, [`config`] and [`store`] the settings
//! and the file that holds them, [`auth`] where the token comes from, [`note`]
//! the header of a note, [`markdown`] the way to HTML and back, [`mime`] the
//! types of files, [`order`] and [`output`] how lists are ordered and shown.
//! [`json`], [`error`] and [`text`] are what they are all stated over.

pub mod auth;
pub mod client;
pub mod cmd;
pub mod config;
pub mod error;
pub mod json;
pub mod markdown;
pub mod mime;
pub mod names;
pub mod note;
pub mod order;
pub mod output;
pub mod script;
pub mod store;
pub mod text;
