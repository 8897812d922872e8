//! The commands.
//!
//! Each command is a function from what it was called with, the process it runs
//! in and the answers it has heard to its next step.

pub mod attach;
pub mod comment;
pub mod common;
pub mod create;
pub mod fields;
pub mod issues;
pub mod lists;
pub mod settings;
pub mod sorting;
pub mod update;

pub use crate::cmd::attach::{
    attached_line, attachment_meta, issue_attach, issue_attachments,
};
pub use crate::cmd::comment::issue_comment;
pub use crate::cmd::create::{issue_create, CreateArgs};
pub use crate::cmd::fields::{write_body, IssueFields};
pub use crate::cmd::issues::{issue_get, issue_list};
pub use crate::cmd::lists::{label_list, module_list, project_list, state_list};
pub use crate::cmd::settings::{
    config_path, config_set, config_show, config_show_json, config_unset,
};
pub use crate::cmd::update::{issue_update, UpdateArgs};
