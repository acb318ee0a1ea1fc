//! Numbered `git status` and `git branch` listings, and the replacement of
//! the numbers shown there by the paths they stand for in `git` arguments.

pub mod args;
pub mod branch;
pub mod command;
pub mod display;
pub mod laws;
pub mod number;
pub mod order;
pub mod paint;
pub mod sort;
pub mod status;
pub mod text;

pub use args::{replace_number_args, ArgError};
pub use branch::{branch_output_ok, parse_branch, Branch};
pub use command::{file_command, git_arguments};
pub use paint::{render, Color, Piece};
pub use status::{
    parse_status, parse_status_line, status_from_output, Status,
    StatusEntry, StatusError, StatusTag,
};
