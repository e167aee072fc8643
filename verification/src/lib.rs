//! Declarative management of dotfile symlinks.
//!
//! A table of named links says which file or directory of a dotfiles
//! directory belongs at which place of the file system. The library resolves
//! the declared targets, decides for each link what has to happen on disk and
//! keeps a report of what came of it. It never touches the file system
//! itself: every decision is a function from what was observed to what is to
//! be done, so the caller performs the actions and hands back what happened.
//!
//! - `env`: the variables that targets may refer to.
//! - `path`: components, placeholders, joining and comparing of paths.
//! - `symlink`: one link, and the steps that put it in place.
//! - `config`: the table of links and the profiles.
//! - `reconcile`: the work on a choice of links and its report.
//! - `manager`: the dotfiles directory, its state file and its file of
//!   declarations.
//! - `document`: what is relied on of the TOML library.
//! - `copier`: taking a file or a directory into the dotfiles directory.
//! - `cli`: the commands.
//! - `text`: helpers on strings.

pub mod cli;
pub mod config;
pub mod copier;
pub mod document;
pub mod env;
pub mod manager;
pub mod path;
pub mod reconcile;
pub mod symlink;
pub mod text;
