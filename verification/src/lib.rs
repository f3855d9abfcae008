//! A union-directory overlay: requests for paths in a read-mostly lower tree
//! are redirected to a writable upper tree, files are copied up on first
//! write, and directory listings of both trees are merged.
//!
//! Everything here is a decision over plain values. Whoever embeds the
//! library performs the file-system work that a decision asks for and
//! reports the outcome back.
//!
//! - `config`: the process context, that is the two directories and the
//!   debug switch.
//! - `path`: absolute paths as byte strings, compared name by name; what
//!   holds of their names is proved in `path_laws`.
//! - `redir`: the redirect decision with copy-up, taken step by step.
//! - `guard`: the flag that keeps a decision from being entered again on
//!   the thread that is taking one.
//! - `hooks`: the intercepted calls, the write intent of each, and the
//!   guarded decision that each of them begins.
//! - `merge`: the table of directories that are listed from both trees.

pub mod config;
pub mod guard;
pub mod hooks;
pub mod merge;
pub mod path;
pub mod path_laws;
pub mod redir;
