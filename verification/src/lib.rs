//! A command-line shim that lets Windows tools run git inside WSL.
//!
//! The library holds the text-transformation core: classifying Windows
//! paths inside command-line arguments, rewriting them into the WSL
//! dialect, quoting and joining the resulting command line, deciding the
//! shell-invocation mode, and rewriting WSL paths in captured output back
//! into the Windows dialect.  All transformations work on raw bytes, so
//! that no locale- or Unicode-dependent segmentation can disturb them.
//!
//! The modules follow the data flow: `bytes` holds the byte classes and
//! sequence helpers; `classify` and `relpath` recognize absolute and
//! relative Windows paths; `translate` rewrites one argument and
//! threads the options-terminator state across the list; `quote`
//! escapes and quotes for the remote shell; `command` joins the
//! invocation; `policy` decides the shell mode; `output` rewrites
//! captured output back; `workdir`, `distro` and `wslenv` compute the
//! working directory, the remote target and the environment-sharing
//! list; `laws` proves properties that span several of them.

pub mod bytes;
pub mod classify;
pub mod command;
pub mod distro;
pub mod fork;
pub mod laws;
pub mod output;
pub mod policy;
pub mod quote;
pub mod relpath;
pub mod translate;
pub mod workdir;
pub mod wslenv;
