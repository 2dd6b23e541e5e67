//! Verified core of a small set of directory and text utilities.
//!
//! The heart of the crate is the Unix file-mode decoder in [`metadata`]:
//! it turns a raw numeric file mode into the canonical ten-character
//! symbolic permission string (for example `-rwxr-xr-x`), with a proved
//! characterisation of exactly which inputs are accepted and what comes
//! back for each of them.  The [`ls`] module drives that decoder across a
//! stream of directory entries, [`cat`] renders file contents with
//! line-ending markers and line numbers, and [`echo`] parses and joins
//! command-line words.  All input/output lives outside this crate; the
//! functions here map plain values to plain values.

pub mod cat;
pub mod digits;
pub mod echo;
pub mod ls;
pub mod metadata;
pub mod text;
