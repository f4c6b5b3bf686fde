//! Flattens log-dataset archives into newline-delimited text.
//!
//! A gzip-compressed tar archive or a zip archive is turned into a single
//! text stream: directory structure is discarded, only regular-file entries
//! contribute, and their contents are concatenated in entry order. The tar
//! path re-encodes content line by line, dropping lines that are not valid
//! UTF-8; the zip path copies each entry's bytes verbatim and terminates it
//! with a single newline.

pub mod extract;
pub mod laws;
pub mod naming;
pub mod text;
