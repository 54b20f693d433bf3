//! Verified core of a command-line client for GigaFile.nu: reading download
//! pages and URLs, naming and placing downloaded files, and the decisions
//! taken while a file streams in.
pub mod cli;
pub mod download;
pub mod error;
pub mod http;
pub mod naming;
pub mod parser;
pub mod paths;
pub mod sniff;
pub mod text;
pub mod urlinfo;
