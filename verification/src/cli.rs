//! Command-line arguments, as plain values.

use vstd::prelude::*;

verus! {

/// Arguments of the launcher.
#[derive(Debug, Clone)]
pub struct Cli {
    /// Where to store cache of desktop entries
    pub cache: Option<String>,
    /// Path to config
    pub config: String,
    /// Command to start applications, `%command%` is replaced by the command
    pub exec_app: Vec<String>,
    /// Command to start terminal applications, `%command%` is replaced by the command
    pub exec_term: Vec<String>,
    /// Command to start links, `%url%` is replaced by the url
    pub exec_link: Vec<String>,
    /// Sort entries so tagged ones are at top
    pub sort_tag: Option<String>,
    /// Only show entries that are tagged
    pub only_tag: Option<String>,
    pub cmd: CliCommands,
}

/// Arguments of the rofi script mode.
#[derive(Debug, Clone)]
pub struct CmdRofi {
    /// Contains code from rofi when running in script mode
    pub rofi_status: u8,
    pub rest: Vec<String>,
}

/// Output format of data
#[derive(Debug, Clone, Copy, PartialEq, Eq, Structural)]
pub enum OutputFormat {
    /// Rust debug format
    Debug,
    JSON,
}

/// Arguments of the `list` command.
#[derive(Debug, Clone)]
pub struct CmdList {
    pub format: OutputFormat,
}

/// Arguments of the `query` command.
#[derive(Debug, Clone)]
pub struct CmdQuery {
    pub format: OutputFormat,
    /// Ids of the applications
    pub ids: Vec<String>,
}

/// The commands of the launcher.
#[derive(Debug, Clone)]
pub enum CliCommands {
    /// Used in rofi script mode
    Rofi(CmdRofi),
    /// List all entries
    List(CmdList),
    /// Query for specific application using the id
    Query(CmdQuery),
    /// No command (the state after the command has been taken out)
    Unset,
}

} // verus!
