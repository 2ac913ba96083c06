//! The arguments of the command line, as plain values.

use vstd::prelude::*;

verus! {

/// The arguments of the command line.
#[derive(Debug, Clone)]
pub struct CliArgs {
    /// The config file to use
    pub config_file: String,
    /// The file specifying the format to use when generating entries.
    /// Specifying this will override the file specified in the
    /// configuration, if any.
    pub format_file: Option<String>,
    /// If set, the attribute values of every object class are exported into
    /// a csv file of its own.
    pub csv: bool,
    /// The directory to export the csv files to.
    pub csv_directory: String,
    /// The base entry to use when inserting
    pub base: String,
    pub cmd: MainCommand,
}

/// What to do with the generated entries.
#[derive(Debug, Clone)]
pub enum MainCommand {
    /// Export generated entries into an ldif file.
    Export {
        /// The file to export to
        file: String,
    },
    /// Directly add the generated entries to a running server
    Insert { server: Option<String>, user: Option<String>, password: bool, connections: usize },
}

} // verus!
