//! What the tool is asked to do: a connection string and one subcommand.
//! Parsing the command line into these values is the binary's concern.

use vstd::prelude::*;

verus! {

/// A tool to interact with MAVLink compatible vehicles: the connection
/// string, in the form `scheme:address:port_or_baud` with scheme one of
/// tcpout, tcpin, udpout, udpin, udpbcast, serial and file, and the chosen
/// subcommand.
#[derive(Debug, Clone, PartialEq)]
pub struct Opts {
    pub mavlink_connection: String,
    pub cmd: SubCommand,
}

/// The tool's subcommands.
#[derive(Debug, Clone, PartialEq)]
pub enum SubCommand {
    /// Interactive configuration management.
    Configure,
    /// Pull the configuration from the vehicle to a file.
    Pull { out_file: String },
    /// Push the configuration from a file to the vehicle.
    Push { in_file: String },
    /// Browse the parameters with available metainformation.
    Info { search_term: Option<String>, width: Option<usize> },
}

} // verus!
