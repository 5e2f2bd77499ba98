//! A session layer for configuring vehicles over a MAVLink-style telemetry
//! link: a connection multiplexer that fans inbound messages out to
//! type-keyed subscribers, and the parameter-synchronization protocols
//! (fetch-all, apply-from-file, dump-to-file) built on top of it.

pub mod cli;
pub mod definitions;
pub mod definitions_xml_oll;
pub mod dump;
pub mod indicatif;
pub mod mavlink_stub;
pub mod parameters;
pub mod push_pull;
pub mod ui;
pub mod util;

pub use util::to_string;
pub use util::to_char_arr;
