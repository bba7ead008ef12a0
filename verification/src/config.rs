//! The persisted configuration: the platform game identifier, the debug
//! flag, and the single-slot pending-arguments mailbox.
//!
//! A run loads the configuration fresh, mutates it, and persists it again;
//! the pending arguments are written by the proxy hop and read-and-cleared
//! by the master hop, so that no launch's arguments can be consumed twice.

use vstd::prelude::*;

verus! {

/// The configuration record as persisted beside the version directories.
#[derive(Clone, Debug)]
pub struct Config {
    /// The platform-assigned game identifier, set once at install time.
    pub steam_gameid: String,
    /// Whether verbose stage-by-stage logging is enabled.
    pub debug: bool,
    /// The pending launch arguments: a single-slot mailbox, default empty.
    pub arguments: Vec<String>,
}

/// Why loading the configuration failed.
#[derive(Clone, Debug)]
pub enum ConfigReadError {
    /// The file's contents do not parse under the configuration schema.
    Malformed(String),
    /// The file could not be read.
    NotReadable(String),
    /// The file could not be opened for reading.
    NotOpenable(String),
}

/// Why saving the configuration failed.
#[derive(Clone, Debug)]
pub enum ConfigWriteError {
    /// The configuration could not be rendered.
    NotSerializable(String),
    /// The file could not be written.
    NotWriteable(String),
    /// The file could not be opened for writing.
    NotOpenable(String),
}

impl Config {
    /// A fresh configuration: no game identifier, logging off, empty
    /// mailbox.
    pub fn new() -> (r: Config)
        ensures
            r.steam_gameid@ == Seq::<char>::empty(),
            r.debug == false,
            r.arguments@ == Seq::<String>::empty(),
    {
        Config { steam_gameid: String::new(), debug: false, arguments: Vec::new() }
    }

    /// Reads the mailbox and clears it in the same step: the returned
    /// arguments can never be handed out twice.
    pub fn take_arguments(&mut self) -> (r: Vec<String>)
        ensures
            r@ == old(self).arguments@,
            final(self).arguments@ == Seq::<String>::empty(),
            final(self).steam_gameid == old(self).steam_gameid,
            final(self).debug == old(self).debug,
    {
        let r = self.arguments.split_off(0);
        proof {
            assert(r@ =~= old(self).arguments@);
            assert(self.arguments@ =~= Seq::<String>::empty());
        }
        r
    }
}

/// The reason line for a read failure, as shown to the user.
pub fn describe_read_error(e: &ConfigReadError) -> (r: String)
    ensures
        e matches ConfigReadError::Malformed(m) ==> r@ == "Malformed config file: "@ + m@,
        e matches ConfigReadError::NotReadable(m) ==> r@ == "Cannot read config file: "@ + m@,
        e matches ConfigReadError::NotOpenable(m) ==> r@ == "Cannot open config file for reading: "@
            + m@,
{
    match e {
        ConfigReadError::Malformed(m) => String::from_str("Malformed config file: ").concat(
            m.as_str(),
        ),
        ConfigReadError::NotReadable(m) => String::from_str("Cannot read config file: ").concat(
            m.as_str(),
        ),
        ConfigReadError::NotOpenable(m) => String::from_str(
            "Cannot open config file for reading: ",
        ).concat(m.as_str()),
    }
}

/// The reason line for a write failure, as shown to the user.
pub fn describe_write_error(e: &ConfigWriteError) -> (r: String)
    ensures
        e matches ConfigWriteError::NotSerializable(m) ==> r@ == "Cannot serialize config struct: "@
            + m@,
        e matches ConfigWriteError::NotWriteable(m) ==> r@ == "Cannot write config file: "@ + m@,
        e matches ConfigWriteError::NotOpenable(m) ==> r@
            == "Cannot open config file for writing: "@ + m@,
{
    match e {
        ConfigWriteError::NotSerializable(m) => String::from_str(
            "Cannot serialize config struct: ",
        ).concat(m.as_str()),
        ConfigWriteError::NotWriteable(m) => String::from_str("Cannot write config file: ").concat(
            m.as_str(),
        ),
        ConfigWriteError::NotOpenable(m) => String::from_str(
            "Cannot open config file for writing: ",
        ).concat(m.as_str()),
    }
}

} // verus!
