//! Optional defaults from a configuration file, so the common server address
//! and server key can be omitted. Command-line flags always win.

use vstd::prelude::*;
use crate::client::TransportDefaults;
use crate::identity::{path_under, under};
use crate::text::joined;

verus! {

/// What a configuration file may set.
#[derive(Debug)]
pub struct Config {
    /// Server address, e.g. `127.0.0.1:5400`.
    pub server: Option<String>,
    /// Server's pinned Ed25519 public key, base58.
    pub server_key: Option<String>,
    /// Software identity path (default `~/.sqnr/identity`).
    pub identity: Option<String>,
    /// Envelope version this client emits. `None` leaves the transport's own
    /// default in place.
    ///
    /// A deployment-wide transport setting, not a per-connection one.
    pub envelope_version: Option<u8>,
}

impl Default for Config {
    /// A configuration that sets nothing.
    fn default() -> (r: Config)
        ensures
            r.server is None,
            r.server_key is None,
            r.identity is None,
            r.envelope_version is None,
    {
        Config { server: None, server_key: None, identity: None, envelope_version: None }
    }
}

/// What came of reading and parsing a configuration file.
pub enum FileOutcome {
    /// The file could not be read.
    Unreadable(String),
    /// The text is not a configuration.
    Unparsable(String),
    /// The text is this configuration.
    Parsed(Config),
}

impl Config {
    /// Whether nothing is set.
    pub open spec fn is_empty(self) -> bool {
        self.server is None && self.server_key is None && self.identity is None
            && self.envelope_version is None
    }

    /// Where the configuration file of the home directory `home` is, if anywhere.
    pub fn path(home: Option<&str>) -> (r: Option<String>)
        ensures
            match home {
                Some(h) => r matches Some(path) && path@ == path_under(
                    path_under(h@, ".sqnr"@),
                    "config"@,
                ),
                None => r is None,
            },
    {
        match home {
            Some(h) => Some(under(under(h, ".sqnr").as_str(), "config")),
            None => None,
        }
    }

    /// The configuration in use: that of the file, where there is one that could
    /// be read and parsed, else one that sets nothing. Its transport settings
    /// are applied.
    pub fn load(
        file: Option<Result<Config, String>>,
        defaults: &mut TransportDefaults,
    ) -> (r: Config)
        ensures
            match file {
                Some(Ok(config)) => r == config,
                _ => r.is_empty(),
            },
            !(file matches Some(Ok(_))) ==> r.server is None && r.server_key is None
                && r.identity is None && r.envelope_version is None,
            r.envelope_version is Some ==> final(defaults).envelope_version == r.envelope_version,
            r.envelope_version is None ==> *final(defaults) == *old(defaults),
            *final(defaults) == old(defaults).updated(r.envelope_version),
    {
        let config = match file {
            Some(Ok(config)) => config,
            _ => Config::default(),
        };
        config.apply_transport(defaults);
        config
    }

    /// The configuration in the file called `path`, or what is wrong with it.
    pub fn from_file(path: &str, outcome: FileOutcome) -> (r: Result<Config, String>)
        ensures
            match outcome {
                FileOutcome::Unreadable(e) => r matches Err(text) && text@ == "read "@ + path@
                    + ": "@ + e@,
                FileOutcome::Unparsable(e) => r matches Err(text) && text@ == "parse "@ + path@
                    + ": "@ + e@,
                FileOutcome::Parsed(config) => r == Ok::<Config, String>(config),
            },
    {
        match outcome {
            FileOutcome::Unreadable(e) => Err(
                joined(joined(joined("read ", path).as_str(), ": ").as_str(), e.as_str()),
            ),
            FileOutcome::Unparsable(e) => Err(
                joined(joined(joined("parse ", path).as_str(), ": ").as_str(), e.as_str()),
            ),
            FileOutcome::Parsed(config) => Ok(config),
        }
    }

    /// Push the transport settings this configuration carries into the defaults
    /// every connection reads.
    ///
    /// Separate from parsing, and called by `load`: a caller that builds a
    /// `Config` by hand can apply it deliberately, and one that only wants to
    /// read a file is not surprised by a side effect. What the configuration
    /// leaves unset stays as it was.
    pub fn apply_transport(&self, defaults: &mut TransportDefaults)
        ensures
            *final(defaults) == old(defaults).updated(self.envelope_version),
            self.envelope_version is Some ==> final(defaults).envelope_version
                == self.envelope_version,
            self.envelope_version is None ==> *final(defaults) == *old(defaults),
    {
        if let Some(v) = self.envelope_version {
            defaults.set_envelope_version(v);
        }
    }
}

} // verus!
