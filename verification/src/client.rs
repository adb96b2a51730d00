//! What an HTTP/3 client for an admin server asks of its transport: how it
//! dials and which requests it makes.

use vstd::prelude::*;
use crate::encoding::{hex_encode, hex_encoded};
use crate::text::joined;

verus! {

/// Transport settings of the whole process, read at every dial.
#[derive(Debug, Clone, Copy, PartialEq, Eq)]
pub struct TransportDefaults {
    /// The envelope version to emit; `None` leaves the transport's own default.
    pub envelope_version: Option<u8>,
}

impl TransportDefaults {
    /// The defaults before anything was set.
    pub fn new() -> (r: Self)
        ensures
            r.envelope_version is None,
    {
        TransportDefaults { envelope_version: None }
    }

    /// The defaults with a setting applied over them, if there is one.
    pub open spec fn updated(self, envelope_version: Option<u8>) -> Self {
        match envelope_version {
            Some(_) => TransportDefaults { envelope_version },
            None => self,
        }
    }

    /// Sets the envelope version that later dials emit.
    pub fn set_envelope_version(&mut self, v: u8)
        ensures
            *final(self) == old(self).updated(Some(v)),
            final(self).envelope_version == Some(v),
    {
        self.envelope_version = Some(v);
    }
}

/// How to dial. What is not here keeps the transport's default.
#[derive(Debug)]
pub struct DialOptions {
    /// The application protocols to offer, in order.
    pub alpn_protocols: Vec<Vec<u8>>,
    /// Seconds between keep-alive pings.
    pub keep_alive_secs: u64,
    /// Seconds until a handshake counts as failed.
    pub handshake_timeout_secs: u64,
    /// The transport key, in hexadecimal; `None` for an ephemeral one.
    pub client_key: Option<String>,
    /// Whether to name the caller to the server; `None` leaves the transport's
    /// own default.
    pub advertise_identity: Option<bool>,
    /// Whether to negotiate datagrams; `None` leaves the transport's own default.
    pub enable_datagrams: Option<bool>,
    /// The envelope version to emit; `None` leaves the transport's own default.
    pub envelope_version: Option<u8>,
}

impl DialOptions {
    /// What every dial has in common: HTTP/3 is the one protocol offered; pings
    /// come well inside the server's idle timeout of a minute, so an idle admin
    /// session does not die between actions; and a server that is down, wrong
    /// or unreachable is given up on soon.
    pub open spec fn is_admin_dial(self, defaults: TransportDefaults) -> bool {
        &&& self.alpn_protocols@.len() == 1
        &&& self.alpn_protocols@[0]@ == seq![0x68u8, 0x33u8]
        &&& self.keep_alive_secs == 15
        &&& self.handshake_timeout_secs == 5
        &&& self.envelope_version == defaults.envelope_version
    }

    /// An anonymous dial. The transport key is ephemeral: admin authority is the
    /// signature, not the connection.
    pub fn connect(defaults: &TransportDefaults) -> (r: Self)
        ensures
            r.is_admin_dial(*defaults),
            r.alpn_protocols@.len() == 1,
            r.alpn_protocols@[0]@ == seq![0x68u8, 0x33u8],
            r.keep_alive_secs == 15,
            r.handshake_timeout_secs == 5,
            r.envelope_version == defaults.envelope_version,
            r.client_key is None,
            r.advertise_identity is None,
            r.enable_datagrams is None,
    {
        let mut h3: Vec<u8> = Vec::new();
        h3.push(0x68);
        h3.push(0x33);
        assert(h3@ =~= seq![0x68u8, 0x33u8]);
        let mut alpn_protocols: Vec<Vec<u8>> = Vec::new();
        alpn_protocols.push(h3);
        DialOptions {
            alpn_protocols,
            keep_alive_secs: 15,
            handshake_timeout_secs: 5,
            client_key: None,
            advertise_identity: None,
            enable_datagrams: None,
            envelope_version: defaults.envelope_version,
        }
    }

    /// A dial *as* the identity behind `seed`, advertising it so the server can
    /// name this caller at accept without having registered it.
    ///
    /// Unlike [`connect`](Self::connect), which is anonymous, this pins the
    /// transport key to the identity's own key. Use it where the connection *is*
    /// the assertion rather than where authority is a signature. `seed` is the
    /// identity's secret; only a software identity has one to give. Sessions may
    /// carry real-time media over datagrams once negotiated; enabling them costs
    /// nothing if unused.
    pub fn connect_as(defaults: &TransportDefaults, seed: &[u8; 32]) -> (r: Self)
        ensures
            r.is_admin_dial(*defaults),
            r.alpn_protocols@.len() == 1,
            r.alpn_protocols@[0]@ == seq![0x68u8, 0x33u8],
            r.keep_alive_secs == 15,
            r.handshake_timeout_secs == 5,
            r.envelope_version == defaults.envelope_version,
            r.client_key matches Some(key) && key@ == hex_encoded(seed@),
            r.advertise_identity == Some(true),
            r.enable_datagrams == Some(true),
    {
        let mut options = Self::connect(defaults);
        options.client_key = Some(hex_encode(seed));
        options.advertise_identity = Some(true);
        options.enable_datagrams = Some(true);
        options
    }
}

/// A request to the admin server.
#[derive(Debug)]
pub struct Request {
    /// The method.
    pub method: &'static str,
    /// The whole URI.
    pub uri: String,
    /// What is sent after the headers.
    pub body: Option<Vec<u8>>,
}

/// The URI of `path` on the admin server, whose key, not its name, is what is
/// checked.
pub open spec fn admin_uri(path: Seq<char>) -> Seq<char> {
    "https://sqex"@ + path
}

/// A reply as it comes in: its status, then its body in chunks.
pub struct Collector {
    status: u16,
    body: Vec<u8>,
}

impl Collector {
    /// The status of the reply.
    pub closed spec fn status(self) -> u16 {
        self.status
    }

    /// The body as far as it has come in.
    pub closed spec fn body(self) -> Seq<u8> {
        self.body@
    }

    /// A reply of which only the status has come in.
    pub fn new(status: u16) -> (r: Self)
        ensures
            r.status() == status,
            r.body() == Seq::<u8>::empty(),
    {
        Collector { status, body: Vec::new() }
    }

    /// Takes the next chunk of the body.
    pub fn push(&mut self, chunk: &[u8])
        ensures
            final(self).status() == old(self).status(),
            final(self).body() == old(self).body() + chunk@,
    {
        self.body.extend_from_slice(chunk);
        assert(self.body() =~= old(self).body() + chunk@);
    }

    /// The reply as a whole.
    pub fn reply(self) -> (r: (u16, Vec<u8>))
        ensures
            r.0 == self.status(),
            r.1@ == self.body(),
    {
        (self.status, self.body)
    }
}

impl Request {
    /// A request for `path`.
    pub fn get(path: &str) -> (r: Self)
        ensures
            r.method@ == "GET"@,
            r.uri@ == admin_uri(path@),
            r.uri@ == "https://sqex"@ + path@,
            r.body is None,
    {
        Request { method: "GET", uri: joined("https://sqex", path), body: None }
    }

    /// A request that sends `body` to `path`.
    pub fn post(path: &str, body: Vec<u8>) -> (r: Self)
        ensures
            r.method@ == "POST"@,
            r.uri@ == admin_uri(path@),
            r.uri@ == "https://sqex"@ + path@,
            r.body == Some(body),
    {
        Request { method: "POST", uri: joined("https://sqex", path), body: Some(body) }
    }
}

/// A setting that is given takes the place of the one before, and a setting that
/// is not given leaves it.
pub proof fn settings_are_replaced_or_kept(d: TransportDefaults, v: u8)
    ensures
        d.updated(Some(v)).envelope_version == Some(v),
        d.updated(None) == d,
{
}

/// Every URI names the same server, and what follows the name is the whole path.
pub proof fn uris_end_with_their_path(path: Seq<char>, other: Seq<char>)
    ensures
        admin_uri(path).take(12) == "https://sqex"@,
        admin_uri(path).skip(12) == path,
        admin_uri(path) == admin_uri(other) ==> path == other,
{
    reveal_strlit("https://sqex");
    assert(admin_uri(path).take(12) =~= "https://sqex"@);
    assert(admin_uri(path).skip(12) =~= path);
    assert(admin_uri(other).skip(12) =~= other);
}

} // verus!
