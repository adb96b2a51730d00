//! The signed admin-command protocol.
//!
//! An administrator proves authority not by the connection's transport key —
//! a YubiKey cannot produce that — but by an Ed25519 signature over the command
//! itself. The signed bytes are a canonical, byte-stable encoding, and they
//! bind three things that together defeat replay and misdirection:
//!
//! - the **action** (what to do),
//! - a single-use **nonce** the server issued (defeats replay), and
//! - the **server's own public key** (defeats replaying a command captured
//!   against one server onto another).
//!
//! The signature is domain-separated by [`SIG_CONTEXT`] so it can never be
//! mistaken for a signature from any other context.

use vstd::prelude::*;
use crate::crypto::{ed25519_accepts, ed25519_point};
use crate::error::{Error, ErrorView, Result};
use crate::key::{not_a_point, verifies, PubKey};
use crate::text::{decimal_digits, hex_digits, hexadecimal, joined};
use crate::tx::{TransactionView, TX_CONTEXT};
use crate::wire::{
    be32, lemma_raw_cut, lemma_read_raw, lemma_u32_cut, lemma_read_u32, lemma_stands_split, lemma_u32_read, put_u32, read_raw,
    read_u32, stands_at, trailing, Reader,
};

pub use crate::tx::{Signer, SoftwareSigner};

verus! {

/// Domain separator prepended to every admin-command signature: the bytes of
/// `sqex-admin-v1`, the on-the-wire identifier of the admin protocol. Changing
/// it would invalidate every signature a deployed server already accepts.
pub const SIG_CONTEXT: [u8; 13] = [
    0x73,
    0x71,
    0x65,
    0x78,
    0x2d,
    0x61,
    0x64,
    0x6d,
    0x69,
    0x6e,
    0x2d,
    0x76,
    0x31,
];

/// A single-use challenge issued by the server.
pub type Nonce = [u8; 32];

/// What an administrator is asking the server to do.
#[derive(Debug, Clone, PartialEq, Eq)]
pub enum Action {
    /// Turn the managed whitelist on (enforce it on protected endpoints).
    WhitelistEnable,
    /// Turn the managed whitelist off (allow all who hold the server key).
    WhitelistDisable,
    /// Add a peer's Ed25519 key to the managed whitelist.
    WhitelistAdd(PubKey),
    /// Remove a peer's Ed25519 key from the managed whitelist.
    WhitelistRemove(PubKey),
    /// Read the current whitelist (enabled flag + keys).
    WhitelistList,
    /// Read server status (version, uptime, connection counters).
    Status,
    /// Re-read the admin list from the config file without restarting.
    ReloadAdmins,
    /// Read the last `n` audit entries.
    AuditTail(u32),
}

/// The bytes an administrator signs: the action, the server's nonce, and the
/// server's identity, in a fixed order.
#[derive(Debug, Clone, PartialEq, Eq)]
pub struct Command {
    pub action: Action,
    pub nonce: Nonce,
    pub server: PubKey,
}

/// A command plus the administrator's key and signature over it.
#[derive(Debug, Clone, PartialEq, Eq)]
pub struct SignedCommand {
    pub command: Command,
    pub admin: PubKey,
    pub signature: [u8; 64],
}

// ---------------------------------------------------------------------------
// The model
// ---------------------------------------------------------------------------

/// An [`Action`] with keys as sequences of bytes.
pub enum ActionView {
    WhitelistEnable,
    WhitelistDisable,
    WhitelistAdd(Seq<u8>),
    WhitelistRemove(Seq<u8>),
    WhitelistList,
    Status,
    ReloadAdmins,
    AuditTail(nat),
}

/// A [`Command`] as sequences.
pub struct CommandView {
    pub action: ActionView,
    pub nonce: Seq<u8>,
    pub server: Seq<u8>,
}

/// A [`SignedCommand`] as sequences.
pub struct SignedCommandView {
    pub command: CommandView,
    pub admin: Seq<u8>,
    pub signature: Seq<u8>,
}

impl View for Action {
    type V = ActionView;

    open spec fn view(&self) -> ActionView {
        match self {
            Action::WhitelistEnable => ActionView::WhitelistEnable,
            Action::WhitelistDisable => ActionView::WhitelistDisable,
            Action::WhitelistAdd(k) => ActionView::WhitelistAdd(k@),
            Action::WhitelistRemove(k) => ActionView::WhitelistRemove(k@),
            Action::WhitelistList => ActionView::WhitelistList,
            Action::Status => ActionView::Status,
            Action::ReloadAdmins => ActionView::ReloadAdmins,
            Action::AuditTail(n) => ActionView::AuditTail(*n as nat),
        }
    }
}

impl View for Command {
    type V = CommandView;

    open spec fn view(&self) -> CommandView {
        CommandView { action: self.action@, nonce: self.nonce@, server: self.server@ }
    }
}

impl View for SignedCommand {
    type V = SignedCommandView;

    open spec fn view(&self) -> SignedCommandView {
        SignedCommandView {
            command: self.command@,
            admin: self.admin@,
            signature: self.signature@,
        }
    }
}

impl ActionView {
    /// The byte that stands for the kind of action.
    pub open spec fn tag(self) -> u8 {
        match self {
            ActionView::WhitelistEnable => 0x01,
            ActionView::WhitelistDisable => 0x02,
            ActionView::WhitelistAdd(_) => 0x03,
            ActionView::WhitelistRemove(_) => 0x04,
            ActionView::WhitelistList => 0x05,
            ActionView::Status => 0x06,
            ActionView::ReloadAdmins => 0x07,
            ActionView::AuditTail(_) => 0x08,
        }
    }

    /// What follows the tag.
    pub open spec fn operand(self) -> Seq<u8> {
        match self {
            ActionView::WhitelistAdd(k) => k,
            ActionView::WhitelistRemove(k) => k,
            ActionView::AuditTail(n) => be32(n),
            _ => Seq::empty(),
        }
    }

    /// The action on the wire: its tag and its operand.
    pub open spec fn bytes(self) -> Seq<u8> {
        seq![self.tag()] + self.operand()
    }

    /// Whether an [`Action`] can have this view.
    pub open spec fn valid(self) -> bool {
        match self {
            ActionView::WhitelistAdd(k) => k.len() == 32,
            ActionView::WhitelistRemove(k) => k.len() == 32,
            ActionView::AuditTail(n) => n < 0x1_0000_0000,
            _ => true,
        }
    }

    /// The name of the kind of action.
    pub open spec fn name(self) -> Seq<char> {
        match self {
            ActionView::WhitelistEnable => "whitelist-enable"@,
            ActionView::WhitelistDisable => "whitelist-disable"@,
            ActionView::WhitelistAdd(_) => "whitelist-add"@,
            ActionView::WhitelistRemove(_) => "whitelist-remove"@,
            ActionView::WhitelistList => "whitelist-list"@,
            ActionView::Status => "status"@,
            ActionView::ReloadAdmins => "reload-admins"@,
            ActionView::AuditTail(_) => "audit-tail"@,
        }
    }

    /// Whether the action only reads.
    pub open spec fn reads_only(self) -> bool {
        self is WhitelistList || self is Status || self is AuditTail
    }
}

impl CommandView {
    /// The command on the wire: action, nonce, server.
    pub open spec fn bytes(self) -> Seq<u8> {
        self.action.bytes() + (self.nonce + self.server)
    }

    /// Whether a [`Command`] can have this view.
    pub open spec fn valid(self) -> bool {
        self.action.valid() && self.nonce.len() == 32 && self.server.len() == 32
    }

    /// What is signed: the domain separator and the command.
    pub open spec fn signing_bytes(self) -> Seq<u8> {
        SIG_CONTEXT@ + self.bytes()
    }
}

impl SignedCommandView {
    /// The signed command on the wire: the command, the administrator's key, and
    /// the signature.
    pub open spec fn bytes(self) -> Seq<u8> {
        self.command.bytes() + (self.admin + self.signature)
    }

    /// Whether a [`SignedCommand`] can have this view.
    pub open spec fn valid(self) -> bool {
        self.command.valid() && self.admin.len() == 32 && self.signature.len() == 64
    }

    /// What a server finds that expects commands for `expected`: the binding to
    /// the server is looked at first, then the key, then the signature.
    pub open spec fn verdict(self, expected: Seq<u8>) -> std::result::Result<(), ErrorView> {
        if self.command.server != expected {
            Err(ErrorView::WrongServer)
        } else if !ed25519_point(self.admin) {
            Err(not_a_point())
        } else if !ed25519_accepts(self.admin, self.command.signing_bytes(), self.signature) {
            Err(ErrorView::BadSignature)
        } else {
            Ok(())
        }
    }
}

// ---------------------------------------------------------------------------
// Reading
// ---------------------------------------------------------------------------

/// Reading the operand of an action with this tag at `at`.
pub open spec fn read_operand(b: Seq<u8>, at: int, tag: u8) -> std::result::Result<
    (ActionView, int),
    ErrorView,
> {
    if tag == 0x01 {
        Ok((ActionView::WhitelistEnable, at))
    } else if tag == 0x02 {
        Ok((ActionView::WhitelistDisable, at))
    } else if tag == 0x03 {
        match read_raw(b, at, 32) {
            Err(e) => Err(e),
            Ok((k, next)) => Ok((ActionView::WhitelistAdd(k), next)),
        }
    } else if tag == 0x04 {
        match read_raw(b, at, 32) {
            Err(e) => Err(e),
            Ok((k, next)) => Ok((ActionView::WhitelistRemove(k), next)),
        }
    } else if tag == 0x05 {
        Ok((ActionView::WhitelistList, at))
    } else if tag == 0x06 {
        Ok((ActionView::Status, at))
    } else if tag == 0x07 {
        Ok((ActionView::ReloadAdmins, at))
    } else if tag == 0x08 {
        match read_u32(b, at) {
            Err(e) => Err(e),
            Ok((n, next)) => Ok((ActionView::AuditTail(n), next)),
        }
    } else {
        Err(ErrorView::Malformed("unknown action tag 0x"@ + hex_digits(tag as nat)))
    }
}

/// Reading an action at `at`.
pub open spec fn read_action(b: Seq<u8>, at: int) -> std::result::Result<
    (ActionView, int),
    ErrorView,
> {
    match read_raw(b, at, 1) {
        Err(e) => Err(e),
        Ok((tag, next)) => read_operand(b, next, tag[0]),
    }
}

/// Reading a command at `at`.
pub open spec fn read_command(b: Seq<u8>, at: int) -> std::result::Result<
    (CommandView, int),
    ErrorView,
> {
    match read_action(b, at) {
        Err(e) => Err(e),
        Ok((action, p1)) => match read_raw(b, p1, 32) {
            Err(e) => Err(e),
            Ok((nonce, p2)) => match read_raw(b, p2, 32) {
                Err(e) => Err(e),
                Ok((server, p3)) => Ok((CommandView { action, nonce, server }, p3)),
            },
        },
    }
}

/// Reading a message that is one signed command.
pub open spec fn read_signed_command(b: Seq<u8>) -> std::result::Result<
    SignedCommandView,
    ErrorView,
> {
    match read_command(b, 0) {
        Err(e) => Err(e),
        Ok((command, p1)) => match read_raw(b, p1, 32) {
            Err(e) => Err(e),
            Ok((admin, p2)) => match read_raw(b, p2, 64) {
                Err(e) => Err(e),
                Ok((signature, p3)) => match trailing(b.len(), p3) {
                    Some(e) => Err(e),
                    None => Ok(SignedCommandView { command, admin, signature }),
                },
            },
        },
    }
}

// ---------------------------------------------------------------------------
// Actions and commands
// ---------------------------------------------------------------------------

impl Action {
    fn tag(&self) -> (r: u8)
        ensures
            r == self@.tag(),
    {
        match self {
            Action::WhitelistEnable => 0x01,
            Action::WhitelistDisable => 0x02,
            Action::WhitelistAdd(_) => 0x03,
            Action::WhitelistRemove(_) => 0x04,
            Action::WhitelistList => 0x05,
            Action::Status => 0x06,
            Action::ReloadAdmins => 0x07,
            Action::AuditTail(_) => 0x08,
        }
    }

    fn encode(&self, out: &mut Vec<u8>)
        ensures
            final(out)@ == old(out)@ + self@.bytes(),
    {
        out.push(self.tag());
        match self {
            Action::WhitelistAdd(k) => out.extend_from_slice(k.as_bytes()),
            Action::WhitelistRemove(k) => out.extend_from_slice(k.as_bytes()),
            Action::AuditTail(n) => put_u32(out, *n as usize),
            _ => {},
        }
        assert(out@ =~= old(out)@ + self@.bytes());
    }

    fn decode(r: &mut Reader) -> (res: Result<Action>)
        requires
            old(r).wf(),
        ensures
            final(r).wf(),
            final(r).buf@ == old(r).buf@,
            match res {
                Ok(a) => read_action(old(r).buf@, old(r).pos as int) == Ok::<
                    (ActionView, int),
                    ErrorView,
                >((a@, final(r).pos as int)),
                Err(e) => read_action(old(r).buf@, old(r).pos as int) == Err::<
                    (ActionView, int),
                    ErrorView,
                >(e@),
            },
    {
        let tag: u8 = r.u8()?;
        match tag {
            0x01 => Ok(Action::WhitelistEnable),
            0x02 => Ok(Action::WhitelistDisable),
            0x03 => Ok(Action::WhitelistAdd(PubKey::new(r.array::<32>()?))),
            0x04 => Ok(Action::WhitelistRemove(PubKey::new(r.array::<32>()?))),
            0x05 => Ok(Action::WhitelistList),
            0x06 => Ok(Action::Status),
            0x07 => Ok(Action::ReloadAdmins),
            0x08 => Ok(Action::AuditTail(r.u32()?)),
            other => {
                let digits = hexadecimal(other as u64);
                Err(Error::Malformed(joined("unknown action tag 0x", digits.as_str())))
            },
        }
    }

    /// A short, stable name for logs and audit records.
    pub fn name(&self) -> (r: &'static str)
        ensures
            r@ == self@.name(),
            match self {
                Action::WhitelistEnable => r@ == "whitelist-enable"@,
                Action::WhitelistDisable => r@ == "whitelist-disable"@,
                Action::WhitelistAdd(_) => r@ == "whitelist-add"@,
                Action::WhitelistRemove(_) => r@ == "whitelist-remove"@,
                Action::WhitelistList => r@ == "whitelist-list"@,
                Action::Status => r@ == "status"@,
                Action::ReloadAdmins => r@ == "reload-admins"@,
                Action::AuditTail(_) => r@ == "audit-tail"@,
            },
    {
        match self {
            Action::WhitelistEnable => "whitelist-enable",
            Action::WhitelistDisable => "whitelist-disable",
            Action::WhitelistAdd(_) => "whitelist-add",
            Action::WhitelistRemove(_) => "whitelist-remove",
            Action::WhitelistList => "whitelist-list",
            Action::Status => "status",
            Action::ReloadAdmins => "reload-admins",
            Action::AuditTail(_) => "audit-tail",
        }
    }

    /// Whether the action changes server state (vs. a pure read). Reads still
    /// require a valid signature and nonce, but only mutations are audited.
    pub fn is_mutation(&self) -> (r: bool)
        ensures
            r == !self@.reads_only(),
            !r <==> self is WhitelistList || self is Status || self is AuditTail,
    {
        match self {
            Action::WhitelistEnable => true,
            Action::WhitelistDisable => true,
            Action::WhitelistAdd(_) => true,
            Action::WhitelistRemove(_) => true,
            Action::ReloadAdmins => true,
            _ => false,
        }
    }
}

impl Command {
    /// Canonical encoding. The same bytes are both the wire form and the
    /// signature input, so there is exactly one representation to sign or check.
    pub fn encode(&self) -> (r: Vec<u8>)
        ensures
            r@ == self@.bytes(),
    {
        let mut out: Vec<u8> = Vec::new();
        self.action.encode(&mut out);
        out.extend_from_slice(&self.nonce);
        out.extend_from_slice(self.server.as_bytes());
        assert(out@ =~= self@.bytes());
        out
    }

    fn decode(r: &mut Reader) -> (res: Result<Command>)
        requires
            old(r).wf(),
        ensures
            final(r).wf(),
            final(r).buf@ == old(r).buf@,
            match res {
                Ok(c) => read_command(old(r).buf@, old(r).pos as int) == Ok::<
                    (CommandView, int),
                    ErrorView,
                >((c@, final(r).pos as int)),
                Err(e) => read_command(old(r).buf@, old(r).pos as int) == Err::<
                    (CommandView, int),
                    ErrorView,
                >(e@),
            },
    {
        let action = Action::decode(r)?;
        let nonce = r.array::<32>()?;
        let server = PubKey::new(r.array::<32>()?);
        Ok(Command { action, nonce, server })
    }

    /// The domain-separated bytes actually passed to Ed25519. Public so a
    /// fallible hardware signer (a YubiKey) can obtain them, sign out of band,
    /// and assemble a [`SignedCommand`] directly — the infallible [`Signer`]
    /// trait does not fit a card that can fail or need a PIN.
    pub fn signing_bytes(&self) -> (r: Vec<u8>)
        ensures
            r@ == self@.signing_bytes(),
            r@ == SIG_CONTEXT@ + self@.bytes(),
    {
        let body = self.encode();
        let mut msg: Vec<u8> = Vec::new();
        msg.extend_from_slice(&SIG_CONTEXT);
        msg.extend_from_slice(body.as_slice());
        assert(msg@ =~= self@.signing_bytes());
        msg
    }
}

impl SignedCommand {
    /// Sign `command` with `signer`. The signer's public key is recorded as the
    /// claimed admin identity; [`verify`](Self::verify) confirms the signature
    /// matches it. If what the signer signs stands up to its public key, the
    /// result verifies at the command's server and at no other.
    pub fn create(command: Command, signer: &dyn Signer) -> (r: Self)
        ensures
            r.command == command,
            r@.admin == signer.public_key(),
            signer.signs(command@.signing_bytes(), r@.signature),
            r.admin@ == signer.public_key(),
            signer.signs(SIG_CONTEXT@ + command@.bytes(), r.signature@),
            (forall|m: Seq<u8>, s: Seq<u8>| #[trigger]
                signer.signs(m, s) ==> verifies(signer.public_key(), m, s)) ==> forall|e: Seq<u8>|
                #[trigger] r@.verdict(e) == if command@.server == e {
                    Ok::<(), ErrorView>(())
                } else {
                    Err(ErrorView::WrongServer)
                },
    {
        let signature = signer.sign(command.signing_bytes().as_slice());
        let admin = PubKey::new(signer.public());
        SignedCommand { command, admin, signature }
    }

    /// Verify the signature and the server binding.
    ///
    /// On success the caller still must (1) confirm the nonce is one it issued
    /// and has not seen, and (2) confirm `self.admin` is an authorized admin —
    /// both are stateful and live in the server. This method shows only that
    /// the bytes were signed by the holder of `self.admin`'s private key, for
    /// this server.
    pub fn verify(&self, expected_server: &PubKey) -> (r: Result<()>)
        ensures
            match r {
                Ok(_) => self@.verdict(expected_server@) is Ok,
                Err(e) => self@.verdict(expected_server@) == Err::<(), ErrorView>(e@),
            },
            r is Ok <==> {
                &&& self.command.server@ == expected_server@
                &&& ed25519_point(self.admin@)
                &&& ed25519_accepts(
                    self.admin@,
                    SIG_CONTEXT@ + self.command@.bytes(),
                    self.signature@,
                )
            },
            r matches Err(e) ==> match e {
                Error::WrongServer => self.command.server@ != expected_server@,
                Error::Key(_) => self.command.server@ == expected_server@ && !ed25519_point(
                    self.admin@,
                ),
                Error::BadSignature => self.command.server@ == expected_server@ && ed25519_point(
                    self.admin@,
                ),
                _ => false,
            },
    {
        if self.command.server != *expected_server {
            return Err(Error::WrongServer);
        }
        let vk = self.admin.verifying_key()?;
        if vk.verify(self.command.signing_bytes().as_slice(), &self.signature) {
            Ok(())
        } else {
            Err(Error::BadSignature)
        }
    }

    /// Wire form: canonical command bytes, then the admin key, then the
    /// signature. This is the HTTP/3 request body.
    pub fn encode(&self) -> (r: Vec<u8>)
        ensures
            r@ == self@.bytes(),
    {
        let mut out = self.command.encode();
        out.extend_from_slice(self.admin.as_bytes());
        out.extend_from_slice(&self.signature);
        assert(out@ =~= self@.bytes());
        out
    }

    /// Reads the wire form.
    pub fn decode(bytes: &[u8]) -> (res: Result<SignedCommand>)
        ensures
            match res {
                Ok(c) => read_signed_command(bytes@) == Ok::<SignedCommandView, ErrorView>(c@)
                    && c@.valid() && c@.bytes() == bytes@,
                Err(e) => read_signed_command(bytes@) == Err::<SignedCommandView, ErrorView>(e@)
                    && e@ is Malformed && forall|c: SignedCommandView|
                    #![trigger c.bytes()]
                    c.valid() ==> c.bytes() != bytes@,
            },
    {
        proof {
            assert(bytes@.len() == bytes.len());
            assert forall|c: SignedCommandView|
                #![trigger c.bytes()]
                c.valid() && c.bytes() == bytes@ implies read_signed_command(bytes@) is Ok by {
                lemma_read_signed_command(bytes@, c);
            }
            command_decode_is_canonical(bytes@);
        }
        let mut r = Reader::new(bytes);
        let command = Command::decode(&mut r)?;
        let admin = PubKey::new(r.array::<32>()?);
        let signature = r.array::<64>()?;
        r.finish()?;
        Ok(SignedCommand { command, admin, signature })
    }
}

// ---------------------------------------------------------------------------
// Laws
// ---------------------------------------------------------------------------

/// An action that stands at a position is read there.
proof fn lemma_read_action(b: Seq<u8>, at: int, a: ActionView)
    requires
        b.len() <= usize::MAX,
        a.valid(),
        stands_at(b, at, a.bytes()),
    ensures
        read_action(b, at) == Ok::<(ActionView, int), ErrorView>((a, at + a.bytes().len())),
{
    lemma_stands_split(b, at, seq![a.tag()], a.operand());
    lemma_read_raw(b, at, seq![a.tag()]);
    match a {
        ActionView::WhitelistAdd(k) => lemma_read_raw(b, at + 1, k),
        ActionView::WhitelistRemove(k) => lemma_read_raw(b, at + 1, k),
        ActionView::AuditTail(n) => lemma_read_u32(b, at + 1, n),
        _ => {},
    }
}

/// The action that was read stands where it was read.
proof fn lemma_action_read(b: Seq<u8>, at: int)
    requires
        0 <= at,
    ensures
        read_action(b, at) matches Ok((a, next)) ==> a.valid() && next == at + a.bytes().len()
            && stands_at(b, at, a.bytes()),
{
    if let Ok((a, next)) = read_action(b, at) {
        lemma_u32_read(b, at + 1);
        assert(b.subrange(at, at + 1) =~= seq![a.tag()]);
        assert(b.subrange(at + 1, at + 1) =~= Seq::<u8>::empty());
        lemma_stands_split(b, at, seq![a.tag()], a.operand());
    }
}

proof fn lemma_read_signed_command(b: Seq<u8>, c: SignedCommandView)
    requires
        b.len() <= usize::MAX,
        c.valid(),
        c.bytes() == b,
    ensures
        read_signed_command(b) == Ok::<SignedCommandView, ErrorView>(c),
{
    assert(b.subrange(0, b.len() as int) =~= b);
    let s1 = c.command.action.bytes();
    let s2 = c.command.nonce + c.command.server;
    lemma_stands_split(b, 0, c.command.bytes(), c.admin + c.signature);
    lemma_stands_split(b, 0, s1, s2);
    lemma_stands_split(b, s1.len() as int, c.command.nonce, c.command.server);
    lemma_stands_split(b, c.command.bytes().len() as int, c.admin, c.signature);
    lemma_read_action(b, 0, c.command.action);
    let p1 = s1.len() as int;
    lemma_read_raw(b, p1, c.command.nonce);
    lemma_read_raw(b, p1 + 32, c.command.server);
    lemma_read_raw(b, p1 + 64, c.admin);
    lemma_read_raw(b, p1 + 96, c.signature);
}

/// Decoding gives back what was encoded, for every signed command.
pub proof fn command_decode_inverts_encode(c: SignedCommandView)
    requires
        c.valid(),
    ensures
        read_signed_command(c.bytes()) == Ok::<SignedCommandView, ErrorView>(c),
{
    lemma_read_signed_command(c.bytes(), c);
}

/// There is exactly one representation: a message that decodes is the encoding
/// of what it decodes to.
pub proof fn command_decode_is_canonical(b: Seq<u8>)
    ensures
        read_signed_command(b) matches Ok(c) ==> c.valid() && c.bytes() == b,
{
    if let Ok(c) = read_signed_command(b) {
        lemma_action_read(b, 0);
        let s1 = c.command.action.bytes();
        let s2 = c.command.nonce + c.command.server;
        lemma_stands_split(b, s1.len() as int, c.command.nonce, c.command.server);
        lemma_stands_split(b, 0, s1, s2);
        lemma_stands_split(b, c.command.bytes().len() as int, c.admin, c.signature);
        lemma_stands_split(b, 0, c.command.bytes(), c.admin + c.signature);
        assert(b.subrange(0, b.len() as int) =~= b);
    }
}

/// The signed bytes determine the command: the action, the nonce and the server
/// are all bound.
pub proof fn signing_bytes_tell_commands_apart(a: CommandView, b: CommandView)
    requires
        a.valid(),
        b.valid(),
        a.signing_bytes() == b.signing_bytes(),
    ensures
        a == b,
{
    assert(a.bytes() =~= a.signing_bytes().skip(13));
    assert(b.bytes() =~= b.signing_bytes().skip(13));
    let key = Seq::new(32, |i: int| 0u8);
    let sig = Seq::new(64, |i: int| 0u8);
    let x = SignedCommandView { command: a, admin: key, signature: sig };
    let y = SignedCommandView { command: b, admin: key, signature: sig };
    command_decode_inverts_encode(x);
    command_decode_inverts_encode(y);
}

/// The two domain separators keep the protocols apart: no message is signed
/// both as a command and as a transaction.
pub proof fn signing_domains_are_disjoint(c: CommandView, t: TransactionView)
    ensures
        c.signing_bytes() != t.signing_bytes(),
{
    assert(c.signing_bytes()[2] == SIG_CONTEXT@[2]);
    assert(t.signing_bytes()[2] == TX_CONTEXT@[2]);
}

/// What carries a signature that stands up to its administrator's key verifies
/// at the server it was signed for, and at no other.
pub proof fn signed_command_verifies_at_its_server(signed: SignedCommandView, expected: Seq<u8>)
    requires
        verifies(signed.admin, signed.command.signing_bytes(), signed.signature),
    ensures
        signed.verdict(expected) == if signed.command.server == expected {
            Ok::<(), ErrorView>(())
        } else {
            Err(ErrorView::WrongServer)
        },
{
}

/// A command is viewed field by field, with nothing left out.
pub proof fn commands_are_viewed_whole(a: Action, c: Command, s: SignedCommand)
    ensures
        match a {
            Action::WhitelistEnable => a@ == ActionView::WhitelistEnable,
            Action::WhitelistDisable => a@ == ActionView::WhitelistDisable,
            Action::WhitelistAdd(k) => a@ == ActionView::WhitelistAdd(k@),
            Action::WhitelistRemove(k) => a@ == ActionView::WhitelistRemove(k@),
            Action::WhitelistList => a@ == ActionView::WhitelistList,
            Action::Status => a@ == ActionView::Status,
            Action::ReloadAdmins => a@ == ActionView::ReloadAdmins,
            Action::AuditTail(n) => a@ == ActionView::AuditTail(n as nat),
        },
        c@.action == c.action@,
        c@.nonce == c.nonce@,
        c@.server == c.server@,
        s@.command == s.command@,
        s@.admin == s.admin@,
        s@.signature == s.signature@,
{
}

/// A command begins with one byte that tells the kind of its action, then has
/// the key or the number that the action takes, if it takes one, and ends with
/// nonce and server; a signed one ends with the administrator's key and the
/// signature.
pub proof fn commands_are_laid_out_in_order(s: SignedCommandView, k: Seq<u8>, m: nat)
    requires
        s.valid(),
    ensures
        ActionView::WhitelistEnable.bytes() == seq![1u8],
        ActionView::WhitelistDisable.bytes() == seq![2u8],
        ActionView::WhitelistAdd(k).bytes() == seq![3u8] + k,
        ActionView::WhitelistRemove(k).bytes() == seq![4u8] + k,
        ActionView::WhitelistList.bytes() == seq![5u8],
        ActionView::Status.bytes() == seq![6u8],
        ActionView::ReloadAdmins.bytes() == seq![7u8],
        ActionView::AuditTail(m).bytes() == seq![8u8] + be32(m),
        ({
            let c = s.command;
            let p = c.action.bytes().len() as int;
            &&& c.bytes().len() == p + 64
            &&& c.bytes().subrange(0, p) == c.action.bytes()
            &&& c.bytes().subrange(p, p + 32) == c.nonce
            &&& c.bytes().subrange(p + 32, p + 64) == c.server
            &&& s.bytes().len() == p + 160
            &&& s.bytes().subrange(0, p + 64) == c.bytes()
            &&& s.bytes().subrange(p + 64, p + 96) == s.admin
            &&& s.bytes().subrange(p + 96, p + 160) == s.signature
        }),
{
    let c = s.command;
    let p = c.action.bytes().len() as int;
    assert(c.bytes().subrange(0, p) =~= c.action.bytes());
    assert(c.bytes().subrange(p, p + 32) =~= c.nonce);
    assert(c.bytes().subrange(p + 32, p + 64) =~= c.server);
    assert(s.bytes().subrange(0, p + 64) =~= c.bytes());
    assert(s.bytes().subrange(p + 64, p + 96) =~= s.admin);
    assert(s.bytes().subrange(p + 96, p + 160) =~= s.signature);
    assert(ActionView::WhitelistEnable.bytes() =~= seq![1u8]);
    assert(ActionView::WhitelistDisable.bytes() =~= seq![2u8]);
    assert(ActionView::WhitelistList.bytes() =~= seq![5u8]);
    assert(ActionView::Status.bytes() =~= seq![6u8]);
    assert(ActionView::ReloadAdmins.bytes() =~= seq![7u8]);
}

/// What is signed is the domain separator and then the command, all of it.
pub proof fn command_signing_bytes_hold_the_whole_command(c: CommandView)
    ensures
        c.signing_bytes().take(13) == SIG_CONTEXT@,
        SIG_CONTEXT@ == seq![
            0x73u8,
            0x71u8,
            0x65u8,
            0x78u8,
            0x2du8,
            0x61u8,
            0x64u8,
            0x6du8,
            0x69u8,
            0x6eu8,
            0x2du8,
            0x76u8,
            0x31u8,
        ],
        c.signing_bytes().skip(13) == c.bytes(),
{
    assert(c.signing_bytes().take(13) =~= SIG_CONTEXT@);
    assert(c.signing_bytes().skip(13) =~= c.bytes());
}

/// A server accepts a signed command if and only if it names that server, the
/// administrator's key is a point, and that key accepts the signature over the
/// separator and the whole command. Of several faults the server's comes first,
/// then the key's.
pub proof fn command_verdict_asks_for_server_key_and_signature(s: SignedCommandView, e: Seq<u8>)
    ensures
        s.verdict(e) is Ok <==> {
            &&& s.command.server == e
            &&& ed25519_point(s.admin)
            &&& ed25519_accepts(s.admin, SIG_CONTEXT@ + s.command.bytes(), s.signature)
        },
        s.verdict(e) == Err::<(), ErrorView>(ErrorView::WrongServer) <==> s.command.server != e,
        s.verdict(e) == Err::<(), ErrorView>(ErrorView::BadSignature) <==> {
            &&& s.command.server == e
            &&& ed25519_point(s.admin)
            &&& !ed25519_accepts(s.admin, SIG_CONTEXT@ + s.command.bytes(), s.signature)
        },
        s.verdict(e) == Err::<(), ErrorView>(
            ErrorView::Key(
                "not a valid Ed25519 public key: "@
                    + "signature error: Cannot decompress Edwards point"@,
            ),
        ) <==> s.command.server == e && !ed25519_point(s.admin),
{
}

/// The views that a signed command can have are those with keys of 32 bytes, a
/// signature of 64 and a number that fits.
pub proof fn valid_commands_in_numbers(s: SignedCommandView)
    ensures
        s.valid() <==> {
            &&& s.command.nonce.len() == 32
            &&& s.command.server.len() == 32
            &&& s.admin.len() == 32
            &&& s.signature.len() == 64
            &&& s.command.action matches ActionView::WhitelistAdd(k) ==> k.len() == 32
            &&& s.command.action matches ActionView::WhitelistRemove(k) ==> k.len() == 32
            &&& s.command.action matches ActionView::AuditTail(n) ==> n < 0x1_0000_0000
        },
{
}

/// A message whose first byte tells no action is refused with that byte.
pub proof fn unknown_actions_are_named(b: Seq<u8>)
    requires
        1 <= b.len(),
        b[0] == 0 || b[0] > 8,
    ensures
        read_signed_command(b) == Err::<SignedCommandView, ErrorView>(
            ErrorView::Malformed("unknown action tag 0x"@ + hex_digits(b[0] as nat)),
        ),
{
    assert(b.subrange(0, 1)[0] == b[0]);
}

proof fn lemma_action_cut(b: Seq<u8>, k: int)
    requires
        0 <= k <= b.len() <= usize::MAX,
    ensures
        read_action(b, 0) matches Ok((x, next)) ==> read_action(b.take(k), 0) == (if next <= k {
            Ok::<(ActionView, int), ErrorView>((x, next))
        } else {
            Err(ErrorView::Malformed("unexpected end of message"@))
        }),
{
    lemma_raw_cut(b, k, 0, 1);
    if 1 <= k {
        lemma_raw_cut(b, k, 1, 32);
        lemma_u32_cut(b, k, 1);
    }
}

/// A message that is cut short anywhere is refused for its end, and for nothing
/// else.
pub proof fn a_cut_command_ends_early(s: SignedCommandView, k: int)
    requires
        s.valid(),
        0 <= k < s.bytes().len(),
    ensures
        read_signed_command(s.bytes().take(k)) == Err::<SignedCommandView, ErrorView>(
            ErrorView::Malformed("unexpected end of message"@),
        ),
{
    let b = s.bytes();
    command_decode_inverts_encode(s);
    lemma_action_read(b, 0);
    lemma_action_cut(b, k);
    let p = s.command.action.bytes().len() as int;
    if p <= k {
        lemma_raw_cut(b, k, p, 32);
    }
    if p + 32 <= k {
        lemma_raw_cut(b, k, p + 32, 32);
    }
    if p + 64 <= k {
        lemma_raw_cut(b, k, p + 64, 32);
    }
    if p + 96 <= k {
        lemma_raw_cut(b, k, p + 96, 64);
    }
}

/// A message with more behind it is refused with the number of bytes too many.
pub proof fn bytes_behind_a_command_are_counted(s: SignedCommandView, extra: Seq<u8>)
    requires
        s.valid(),
        extra.len() > 0,
        s.bytes().len() + extra.len() <= usize::MAX,
    ensures
        read_signed_command(s.bytes() + extra) == Err::<SignedCommandView, ErrorView>(
            ErrorView::Malformed(decimal_digits(extra.len()) + " trailing bytes"@),
        ),
{
    let b = s.bytes() + extra;
    let c = s.command;
    let p = c.action.bytes().len() as int;
    assert(b.subrange(0, s.bytes().len() as int) =~= s.bytes());
    lemma_stands_split(b, 0, c.bytes(), s.admin + s.signature);
    lemma_stands_split(b, 0, c.action.bytes(), c.nonce + c.server);
    lemma_stands_split(b, p, c.nonce, c.server);
    lemma_stands_split(b, p + 64, s.admin, s.signature);
    lemma_read_action(b, 0, c.action);
    lemma_read_raw(b, p, c.nonce);
    lemma_read_raw(b, p + 32, c.server);
    lemma_read_raw(b, p + 64, s.admin);
    lemma_read_raw(b, p + 96, s.signature);
}

} // verus!
