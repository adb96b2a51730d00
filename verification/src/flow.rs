//! The one admin transaction: fetch a challenge, sign a batch, submit it.
//!
//! This is the whole authority protocol, step by step. The caller supplies
//! opaque [`Operation`]s already carrying their human context; here they are
//! bound to a live server nonce, signed once as a batch, and submitted. Only a
//! transaction bound to a fresh nonce is ever signed, so retrying after a
//! dropped connection simply runs the steps again with a new challenge — a
//! captured signature cannot be double-applied.
//!
//! Each step takes the state by value together with what the network or the
//! signer answered, and gives the next state:
//!
//! 1. [`Batch::start`] and [`Batch::request`]: ask the server for a challenge;
//! 2. [`Batch::challenged`]: bind the batch to the nonce that came back;
//! 3. [`Challenged::sign`]: sign, after the operator has seen
//!    [`Challenged::transaction`];
//! 4. [`Challenged::submit`]: submit the signed batch;
//! 5. [`read_reply`]: read the server's answer.

use vstd::prelude::*;
use crate::client::{admin_uri, Request};
use crate::crypto::{ed25519_signature, sha256};
use crate::error::ErrorView;
use crate::key::{array_of, key_length, verifies, PubKey};
use crate::signer::{Backend, Custody, Signing};
use crate::text::{decimal, decimal_digits, joined, trim, trimmed};
use crate::tx::{
    decode_inverts_encode, operations, read_signed, signed_verifies_at_its_server, Operation,
    SignedTransaction, SignedTransactionView, Transaction, TransactionView, TX_CONTEXT,
};

verus! {

/// A reply to a request: the status and the body, or why there is none.
pub type Reply = Result<(u16, Vec<u8>), String>;

/// A batch of operations on its way to `server`, not yet bound to a nonce.
pub struct Batch {
    server: PubKey,
    ops: Vec<Operation>,
}

/// A transaction bound to the nonce that the server issued for it, not yet
/// signed.
pub struct Challenged {
    transaction: Transaction,
}

impl Batch {
    /// The server that the batch is for.
    pub closed spec fn server(self) -> Seq<u8> {
        self.server@
    }

    /// The operations, in order.
    pub closed spec fn ops(self) -> Seq<Operation> {
        self.ops@
    }

    /// Starts a batch for `server`. There must be something to sign.
    pub fn start(server: PubKey, ops: Vec<Operation>) -> (r: Result<Batch, String>)
        ensures
            match r {
                Ok(b) => ops@.len() > 0 && b.server() == server@ && b.ops() == ops@,
                Err(e) => ops@.len() == 0 && e@ == "nothing to sign (empty transaction)"@,
            },
    {
        if ops.len() == 0 {
            return Err("nothing to sign (empty transaction)".to_string());
        }
        Ok(Batch { server, ops })
    }

    /// The request for a challenge.
    pub fn request(&self) -> (r: Request)
        ensures
            r.method@ == "GET"@,
            r.uri@ == admin_uri("/admin/challenge"@),
            r.uri@ == "https://sqex"@ + "/admin/challenge"@,
            r.body is None,
    {
        Request::get("/admin/challenge")
    }

    /// Binds the batch to the nonce in the server's reply, which must be a
    /// success of exactly 32 bytes.
    pub fn challenged(self, reply: Reply) -> (r: Result<Challenged, String>)
        ensures
            match reply {
                Err(e) => r matches Err(text) && text@ == e@,
                Ok((status, body)) => if status == 200 && body@.len() == 32 {
                    r matches Ok(c) && c.bound() == (TransactionView {
                        server: self.server(),
                        nonce: body@,
                        ops: operations(self.ops()),
                    })
                } else {
                    r matches Err(text) && text@ == "challenge failed (status "@ + decimal_digits(
                        status as nat,
                    ) + ")"@
                },
            },
    {
        let (status, body) = reply?;
        if status != 200 || body.len() != 32 {
            let code = decimal(status as u64);
            return Err(joined(joined("challenge failed (status ", code.as_str()).as_str(), ")"));
        }
        let nonce: [u8; 32] = array_of(body.as_slice());
        Ok(Challenged { transaction: Transaction { server: self.server, nonce, ops: self.ops } })
    }
}

impl Challenged {
    /// The transaction to be signed.
    pub closed spec fn bound(self) -> TransactionView {
        self.transaction@
    }

    /// The transaction with an administrator's key and signature.
    pub open spec fn signed(self, admin: Seq<u8>, signature: Seq<u8>) -> SignedTransactionView {
        SignedTransactionView { transaction: self.bound(), admin, signature }
    }

    /// Exactly what is about to be authorized, for the operator to review.
    pub fn transaction(&self) -> (r: &Transaction)
        ensures
            r@ == self.bound(),
    {
        &self.transaction
    }

    /// The message that a card has to sign.
    pub fn message(&self) -> (r: Vec<u8>)
        ensures
            r@ == self.bound().signing_bytes(),
            r@ == TX_CONTEXT@ + sha256(self.bound().bytes()),
    {
        self.transaction.signing_bytes()
    }

    /// Signs with a software identity, or names the card that has to be asked
    /// (and touched).
    pub fn sign<'a, C>(&self, backend: &'a Backend<C>) -> (r: Signing<'a, C>)
        ensures
            match backend.custody() {
                Custody::Software(seed) => r matches Signing::Done(sig) && sig@
                    == ed25519_signature(seed, self.bound().signing_bytes()) && sig@
                    == ed25519_signature(
                    seed,
                    TX_CONTEXT@ + sha256(self.bound().bytes()),
                ) && verifies(
                    backend.public_key(),
                    self.bound().signing_bytes(),
                    sig@,
                ),
                Custody::Yubi(card) => r matches Signing::OnCard(c) && *c == card,
            },
    {
        backend.sign(self.message().as_slice())
    }

    /// The request that submits the transaction with the signature and the key of
    /// the backend that gave it. A signature that stands up to that key verifies
    /// at the transaction's server.
    pub fn submit<C>(
        self,
        backend: &Backend<C>,
        signature: Result<[u8; 64], String>,
    ) -> (r: Result<Request, String>)
        ensures
            match signature {
                Err(e) => r matches Err(text) && text@ == e@,
                Ok(sig) => {
                    &&& r matches Ok(request)
                    &&& request.method@ == "POST"@
                    &&& request.uri@ == admin_uri("/admin/command"@)
                    &&& request.uri@ == "https://sqex"@ + "/admin/command"@
                    &&& request.body matches Some(body)
                    &&& body@ == self.signed(backend.public_key(), sig@).bytes()
                    &&& body@ == self.bound().bytes() + backend.public_key() + sig@
                    &&& verifies(backend.public_key(), self.bound().signing_bytes(), sig@)
                        ==> self.signed(backend.public_key(), sig@).verdict(
                        self.bound().server,
                    ) is Ok
                },
            },
    {
        let signature = signature?;
        let admin = backend.public();
        let signed = SignedTransaction { transaction: self.transaction, admin, signature };
        let body = signed.encode();
        assert(body@ =~= self.bound().bytes() + backend.public_key() + signature@);
        Ok(Request::post("/admin/command", body))
    }
}

/// The outside type of a JSON value, carried through as it is.
#[verifier::external_type_specification]
#[verifier::external_body]
pub struct ExValue(serde_json::Value);

/// The JSON value that `body` writes; `None` where it writes none.
pub uninterp spec fn json_value(body: Seq<u8>) -> Option<serde_json::Value>;

/// The text that a JSON object has under `field`; `None` where `value` is no
/// object or has no text there.
pub uninterp spec fn value_text(value: serde_json::Value, field: Seq<char>) -> Option<Seq<char>>;

/// The JSON text of null, `null`.
pub const JSON_NULL: [u8; 4] = [0x6e, 0x75, 0x6c, 0x6c];

/// Calls `serde_json::from_slice`. Whether the body is JSON, and which value it
/// writes, is a function of the body; the text of null is JSON.
#[verifier::external_body]
fn json_parse(body: &[u8]) -> (r: Option<serde_json::Value>)
    ensures
        r == json_value(body@),
        body@ == JSON_NULL@ ==> r is Some,
{
    serde_json::from_slice(body).ok()
}

/// Indexes a `serde_json::Value` with the name of a field and calls `as_str`.
/// Whether there is a text, and which, is a function of the value and the name.
#[verifier::external_body]
fn json_field(value: &serde_json::Value, field: &str) -> (r: Option<String>)
    ensures
        match r {
            Some(s) => value_text(*value, field@) == Some(s@),
            None => value_text(*value, field@) is None,
        },
{
    value[field].as_str().map(|s| s.to_string())
}

/// What a reply says: the JSON value of its body, or null where its body is no
/// JSON.
pub open spec fn reply_value(body: Seq<u8>) -> Option<serde_json::Value> {
    match json_value(body) {
        Some(v) => Some(v),
        None => json_value(JSON_NULL@),
    }
}

fn parsed_or_null(body: &[u8]) -> (r: serde_json::Value)
    ensures
        reply_value(body@) == Some(r),
{
    match json_parse(body) {
        Some(v) => v,
        None => json_parse(&JSON_NULL).unwrap(),
    }
}

/// What is said of a reply with another status than success: the kind of error
/// and its detail as far as the server gave them.
pub open spec fn refusal_text(
    status: nat,
    kind: Option<Seq<char>>,
    detail: Option<Seq<char>>,
) -> Seq<char> {
    let kind = match kind {
        Some(k) => k,
        None => "error"@,
    };
    let detail = match detail {
        Some(d) => d,
        None => ""@,
    };
    trimmed(kind + " ("@ + decimal_digits(status) + ") "@ + detail)
}

/// The text as characters.
pub open spec fn text_view(s: Option<String>) -> Option<Seq<char>> {
    match s {
        Some(s) => Some(s@),
        None => None,
    }
}

/// Writes what is said of a refused submission.
pub fn refusal(status: u16, kind: Option<String>, detail: Option<String>) -> (r: String)
    ensures
        r@ == refusal_text(status as nat, text_view(kind), text_view(detail)),
        r@ == trimmed(
            (match kind {
                Some(k) => k@,
                None => "error"@,
            }) + " ("@ + decimal_digits(status as nat) + ") "@ + (match detail {
                Some(d) => d@,
                None => ""@,
            }),
        ),
{
    let mut text = match kind {
        Some(k) => k,
        None => "error".to_string(),
    };
    text.append(" (");
    text.append(decimal(status as u64).as_str());
    text.append(") ");
    match detail {
        Some(d) => text.append(d.as_str()),
        None => text.append(""),
    }
    trim(text.as_str()).to_string()
}

/// Reads the server's answer to a submission: the JSON value of a success, null
/// where its body is no JSON, else what the server said in refusing.
pub fn read_reply(reply: Reply) -> (r: Result<serde_json::Value, String>)
    ensures
        match reply {
            Err(e) => r matches Err(text) && text@ == e@,
            Ok((status, body)) => reply_value(body@) matches Some(value) && if status == 200 {
                r == Ok::<serde_json::Value, String>(value)
            } else {
                r matches Err(text) && text@ == refusal_text(
                    status as nat,
                    value_text(value, "error"@),
                    value_text(value, "detail"@),
                )
            },
        },
{
    let (status, body) = reply?;
    let value = parsed_or_null(body.as_slice());
    if status != 200 {
        let detail = json_field(&value, "detail");
        let kind = json_field(&value, "error");
        return Err(refusal(status, kind, detail));
    }
    Ok(value)
}

/// What is submitted with a signature that stands up to the administrator's key
/// is found in order by its server and refused by any other; within the bounds
/// of decoding it is decoded as just that transaction.
pub proof fn submitted_batch_is_accepted(signed: SignedTransaction, expected: Seq<u8>)
    requires
        verifies(signed@.admin, signed@.transaction.signing_bytes(), signed@.signature),
    ensures
        signed@.verdict(expected) == if signed@.transaction.server == expected {
            Ok::<(), ErrorView>(())
        } else {
            Err(ErrorView::WrongServer)
        },
        signed@.transaction.fits() ==> read_signed(signed@.bytes()) == Ok::<
            SignedTransactionView,
            ErrorView,
        >(signed@),
{
    signed_verifies_at_its_server(signed@, expected);
    if signed@.transaction.fits() {
        key_length(signed.admin);
        assert(signed.signature@.len() == 64);
        decode_inverts_encode(signed@);
    }
}

/// What is said of a refused submission is the kind of error, the status and the
/// detail, in this order; where the server gave no kind it is called an error,
/// and where it gave no detail there is none.
pub proof fn refusals_quote_kind_status_and_detail(status: nat, k: Seq<char>, d: Seq<char>)
    ensures
        refusal_text(status, Some(k), Some(d)) == trimmed(
            k + " ("@ + decimal_digits(status) + ") "@ + d,
        ),
        refusal_text(status, None, Some(d)) == trimmed(
            "error"@ + " ("@ + decimal_digits(status) + ") "@ + d,
        ),
        refusal_text(status, Some(k), None) == trimmed(
            k + " ("@ + decimal_digits(status) + ") "@,
        ),
        refusal_text(status, None, None) == trimmed(
            "error"@ + " ("@ + decimal_digits(status) + ") "@,
        ),
{
    reveal_strlit("");
    assert(k + " ("@ + decimal_digits(status) + ") "@ + ""@ =~= k + " ("@ + decimal_digits(status)
        + ") "@);
    assert("error"@ + " ("@ + decimal_digits(status) + ") "@ + ""@ =~= "error"@ + " ("@
        + decimal_digits(status) + ") "@);
}

/// A reply says what its body says where that is JSON, and null where it is not.
pub proof fn replies_say_what_their_bodies_say(body: Seq<u8>)
    ensures
        json_value(body) is Some ==> reply_value(body) == json_value(body),
        json_value(body) is None ==> reply_value(body) == json_value(
            seq![0x6eu8, 0x75u8, 0x6cu8, 0x6cu8],
        ),
{
    assert(JSON_NULL@ =~= seq![0x6eu8, 0x75u8, 0x6cu8, 0x6cu8]);
}

/// What is submitted is the transaction under the administrator's key, with the
/// signature as it was given.
pub proof fn submissions_hold_what_was_signed(c: Challenged, admin: Seq<u8>, sig: Seq<u8>)
    ensures
        c.signed(admin, sig).transaction == c.bound(),
        c.signed(admin, sig).admin == admin,
        c.signed(admin, sig).signature == sig,
        c.signed(admin, sig).bytes() == c.bound().bytes() + admin + sig,
{
    assert(c.signed(admin, sig).bytes() =~= c.bound().bytes() + admin + sig);
}

} // verus!
