//! The generic signed-transaction protocol.
//!
//! What is signed is a **transaction**: an ordered batch of opaque
//! [`Operation`]s, each carrying the bytes a server will act on plus the human
//! context the operator approves. A payload is never parsed here — its meaning
//! lives entirely in the server and in whatever client built the batch — so a
//! new server command never touches the signer.
//!
//! What gets signed is a domain-separated **hash** of the canonical transaction
//! ([`Transaction::signing_bytes`]): the card sees a small fixed message no
//! matter how large the batch, and because the summaries are part of the hashed
//! bytes, the context the operator saw is bound to the signature. The
//! transaction also binds a single-use server nonce (replay) and the server's
//! own key (misdirection).

use vstd::prelude::*;
use vstd::utf8::encode_utf8;
use crate::crypto::{
    ed25519_accepts, ed25519_point, ed25519_public, ed25519_signature, sha256, sha256_digest,
};
use crate::error::{Error, ErrorView, Result};
use crate::key::{not_a_point, verifies, PubKey, SigningKey};
use crate::text::{decimal, decimal_digits, joined};
use crate::wire::{
    be32, be32_value, framed, lemma_field_cut, lemma_field_excess, lemma_field_read, lemma_raw_cut,
    lemma_text_ahead, lemma_text_cut, lemma_u32_cut, lemma_read_field, lemma_read_raw, lemma_read_text,
    lemma_read_u32, lemma_same_field, lemma_same_number, lemma_same_text, lemma_stands_split,
    lemma_text_read, lemma_u32_read, put_bytes, put_u32,
    read_field, read_raw, read_text, read_u32, stands_at, trailing, Reader,
};

verus! {

/// Domain separator hashed into every transaction signature: the bytes of
/// `sqnr-tx-v1`. Generic and service-agnostic: the meaning of the payloads is
/// the server's concern.
pub const TX_CONTEXT: [u8; 10] = [0x73, 0x71, 0x6e, 0x72, 0x2d, 0x74, 0x78, 0x2d, 0x76, 0x31];

// Decode bounds: a signed transaction arrives from the network, so it is capped.

/// The most operations in a transaction.
pub const MAX_OPS: u32 = 64;

/// The most detail lines of an operation.
pub const MAX_DETAIL: u32 = 32;

/// The most bytes of a summary or a detail line.
pub const MAX_STR: usize = 4096;

/// The most bytes of a payload.
pub const MAX_PAYLOAD: usize = 65536;

/// One operation in a transaction: opaque payload plus its human context.
#[derive(Debug, Clone, PartialEq, Eq)]
pub struct Operation {
    /// One-line description of what this operation does, shown to the operator.
    pub summary: String,
    /// Optional extra context lines (e.g. the key being added).
    pub detail: Vec<String>,
    /// The bytes the server will act on. Opaque here.
    pub payload: Vec<u8>,
}

/// An ordered batch of operations, bound to a server and a single-use nonce.
/// Signing the batch authorizes all of it at once; the server applies it
/// atomically.
#[derive(Debug, Clone, PartialEq, Eq)]
pub struct Transaction {
    pub server: PubKey,
    pub nonce: [u8; 32],
    pub ops: Vec<Operation>,
}

/// A transaction plus the administrator's key and signature over it.
#[derive(Debug, Clone, PartialEq, Eq)]
pub struct SignedTransaction {
    pub transaction: Transaction,
    pub admin: PubKey,
    pub signature: [u8; 64],
}

// ---------------------------------------------------------------------------
// The model
// ---------------------------------------------------------------------------

/// An [`Operation`] as sequences.
pub struct OperationView {
    pub summary: Seq<char>,
    pub detail: Seq<Seq<char>>,
    pub payload: Seq<u8>,
}

/// A [`Transaction`] as sequences.
pub struct TransactionView {
    pub server: Seq<u8>,
    pub nonce: Seq<u8>,
    pub ops: Seq<OperationView>,
}

/// A [`SignedTransaction`] as sequences.
pub struct SignedTransactionView {
    pub transaction: TransactionView,
    pub admin: Seq<u8>,
    pub signature: Seq<u8>,
}

/// Texts as sequences of characters.
pub open spec fn texts(v: Seq<String>) -> Seq<Seq<char>> {
    v.map_values(|s: String| s@)
}

/// Operations as sequences.
pub open spec fn operations(v: Seq<Operation>) -> Seq<OperationView> {
    v.map_values(|op: Operation| op@)
}

impl View for Operation {
    type V = OperationView;

    open spec fn view(&self) -> OperationView {
        OperationView {
            summary: self.summary@,
            detail: texts(self.detail@),
            payload: self.payload@,
        }
    }
}

impl View for Transaction {
    type V = TransactionView;

    open spec fn view(&self) -> TransactionView {
        TransactionView {
            server: self.server@,
            nonce: self.nonce@,
            ops: operations(self.ops@),
        }
    }
}

impl View for SignedTransaction {
    type V = SignedTransactionView;

    open spec fn view(&self) -> SignedTransactionView {
        SignedTransactionView {
            transaction: self.transaction@,
            admin: self.admin@,
            signature: self.signature@,
        }
    }
}

/// Detail lines on the wire, one field each.
pub open spec fn lines_bytes(lines: Seq<Seq<char>>) -> Seq<u8>
    decreases lines.len(),
{
    if lines.len() == 0 {
        Seq::empty()
    } else {
        lines_bytes(lines.drop_last()) + framed(encode_utf8(lines.last()))
    }
}

impl OperationView {
    /// The operation on the wire: its summary, the number of its detail lines,
    /// the lines, and its payload.
    pub open spec fn bytes(self) -> Seq<u8> {
        framed(encode_utf8(self.summary)) + (be32(self.detail.len()) + (lines_bytes(self.detail)
            + framed(self.payload)))
    }

    /// Whether the operation is within the bounds of decoding.
    pub open spec fn fits(self) -> bool {
        &&& encode_utf8(self.summary).len() <= MAX_STR
        &&& self.detail.len() <= MAX_DETAIL
        &&& lines_fit(self.detail)
        &&& self.payload.len() <= MAX_PAYLOAD
    }

    /// Whether each count and length of the operation can be written in four
    /// bytes.
    pub open spec fn counted(self) -> bool {
        &&& encode_utf8(self.summary).len() < 0x1_0000_0000
        &&& self.detail.len() < 0x1_0000_0000
        &&& lines_counted(self.detail)
        &&& self.payload.len() < 0x1_0000_0000
    }
}

/// Whether the length of each line can be written in four bytes.
pub open spec fn lines_counted(lines: Seq<Seq<char>>) -> bool {
    forall|i: int| 0 <= i < lines.len() ==> encode_utf8(#[trigger] lines[i]).len() < 0x1_0000_0000
}

/// Whether each line is within the bounds of decoding.
pub open spec fn lines_fit(lines: Seq<Seq<char>>) -> bool {
    forall|i: int| 0 <= i < lines.len() ==> encode_utf8(#[trigger] lines[i]).len() <= MAX_STR
}

/// Operations on the wire, one after the other.
pub open spec fn ops_bytes(ops: Seq<OperationView>) -> Seq<u8>
    decreases ops.len(),
{
    if ops.len() == 0 {
        Seq::empty()
    } else {
        ops_bytes(ops.drop_last()) + ops.last().bytes()
    }
}

/// Whether each operation is within the bounds of decoding.
pub open spec fn ops_fit(ops: Seq<OperationView>) -> bool {
    forall|i: int| 0 <= i < ops.len() ==> (#[trigger] ops[i]).fits()
}

impl TransactionView {
    /// The transaction on the wire: server, nonce, the number of operations,
    /// and the operations.
    pub open spec fn bytes(self) -> Seq<u8> {
        self.server + (self.nonce + (be32(self.ops.len()) + ops_bytes(self.ops)))
    }

    /// Whether the transaction is within the bounds of decoding.
    pub open spec fn fits(self) -> bool {
        &&& self.server.len() == 32
        &&& self.nonce.len() == 32
        &&& self.ops.len() <= MAX_OPS
        &&& ops_fit(self.ops)
    }

    /// Whether each count and length of the transaction can be written in four
    /// bytes.
    pub open spec fn counted(self) -> bool {
        &&& self.ops.len() < 0x1_0000_0000
        &&& forall|i: int| 0 <= i < self.ops.len() ==> (#[trigger] self.ops[i]).counted()
    }

    /// What is signed: the domain separator and the hash of the transaction.
    pub open spec fn signing_bytes(self) -> Seq<u8> {
        TX_CONTEXT@ + sha256(self.bytes())
    }
}

impl SignedTransactionView {
    /// The signed transaction on the wire: the transaction, the administrator's
    /// key, and the signature.
    pub open spec fn bytes(self) -> Seq<u8> {
        self.transaction.bytes() + (self.admin + self.signature)
    }

    /// Whether the signed transaction is within the bounds of decoding.
    pub open spec fn fits(self) -> bool {
        &&& self.transaction.fits()
        &&& self.admin.len() == 32
        &&& self.signature.len() == 64
    }

    /// What a server finds that expects transactions for `expected`: the
    /// binding to the server is looked at first, then the key, then the
    /// signature.
    pub open spec fn verdict(self, expected: Seq<u8>) -> std::result::Result<(), ErrorView> {
        if self.transaction.server != expected {
            Err(ErrorView::WrongServer)
        } else if !ed25519_point(self.admin) {
            Err(not_a_point())
        } else if !ed25519_accepts(self.admin, self.transaction.signing_bytes(), self.signature) {
            Err(ErrorView::BadSignature)
        } else {
            Ok(())
        }
    }
}

// ---------------------------------------------------------------------------
// Reading
// ---------------------------------------------------------------------------

/// Reading `n` detail lines at `at`.
pub open spec fn read_lines(b: Seq<u8>, at: int, n: nat) -> std::result::Result<
    (Seq<Seq<char>>, int),
    ErrorView,
>
    decreases n,
{
    if n == 0 {
        Ok((Seq::empty(), at))
    } else {
        match read_lines(b, at, (n - 1) as nat) {
            Err(e) => Err(e),
            Ok((lines, next)) => match read_text(b, next, MAX_STR as nat) {
                Err(e) => Err(e),
                Ok((line, end)) => Ok((lines.push(line), end)),
            },
        }
    }
}

/// Reading an operation at `at`.
pub open spec fn read_op(b: Seq<u8>, at: int) -> std::result::Result<
    (OperationView, int),
    ErrorView,
> {
    match read_text(b, at, MAX_STR as nat) {
        Err(e) => Err(e),
        Ok((summary, p1)) => match read_u32(b, p1) {
            Err(e) => Err(e),
            Ok((d, p2)) => if d > MAX_DETAIL {
                Err(ErrorView::Malformed("too many detail lines: "@ + decimal_digits(d)))
            } else {
                match read_lines(b, p2, d) {
                    Err(e) => Err(e),
                    Ok((detail, p3)) => match read_field(b, p3, MAX_PAYLOAD as nat) {
                        Err(e) => Err(e),
                        Ok((payload, p4)) => Ok((OperationView { summary, detail, payload }, p4)),
                    },
                }
            },
        },
    }
}

/// Reading `n` operations at `at`.
pub open spec fn read_ops(b: Seq<u8>, at: int, n: nat) -> std::result::Result<
    (Seq<OperationView>, int),
    ErrorView,
>
    decreases n,
{
    if n == 0 {
        Ok((Seq::empty(), at))
    } else {
        match read_ops(b, at, (n - 1) as nat) {
            Err(e) => Err(e),
            Ok((ops, next)) => match read_op(b, next) {
                Err(e) => Err(e),
                Ok((op, end)) => Ok((ops.push(op), end)),
            },
        }
    }
}

/// Reading a transaction at `at`.
pub open spec fn read_transaction(b: Seq<u8>, at: int) -> std::result::Result<
    (TransactionView, int),
    ErrorView,
> {
    match read_raw(b, at, 32) {
        Err(e) => Err(e),
        Ok((server, p1)) => match read_raw(b, p1, 32) {
            Err(e) => Err(e),
            Ok((nonce, p2)) => match read_u32(b, p2) {
                Err(e) => Err(e),
                Ok((n, p3)) => if n > MAX_OPS {
                    Err(ErrorView::Malformed("too many ops: "@ + decimal_digits(n)))
                } else {
                    match read_ops(b, p3, n) {
                        Err(e) => Err(e),
                        Ok((ops, p4)) => Ok((TransactionView { server, nonce, ops }, p4)),
                    }
                },
            },
        },
    }
}

/// Reading a message that is one signed transaction.
pub open spec fn read_signed(b: Seq<u8>) -> std::result::Result<SignedTransactionView, ErrorView> {
    match read_transaction(b, 0) {
        Err(e) => Err(e),
        Ok((transaction, p1)) => match read_raw(b, p1, 32) {
            Err(e) => Err(e),
            Ok((admin, p2)) => match read_raw(b, p2, 64) {
                Err(e) => Err(e),
                Ok((signature, p3)) => match trailing(b.len(), p3) {
                    Some(e) => Err(e),
                    None => Ok(SignedTransactionView { transaction, admin, signature }),
                },
            },
        },
    }
}

/// A fault among the first `k` lines is the fault of reading `n` of them.
proof fn lemma_lines_fault(b: Seq<u8>, at: int, k: nat, n: nat)
    requires
        k <= n,
        read_lines(b, at, k) is Err,
    ensures
        read_lines(b, at, n) == read_lines(b, at, k),
    decreases n,
{
    if k < n {
        lemma_lines_fault(b, at, k, (n - 1) as nat);
    }
}

/// A fault among the first `k` operations is the fault of reading `n` of them.
proof fn lemma_ops_fault(b: Seq<u8>, at: int, k: nat, n: nat)
    requires
        k <= n,
        read_ops(b, at, k) is Err,
    ensures
        read_ops(b, at, n) == read_ops(b, at, k),
    decreases n,
{
    if k < n {
        lemma_ops_fault(b, at, k, (n - 1) as nat);
    }
}

// ---------------------------------------------------------------------------
// Operations and transactions
// ---------------------------------------------------------------------------

impl Operation {
    fn put(&self, out: &mut Vec<u8>)
        ensures
            final(out)@ == old(out)@ + self@.bytes(),
    {
        let ghost start = out@;
        let ghost head = framed(encode_utf8(self.summary@)) + be32(self.detail@.len());
        put_bytes(out, self.summary.as_str().as_bytes());
        put_u32(out, self.detail.len());
        assert(out@ =~= start + head);
        let mut i: usize = 0;
        assert(texts(self.detail@).take(0) =~= Seq::<Seq<char>>::empty());
        while i < self.detail.len()
            invariant
                i <= self.detail@.len(),
                out@ == start + head + lines_bytes(texts(self.detail@).take(i as int)),
            decreases self.detail@.len() - i,
        {
            let ghost before = texts(self.detail@).take(i as int);
            put_bytes(out, self.detail[i].as_str().as_bytes());
            proof {
                let after = texts(self.detail@).take(i + 1);
                assert(after.drop_last() =~= before);
                assert(after.last() == self.detail@[i as int]@);
                assert(out@ =~= start + head + lines_bytes(after));
            }
            i += 1;
        }
        assert(texts(self.detail@).take(i as int) =~= texts(self.detail@));
        put_bytes(out, self.payload.as_slice());
        assert(out@ =~= start + self@.bytes());
    }

    fn decode_from(r: &mut Reader) -> (res: Result<Operation>)
        requires
            old(r).wf(),
        ensures
            final(r).wf(),
            final(r).buf@ == old(r).buf@,
            match res {
                Ok(op) => read_op(old(r).buf@, old(r).pos as int) == Ok::<
                    (OperationView, int),
                    ErrorView,
                >((op@, final(r).pos as int)),
                Err(e) => read_op(old(r).buf@, old(r).pos as int) == Err::<
                    (OperationView, int),
                    ErrorView,
                >(e@),
            },
    {
        let ghost b = r.buf@;
        let summary = r.string(MAX_STR)?;
        let d: u32 = r.u32()?;
        if d > MAX_DETAIL {
            let count = decimal(d as u64);
            return Err(Error::Malformed(joined("too many detail lines: ", count.as_str())));
        }
        let ghost at = r.pos as int;
        let mut detail: Vec<String> = Vec::new();
        assert(texts(detail@) =~= Seq::<Seq<char>>::empty());
        let mut i: u32 = 0;
        while i < d
            invariant
                r.wf(),
                r.buf@ == b,
                i <= d,
                read_lines(b, at, i as nat) == Ok::<(Seq<Seq<char>>, int), ErrorView>(
                    (texts(detail@), r.pos as int),
                ),
                read_text(b, old(r).pos as int, MAX_STR as nat) is Ok,
                read_u32(b, read_text(b, old(r).pos as int, MAX_STR as nat)->Ok_0.1) == Ok::<
                    (nat, int),
                    ErrorView,
                >((d as nat, at)),
                d <= MAX_DETAIL,
                b == old(r).buf@,
            decreases d - i,
        {
            match r.string(MAX_STR) {
                Ok(line) => {
                    let ghost before = detail@;
                    detail.push(line);
                    assert(texts(detail@) =~= texts(before).push(line@));
                },
                Err(e) => {
                    proof {
                        assert(read_lines(b, at, i as nat + 1) == Err::<
                            (Seq<Seq<char>>, int),
                            ErrorView,
                        >(e@));
                        lemma_lines_fault(b, at, i as nat + 1, d as nat);
                    }
                    return Err(e);
                },
            }
            i += 1;
        }
        let payload = vstd::slice::slice_to_vec(r.bytes(MAX_PAYLOAD)?);
        Ok(Operation { summary, detail, payload })
    }
}

impl Transaction {
    /// Canonical encoding: server, nonce, then length-prefixed ops. The same
    /// bytes are hashed for the signature and sent on the wire, so there is
    /// exactly one representation.
    pub fn encode(&self) -> (r: Vec<u8>)
        ensures
            r@ == self@.bytes(),
    {
        let mut out: Vec<u8> = Vec::new();
        out.extend_from_slice(self.server.as_bytes());
        out.extend_from_slice(&self.nonce);
        put_u32(&mut out, self.ops.len());
        let ghost head = self.server@ + self.nonce@ + be32(self.ops@.len());
        assert(out@ =~= head);
        let mut i: usize = 0;
        assert(operations(self.ops@).take(0) =~= Seq::<OperationView>::empty());
        while i < self.ops.len()
            invariant
                i <= self.ops@.len(),
                out@ == head + ops_bytes(operations(self.ops@).take(i as int)),
            decreases self.ops@.len() - i,
        {
            let ghost before = operations(self.ops@).take(i as int);
            self.ops[i].put(&mut out);
            proof {
                let after = operations(self.ops@).take(i + 1);
                assert(after.drop_last() =~= before);
                assert(after.last() == self.ops@[i as int]@);
                assert(out@ =~= head + ops_bytes(after));
            }
            i += 1;
        }
        assert(operations(self.ops@).take(i as int) =~= operations(self.ops@));
        assert(out@ =~= self@.bytes());
        out
    }

    fn decode_from(r: &mut Reader) -> (res: Result<Transaction>)
        requires
            old(r).wf(),
        ensures
            final(r).wf(),
            final(r).buf@ == old(r).buf@,
            match res {
                Ok(t) => read_transaction(old(r).buf@, old(r).pos as int) == Ok::<
                    (TransactionView, int),
                    ErrorView,
                >((t@, final(r).pos as int)) && t@.fits() && stands_at(
                    old(r).buf@,
                    old(r).pos as int,
                    t@.bytes(),
                ) && final(r).pos == old(r).pos + t@.bytes().len(),
                Err(e) => read_transaction(old(r).buf@, old(r).pos as int) == Err::<
                    (TransactionView, int),
                    ErrorView,
                >(e@) && e@ is Malformed && forall|t: TransactionView|
                    #![trigger t.bytes()]
                    t.fits() ==> !stands_at(old(r).buf@, old(r).pos as int, t.bytes()),
            },
    {
        let ghost b = r.buf@;
        let ghost start = r.pos as int;
        proof {
            assert(b.len() == r.buf.len());
            assert forall|t: TransactionView|
                #![trigger t.bytes()]
                t.fits() && stands_at(b, start, t.bytes()) implies read_transaction(
                b,
                start,
            ) is Ok by {
                lemma_read_transaction(b, start, t);
            }
            lemma_transaction_read(b, start);
            lemma_transaction_malformed(b, start);
        }
        let server = PubKey::new(r.array::<32>()?);
        let nonce = r.array::<32>()?;
        let n: u32 = r.u32()?;
        if n > MAX_OPS {
            let count = decimal(n as u64);
            return Err(Error::Malformed(joined("too many ops: ", count.as_str())));
        }
        let ghost at = r.pos as int;
        let mut ops: Vec<Operation> = Vec::new();
        assert(operations(ops@) =~= Seq::<OperationView>::empty());
        let mut i: u32 = 0;
        while i < n
            invariant
                r.wf(),
                r.buf@ == b,
                i <= n,
                read_ops(b, at, i as nat) == Ok::<(Seq<OperationView>, int), ErrorView>(
                    (operations(ops@), r.pos as int),
                ),
                read_ops(b, at, n as nat) matches Err(e) ==> read_transaction(b, start) == Err::<
                    (TransactionView, int),
                    ErrorView,
                >(e),
                b == old(r).buf@,
                start == old(r).pos,
                read_transaction(b, start) matches Err(e) ==> e is Malformed && forall|
                    t: TransactionView,
                |
                    #![trigger t.bytes()]
                    t.fits() ==> !stands_at(b, start, t.bytes()),
            decreases n - i,
        {
            match Operation::decode_from(r) {
                Ok(op) => {
                    let ghost before = ops@;
                    ops.push(op);
                    assert(operations(ops@) =~= operations(before).push(op@));
                },
                Err(e) => {
                    proof {
                        assert(read_ops(b, at, i as nat + 1) == Err::<
                            (Seq<OperationView>, int),
                            ErrorView,
                        >(e@));
                        lemma_ops_fault(b, at, i as nat + 1, n as nat);
                    }
                    return Err(e);
                },
            }
            i += 1;
        }
        Ok(Transaction { server, nonce, ops })
    }

    /// The bytes actually signed: the domain tag followed by a SHA-256 of the
    /// canonical encoding. A fixed-size message, so a hardware signer is never
    /// asked to sign a large batch directly.
    pub fn signing_bytes(&self) -> (r: Vec<u8>)
        ensures
            r@ == self@.signing_bytes(),
            r@ == TX_CONTEXT@ + sha256(self@.bytes()),
            r@.len() == 42,
    {
        let digest = sha256_digest(self.encode().as_slice());
        let mut msg: Vec<u8> = Vec::new();
        msg.extend_from_slice(&TX_CONTEXT);
        msg.extend_from_slice(&digest);
        assert(msg@ =~= self@.signing_bytes());
        msg
    }
}

// ---------------------------------------------------------------------------
// Signing
// ---------------------------------------------------------------------------

/// Anything that can produce an Ed25519 signature for an admin. The protocol is
/// identical whoever signs.
pub trait Signer {
    /// The admin's Ed25519 public key.
    spec fn public_key(&self) -> Seq<u8>;

    /// Whether the signer may give `sig` for `msg`.
    spec fn signs(&self, msg: Seq<u8>, sig: Seq<u8>) -> bool;

    /// The admin's Ed25519 public key.
    fn public(&self) -> (r: [u8; 32])
        ensures
            r@ == self.public_key(),
    ;

    /// A raw RFC 8032 Ed25519 signature over `msg`.
    fn sign(&self, msg: &[u8]) -> (r: [u8; 64])
        ensures
            self.signs(msg@, r@),
    ;
}

/// A signer backed by an in-memory Ed25519 key. Its view is the seed.
pub struct SoftwareSigner {
    key: SigningKey,
}

impl View for SoftwareSigner {
    type V = Seq<u8>;

    closed spec fn view(&self) -> Seq<u8> {
        self.key@
    }
}

impl SoftwareSigner {
    /// A signer over `key`.
    pub fn new(key: SigningKey) -> (r: Self)
        ensures
            r@ == key@,
    {
        Self { key }
    }

    /// The 32-byte Ed25519 seed — the **secret**.
    ///
    /// Exposed for one reason: deriving the transport key, so a caller can
    /// connect *as* this identity and be named by the server. Signing never
    /// needs it. A hardware identity has no seed to give, which is why only a
    /// software identity can hold a transport identity at all.
    pub fn seed(&self) -> (r: [u8; 32])
        ensures
            r@ == self@,
    {
        self.key.to_bytes()
    }
}

impl Signer for SoftwareSigner {
    open spec fn public_key(&self) -> Seq<u8> {
        ed25519_public(self@)
    }

    open spec fn signs(&self, msg: Seq<u8>, sig: Seq<u8>) -> bool {
        sig == ed25519_signature(self@, msg) && verifies(ed25519_public(self@), msg, sig)
    }

    fn public(&self) -> (r: [u8; 32])
        ensures
            r@ == ed25519_public(self@),
    {
        self.key.verifying_key().to_bytes()
    }

    fn sign(&self, msg: &[u8]) -> (r: [u8; 64])
        ensures
            r@ == ed25519_signature(self@, msg@),
            ed25519_point(ed25519_public(self@)),
            ed25519_accepts(ed25519_public(self@), msg@, r@),
    {
        self.key.sign(msg)
    }
}

impl SignedTransaction {
    /// Sign `transaction` with `signer`. If what the signer signs stands up to its
    /// public key, the result verifies at the transaction's server and at no
    /// other.
    pub fn create(transaction: Transaction, signer: &dyn Signer) -> (r: Self)
        ensures
            r.transaction == transaction,
            r@.admin == signer.public_key(),
            signer.signs(transaction@.signing_bytes(), r@.signature),
            r.admin@ == signer.public_key(),
            signer.signs(TX_CONTEXT@ + sha256(transaction@.bytes()), r.signature@),
            (forall|m: Seq<u8>, s: Seq<u8>| #[trigger]
                signer.signs(m, s) ==> verifies(signer.public_key(), m, s)) ==> forall|e: Seq<u8>|
                #[trigger] r@.verdict(e) == if transaction@.server == e {
                    Ok::<(), ErrorView>(())
                } else {
                    Err(ErrorView::WrongServer)
                },
    {
        let signature = signer.sign(transaction.signing_bytes().as_slice());
        let admin = PubKey::new(signer.public());
        SignedTransaction { transaction, admin, signature }
    }

    /// Verify the signature and the server binding. The caller still must
    /// confirm the nonce is one it issued and unused, and that `admin` is
    /// authorized — both are stateful and live in the server.
    pub fn verify(&self, expected_server: &PubKey) -> (r: Result<()>)
        ensures
            match r {
                Ok(_) => self@.verdict(expected_server@) is Ok,
                Err(e) => self@.verdict(expected_server@) == Err::<(), ErrorView>(e@),
            },
            r is Ok <==> {
                &&& self.transaction.server@ == expected_server@
                &&& ed25519_point(self.admin@)
                &&& ed25519_accepts(
                    self.admin@,
                    TX_CONTEXT@ + sha256(self.transaction@.bytes()),
                    self.signature@,
                )
            },
            r matches Err(e) ==> match e {
                Error::WrongServer => self.transaction.server@ != expected_server@,
                Error::Key(_) => self.transaction.server@ == expected_server@ && !ed25519_point(
                    self.admin@,
                ),
                Error::BadSignature => self.transaction.server@ == expected_server@
                    && ed25519_point(self.admin@),
                _ => false,
            },
    {
        if self.transaction.server != *expected_server {
            return Err(Error::WrongServer);
        }
        let vk = self.admin.verifying_key()?;
        if vk.verify(self.transaction.signing_bytes().as_slice(), &self.signature) {
            Ok(())
        } else {
            Err(Error::BadSignature)
        }
    }

    /// Wire form: the canonical transaction, then the admin key, then the
    /// signature. This is the HTTP/3 request body.
    pub fn encode(&self) -> (r: Vec<u8>)
        ensures
            r@ == self@.bytes(),
    {
        let mut out = self.transaction.encode();
        out.extend_from_slice(self.admin.as_bytes());
        out.extend_from_slice(&self.signature);
        assert(out@ =~= self@.bytes());
        out
    }

    /// Reads the wire form.
    pub fn decode(bytes: &[u8]) -> (res: Result<SignedTransaction>)
        ensures
            match res {
                Ok(t) => read_signed(bytes@) == Ok::<SignedTransactionView, ErrorView>(t@)
                    && t@.fits() && t@.bytes() == bytes@,
                Err(e) => read_signed(bytes@) == Err::<SignedTransactionView, ErrorView>(e@)
                    && e@ is Malformed && forall|t: SignedTransactionView|
                    #![trigger t.bytes()]
                    t.fits() ==> t.bytes() != bytes@,
            },
    {
        proof {
            assert(bytes@.len() == bytes.len());
            assert forall|t: SignedTransactionView|
                #![trigger t.bytes()]
                t.fits() && t.bytes() == bytes@ implies read_signed(bytes@) is Ok by {
                lemma_read_signed(bytes@, t);
            }
            decode_is_canonical(bytes@);
            lemma_transaction_malformed(bytes@, 0);
        }
        let mut r = Reader::new(bytes);
        let transaction = Transaction::decode_from(&mut r)?;
        let admin = PubKey::new(r.array::<32>()?);
        let signature = r.array::<64>()?;
        r.finish()?;
        Ok(SignedTransaction { transaction, admin, signature })
    }
}

// ---------------------------------------------------------------------------
// Laws
// ---------------------------------------------------------------------------

/// Lines that stand at a position are read there.
proof fn lemma_read_lines(b: Seq<u8>, at: int, lines: Seq<Seq<char>>)
    requires
        b.len() <= usize::MAX,
        lines_fit(lines),
        stands_at(b, at, lines_bytes(lines)),
    ensures
        read_lines(b, at, lines.len()) == Ok::<(Seq<Seq<char>>, int), ErrorView>(
            (lines, at + lines_bytes(lines).len()),
        ),
    decreases lines.len(),
{
    if lines.len() > 0 {
        let init = lines.drop_last();
        let last = framed(encode_utf8(lines.last()));
        lemma_stands_split(b, at, lines_bytes(init), last);
        assert(lines_fit(init)) by {
            assert forall|i: int| 0 <= i < init.len() implies encode_utf8(#[trigger] init[i]).len()
                <= MAX_STR by {
                assert(init[i] == lines[i]);
            }
        }
        lemma_read_lines(b, at, init);
        assert(encode_utf8(lines[lines.len() - 1]).len() <= MAX_STR);
        lemma_read_text(b, at + lines_bytes(init).len(), lines.last(), MAX_STR as nat);
        assert(init.push(lines.last()) =~= lines);
    } else {
        assert(lines =~= Seq::<Seq<char>>::empty());
    }
}

/// The lines that were read stand where they were read.
proof fn lemma_lines_read(b: Seq<u8>, at: int, n: nat)
    requires
        0 <= at <= b.len(),
    ensures
        read_lines(b, at, n) matches Ok((lines, next)) ==> lines.len() == n && lines_fit(lines)
            && next == at + lines_bytes(lines).len() && stands_at(b, at, lines_bytes(lines)),
    decreases n,
{
    if let Ok((lines, next)) = read_lines(b, at, n) {
        if n > 0 {
            lemma_lines_read(b, at, (n - 1) as nat);
            let (init, mid) = read_lines(b, at, (n - 1) as nat)->Ok_0;
            lemma_text_read(b, mid, MAX_STR as nat);
            assert(lines.drop_last() =~= init);
            lemma_stands_split(b, at, lines_bytes(init), framed(encode_utf8(lines.last())));
            assert forall|i: int| 0 <= i < lines.len() implies encode_utf8(
                #[trigger] lines[i],
            ).len() <= MAX_STR by {
                if i < init.len() {
                    assert(lines[i] == init[i]);
                }
            }
        } else {
            assert(b.subrange(at, at) =~= lines_bytes(lines));
        }
    }
}

/// An operation that stands at a position is read there.
proof fn lemma_read_op(b: Seq<u8>, at: int, op: OperationView)
    requires
        b.len() <= usize::MAX,
        op.fits(),
        stands_at(b, at, op.bytes()),
    ensures
        read_op(b, at) == Ok::<(OperationView, int), ErrorView>((op, at + op.bytes().len())),
{
    lemma_op_parts(b, at, op);
    let p1 = at + framed(encode_utf8(op.summary)).len();
    lemma_read_text(b, at, op.summary, MAX_STR as nat);
    lemma_read_u32(b, p1, op.detail.len());
    lemma_read_lines(b, p1 + 4, op.detail);
    lemma_read_field(b, p1 + 4 + lines_bytes(op.detail).len(), op.payload, MAX_PAYLOAD as nat);
}

/// The operation that was read stands where it was read.
proof fn lemma_op_read(b: Seq<u8>, at: int)
    requires
        0 <= at <= b.len(),
    ensures
        read_op(b, at) matches Ok((op, next)) ==> op.fits() && next == at + op.bytes().len()
            && stands_at(b, at, op.bytes()),
{
    if let Ok((op, next)) = read_op(b, at) {
        lemma_text_read(b, at, MAX_STR as nat);
        let p1 = at + framed(encode_utf8(op.summary)).len();
        lemma_u32_read(b, p1);
        let d = read_u32(b, p1)->Ok_0.0;
        lemma_lines_read(b, p1 + 4, d);
        lemma_field_read(b, p1 + 4 + lines_bytes(op.detail).len(), MAX_PAYLOAD as nat);
        lemma_op_parts(b, at, op);
    }
}

/// Operations that stand at a position are read there.
proof fn lemma_read_ops(b: Seq<u8>, at: int, ops: Seq<OperationView>)
    requires
        b.len() <= usize::MAX,
        ops_fit(ops),
        stands_at(b, at, ops_bytes(ops)),
    ensures
        read_ops(b, at, ops.len()) == Ok::<(Seq<OperationView>, int), ErrorView>(
            (ops, at + ops_bytes(ops).len()),
        ),
    decreases ops.len(),
{
    if ops.len() > 0 {
        let init = ops.drop_last();
        lemma_stands_split(b, at, ops_bytes(init), ops.last().bytes());
        assert(ops_fit(init)) by {
            assert forall|i: int| 0 <= i < init.len() implies (#[trigger] init[i]).fits() by {
                assert(init[i] == ops[i]);
            }
        }
        lemma_read_ops(b, at, init);
        assert(ops[ops.len() - 1].fits());
        lemma_read_op(b, at + ops_bytes(init).len(), ops.last());
        assert(init.push(ops.last()) =~= ops);
    } else {
        assert(ops =~= Seq::<OperationView>::empty());
    }
}

/// The operations that were read stand where they were read.
proof fn lemma_ops_read(b: Seq<u8>, at: int, n: nat)
    requires
        0 <= at <= b.len(),
    ensures
        read_ops(b, at, n) matches Ok((ops, next)) ==> ops.len() == n && ops_fit(ops) && next == at
            + ops_bytes(ops).len() && stands_at(b, at, ops_bytes(ops)),
    decreases n,
{
    if let Ok((ops, next)) = read_ops(b, at, n) {
        if n > 0 {
            lemma_ops_read(b, at, (n - 1) as nat);
            let (init, mid) = read_ops(b, at, (n - 1) as nat)->Ok_0;
            lemma_op_read(b, mid);
            assert(ops.drop_last() =~= init);
            lemma_stands_split(b, at, ops_bytes(init), ops.last().bytes());
            assert forall|i: int| 0 <= i < ops.len() implies (#[trigger] ops[i]).fits() by {
                if i < init.len() {
                    assert(ops[i] == init[i]);
                }
            }
        } else {
            assert(b.subrange(at, at) =~= ops_bytes(ops));
        }
    }
}

/// A transaction that stands at a position is read there.
proof fn lemma_read_transaction(b: Seq<u8>, at: int, t: TransactionView)
    requires
        b.len() <= usize::MAX,
        t.fits(),
        stands_at(b, at, t.bytes()),
    ensures
        read_transaction(b, at) == Ok::<(TransactionView, int), ErrorView>(
            (t, at + t.bytes().len()),
        ),
{
    lemma_transaction_parts(b, at, t);
    lemma_read_raw(b, at, t.server);
    lemma_read_raw(b, at + 32, t.nonce);
    lemma_read_u32(b, at + 64, t.ops.len());
    lemma_read_ops(b, at + 68, t.ops);
}

/// The transaction that was read stands where it was read.
proof fn lemma_transaction_read(b: Seq<u8>, at: int)
    requires
        0 <= at <= b.len(),
    ensures
        read_transaction(b, at) matches Ok((t, next)) ==> t.fits() && next == at + t.bytes().len()
            && stands_at(b, at, t.bytes()),
{
    if let Ok((t, next)) = read_transaction(b, at) {
        lemma_u32_read(b, at + 64);
        let n = read_u32(b, at + 64)->Ok_0.0;
        lemma_ops_read(b, at + 68, n);
        lemma_transaction_parts(b, at, t);
    }
}

/// The wire form of a signed transaction within bounds is read.
proof fn lemma_read_signed(b: Seq<u8>, s: SignedTransactionView)
    requires
        b.len() <= usize::MAX,
        s.fits(),
        s.bytes() == b,
    ensures
        read_signed(b) == Ok::<SignedTransactionView, ErrorView>(s),
{
    assert(b.subrange(0, b.len() as int) =~= b);
    let p1 = s.transaction.bytes().len() as int;
    lemma_stands_split(b, 0, s.transaction.bytes(), s.admin + s.signature);
    lemma_stands_split(b, p1, s.admin, s.signature);
    lemma_read_transaction(b, 0, s.transaction);
    lemma_read_raw(b, p1, s.admin);
    lemma_read_raw(b, p1 + 32, s.signature);
}

proof fn lemma_lines_length(lines: Seq<Seq<char>>)
    requires
        lines_fit(lines),
    ensures
        lines_bytes(lines).len() <= (MAX_STR + 4) * lines.len(),
    decreases lines.len(),
{
    if lines.len() > 0 {
        let init = lines.drop_last();
        assert forall|i: int| 0 <= i < init.len() implies encode_utf8(#[trigger] init[i]).len()
            <= MAX_STR by {
            assert(init[i] == lines[i]);
        }
        lemma_lines_length(init);
        assert(encode_utf8(lines[lines.len() - 1]).len() <= MAX_STR);
    }
}

proof fn lemma_ops_length(ops: Seq<OperationView>)
    requires
        ops_fit(ops),
    ensures
        ops_bytes(ops).len() <= 0x4_0000 * ops.len(),
    decreases ops.len(),
{
    if ops.len() > 0 {
        let init = ops.drop_last();
        assert forall|i: int| 0 <= i < init.len() implies (#[trigger] init[i]).fits() by {
            assert(init[i] == ops[i]);
        }
        lemma_ops_length(init);
        assert(ops[ops.len() - 1].fits());
        lemma_lines_length(ops.last().detail);
    }
}

/// Decoding gives back what was encoded, for every signed transaction within
/// the bounds of decoding.
pub proof fn decode_inverts_encode(s: SignedTransactionView)
    requires
        s.fits(),
    ensures
        read_signed(s.bytes()) == Ok::<SignedTransactionView, ErrorView>(s),
{
    lemma_ops_length(s.transaction.ops);
    lemma_read_signed(s.bytes(), s);
}

/// There is exactly one representation: a message that decodes is the encoding
/// of what it decodes to.
pub proof fn decode_is_canonical(b: Seq<u8>)
    ensures
        read_signed(b) matches Ok(s) ==> s.fits() && s.bytes() == b,
{
    if let Ok(s) = read_signed(b) {
        lemma_transaction_read(b, 0);
        let p1 = s.transaction.bytes().len() as int;
        lemma_stands_split(b, p1, s.admin, s.signature);
        lemma_stands_split(b, 0, s.transaction.bytes(), s.admin + s.signature);
        assert(b.subrange(0, b.len() as int) =~= b);
    }
}

/// Where equally many lines stand at one place they are the same.
proof fn lemma_same_lines(w: Seq<u8>, at: int, a: Seq<Seq<char>>, b: Seq<Seq<char>>)
    requires
        a.len() == b.len(),
        lines_counted(a),
        lines_counted(b),
        stands_at(w, at, lines_bytes(a)),
        stands_at(w, at, lines_bytes(b)),
    ensures
        a == b,
    decreases a.len(),
{
    if a.len() > 0 {
        let x = a.drop_last();
        let y = b.drop_last();
        lemma_stands_split(w, at, lines_bytes(x), framed(encode_utf8(a.last())));
        lemma_stands_split(w, at, lines_bytes(y), framed(encode_utf8(b.last())));
        assert(lines_counted(x) && lines_counted(y)) by {
            assert forall|i: int| 0 <= i < x.len() implies encode_utf8(#[trigger] x[i]).len()
                < 0x1_0000_0000 by {
                assert(x[i] == a[i]);
            }
            assert forall|i: int| 0 <= i < y.len() implies encode_utf8(#[trigger] y[i]).len()
                < 0x1_0000_0000 by {
                assert(y[i] == b[i]);
            }
        }
        lemma_same_lines(w, at, x, y);
        assert(encode_utf8(a[a.len() - 1]).len() < 0x1_0000_0000);
        assert(encode_utf8(b[b.len() - 1]).len() < 0x1_0000_0000);
        lemma_same_text(w, at + lines_bytes(x).len(), a.last(), b.last());
        assert(a =~= x.push(a.last()));
        assert(b =~= y.push(b.last()));
    } else {
        assert(a =~= b);
    }
}

/// Where two operations stand at one place they are the same.
proof fn lemma_same_op(w: Seq<u8>, at: int, a: OperationView, b: OperationView)
    requires
        a.counted(),
        b.counted(),
        stands_at(w, at, a.bytes()),
        stands_at(w, at, b.bytes()),
    ensures
        a == b,
{
    lemma_op_parts(w, at, a);
    lemma_op_parts(w, at, b);
    let p1 = at + framed(encode_utf8(a.summary)).len();
    lemma_same_text(w, at, a.summary, b.summary);
    lemma_same_number(w, p1, a.detail.len(), b.detail.len());
    lemma_same_lines(w, p1 + 4, a.detail, b.detail);
    lemma_same_field(w, p1 + 4 + lines_bytes(a.detail).len(), a.payload, b.payload);
}

/// The parts of an operation stand one after the other.
proof fn lemma_op_parts(w: Seq<u8>, at: int, op: OperationView)
    ensures
        ({
            let p1 = at + framed(encode_utf8(op.summary)).len();
            let p3 = p1 + 4 + lines_bytes(op.detail).len();
            stands_at(w, at, op.bytes()) <==> {
                &&& stands_at(w, at, framed(encode_utf8(op.summary)))
                &&& stands_at(w, p1, be32(op.detail.len()))
                &&& stands_at(w, p1 + 4, lines_bytes(op.detail))
                &&& stands_at(w, p3, framed(op.payload))
            }
        }),
{
    let s1 = framed(encode_utf8(op.summary));
    let s2 = be32(op.detail.len());
    let s3 = lines_bytes(op.detail);
    let s4 = framed(op.payload);
    lemma_stands_split(w, at, s1, s2 + (s3 + s4));
    lemma_stands_split(w, at + s1.len(), s2, s3 + s4);
    lemma_stands_split(w, at + s1.len() + s2.len(), s3, s4);
}

/// Where equally many operations stand at one place they are the same.
proof fn lemma_same_ops(w: Seq<u8>, at: int, a: Seq<OperationView>, b: Seq<OperationView>)
    requires
        a.len() == b.len(),
        forall|i: int| 0 <= i < a.len() ==> (#[trigger] a[i]).counted(),
        forall|i: int| 0 <= i < b.len() ==> (#[trigger] b[i]).counted(),
        stands_at(w, at, ops_bytes(a)),
        stands_at(w, at, ops_bytes(b)),
    ensures
        a == b,
    decreases a.len(),
{
    if a.len() > 0 {
        let x = a.drop_last();
        let y = b.drop_last();
        lemma_stands_split(w, at, ops_bytes(x), a.last().bytes());
        lemma_stands_split(w, at, ops_bytes(y), b.last().bytes());
        assert forall|i: int| 0 <= i < x.len() implies (#[trigger] x[i]).counted() by {
            assert(x[i] == a[i]);
        }
        assert forall|i: int| 0 <= i < y.len() implies (#[trigger] y[i]).counted() by {
            assert(y[i] == b[i]);
        }
        lemma_same_ops(w, at, x, y);
        assert(a[a.len() - 1].counted() && b[b.len() - 1].counted());
        lemma_same_op(w, at + ops_bytes(x).len(), a.last(), b.last());
        assert(a =~= x.push(a.last()));
        assert(b =~= y.push(b.last()));
    } else {
        assert(a =~= b);
    }
}

/// The parts of a transaction stand one after the other.
proof fn lemma_transaction_parts(w: Seq<u8>, at: int, t: TransactionView)
    requires
        t.server.len() == 32,
        t.nonce.len() == 32,
    ensures
        stands_at(w, at, t.bytes()) <==> {
            &&& stands_at(w, at, t.server)
            &&& stands_at(w, at + 32, t.nonce)
            &&& stands_at(w, at + 64, be32(t.ops.len()))
            &&& stands_at(w, at + 68, ops_bytes(t.ops))
        },
{
    let s3 = be32(t.ops.len());
    let s4 = ops_bytes(t.ops);
    lemma_stands_split(w, at, t.server, t.nonce + (s3 + s4));
    lemma_stands_split(w, at + 32, t.nonce, s3 + s4);
    lemma_stands_split(w, at + 64, s3, s4);
}

/// The bytes that are hashed determine the whole batch, summaries and details
/// as well as payloads, whether or not it is within the bounds of decoding: no
/// transaction's encoding even begins with another's. Only counts and lengths
/// that four bytes cannot write are left out.
pub proof fn encoding_tells_transactions_apart(a: TransactionView, b: TransactionView)
    requires
        a.server.len() == 32,
        a.nonce.len() == 32,
        b.server.len() == 32,
        b.nonce.len() == 32,
        a.counted(),
        b.counted(),
        a.bytes().is_prefix_of(b.bytes()),
    ensures
        a == b,
{
    let w = b.bytes();
    assert(w.subrange(0, w.len() as int) =~= w);
    assert(w.subrange(0, a.bytes().len() as int) =~= a.bytes());
    lemma_transaction_parts(w, 0, a);
    lemma_transaction_parts(w, 0, b);
    lemma_same_number(w, 64, a.ops.len(), b.ops.len());
    lemma_same_ops(w, 68, a.ops, b.ops);
}

/// Decoding takes exactly the transaction that stands at the cursor: it reads
/// `t` and stops at `end` just where `t` is within bounds and its encoding
/// stands there and ends there. All else is malformed.
pub proof fn transaction_is_read_where_it_stands(b: Seq<u8>, at: int, t: TransactionView, end: int)
    requires
        0 <= at <= b.len() <= usize::MAX,
    ensures
        read_transaction(b, at) == Ok::<(TransactionView, int), ErrorView>((t, end)) <==> t.fits()
            && stands_at(b, at, t.bytes()) && end == at + t.bytes().len(),
        read_transaction(b, at) matches Err(e) ==> e is Malformed,
{
    lemma_transaction_read(b, at);
    if t.fits() && stands_at(b, at, t.bytes()) {
        lemma_read_transaction(b, at, t);
    }
    lemma_transaction_malformed(b, at);
}

/// What is no transaction is malformed.
proof fn lemma_transaction_malformed(b: Seq<u8>, at: int)
    ensures
        read_transaction(b, at) matches Err(e) ==> e is Malformed,
{
    if let Ok((n, p3)) = read_u32(b, at + 64) {
        lemma_ops_malformed(b, p3, n);
    }
}

proof fn lemma_lines_malformed(b: Seq<u8>, at: int, n: nat)
    ensures
        read_lines(b, at, n) matches Err(e) ==> e is Malformed,
    decreases n,
{
    if n > 0 {
        lemma_lines_malformed(b, at, (n - 1) as nat);
    }
}

proof fn lemma_ops_malformed(b: Seq<u8>, at: int, n: nat)
    ensures
        read_ops(b, at, n) matches Err(e) ==> e is Malformed,
    decreases n,
{
    if n > 0 {
        lemma_ops_malformed(b, at, (n - 1) as nat);
        if let Ok((_, next)) = read_ops(b, at, (n - 1) as nat) {
            if let Ok((_, p1)) = read_text(b, next, MAX_STR as nat) {
                if let Ok((d, p2)) = read_u32(b, p1) {
                    lemma_lines_malformed(b, p2, d);
                }
            }
        }
    }
}

/// What carries a signature that stands up to its administrator's key verifies
/// at the server it was signed for, and at no other.
pub proof fn signed_verifies_at_its_server(signed: SignedTransactionView, expected: Seq<u8>)
    requires
        verifies(signed.admin, signed.transaction.signing_bytes(), signed.signature),
    ensures
        signed.verdict(expected) == if signed.transaction.server == expected {
            Ok::<(), ErrorView>(())
        } else {
            Err(ErrorView::WrongServer)
        },
{
}

/// A transaction is viewed field by field, operation by operation and line by
/// line, in order, with nothing left out.
pub proof fn transactions_are_viewed_whole(op: Operation, t: Transaction, s: SignedTransaction)
    ensures
        op@.summary == op.summary@,
        op@.payload == op.payload@,
        op@.detail.len() == op.detail@.len(),
        forall|i: int| 0 <= i < op.detail@.len() ==> #[trigger] op@.detail[i] == op.detail@[i]@,
        t@.server == t.server@,
        t@.nonce == t.nonce@,
        t@.ops.len() == t.ops@.len(),
        forall|i: int| 0 <= i < t.ops@.len() ==> #[trigger] t@.ops[i] == t.ops@[i]@,
        operations(t.ops@) == t@.ops,
        s@.transaction == s.transaction@,
        s@.admin == s.admin@,
        s@.signature == s.signature@,
{
}

/// What is signed is the domain separator and then the hash of the encoding, all
/// of it: batches of any size with the same encoding have the same signing
/// bytes, the hash is that of the encoding and of nothing else, and whatever two
/// transactions hash that is the same, they are the same.
pub proof fn signing_bytes_hash_the_whole_encoding(a: TransactionView, b: TransactionView)
    requires
        a.server.len() == 32,
        a.nonce.len() == 32,
        b.server.len() == 32,
        b.nonce.len() == 32,
        a.counted(),
        b.counted(),
    ensures
        a.signing_bytes().take(10) == TX_CONTEXT@,
        TX_CONTEXT@ == seq![
            0x73u8,
            0x71u8,
            0x6eu8,
            0x72u8,
            0x2du8,
            0x74u8,
            0x78u8,
            0x2du8,
            0x76u8,
            0x31u8,
        ],
        a.signing_bytes().skip(10) == sha256(a.bytes()),
        a.signing_bytes() == b.signing_bytes() <==> sha256(a.bytes()) == sha256(b.bytes()),
        a.bytes() == b.bytes() ==> a == b,
{
    assert(a.signing_bytes().take(10) =~= TX_CONTEXT@);
    assert(a.signing_bytes().skip(10) =~= sha256(a.bytes()));
    assert(b.signing_bytes().skip(10) =~= sha256(b.bytes()));
    if a.bytes() == b.bytes() {
        assert(a.bytes().is_prefix_of(b.bytes()));
        encoding_tells_transactions_apart(a, b);
    }
}

/// A server accepts a signed transaction if and only if it names that server,
/// the administrator's key is a point, and that key accepts the signature over
/// the separator and the hash of the whole transaction. Of several faults the
/// server's comes first, then the key's.
pub proof fn verdict_asks_for_server_key_and_signature(s: SignedTransactionView, e: Seq<u8>)
    ensures
        s.verdict(e) is Ok <==> {
            &&& s.transaction.server == e
            &&& ed25519_point(s.admin)
            &&& ed25519_accepts(
                s.admin,
                TX_CONTEXT@ + sha256(s.transaction.bytes()),
                s.signature,
            )
        },
        s.verdict(e) == Err::<(), ErrorView>(ErrorView::WrongServer) <==> s.transaction.server != e,
        s.verdict(e) == Err::<(), ErrorView>(ErrorView::BadSignature) <==> {
            &&& s.transaction.server == e
            &&& ed25519_point(s.admin)
            &&& !ed25519_accepts(
                s.admin,
                TX_CONTEXT@ + sha256(s.transaction.bytes()),
                s.signature,
            )
        },
        s.verdict(e) == Err::<(), ErrorView>(
            ErrorView::Key(
                "not a valid Ed25519 public key: "@
                    + "signature error: Cannot decompress Edwards point"@,
            ),
        ) <==> s.transaction.server == e && !ed25519_point(s.admin),
{
}

/// A software signer gives the Ed25519 signature of its seed, and no other, and
/// names the public key of its seed.
pub proof fn software_signatures_are_those_of_the_seed(
    signer: SoftwareSigner,
    msg: Seq<u8>,
    sig: Seq<u8>,
)
    ensures
        signer.public_key() == ed25519_public(signer@),
        signer.signs(msg, sig) ==> {
            &&& sig == ed25519_signature(signer@, msg)
            &&& ed25519_point(ed25519_public(signer@))
            &&& ed25519_accepts(ed25519_public(signer@), msg, sig)
        },
{
}

/// The bounds of decoding, in numbers.
pub proof fn bounds_in_numbers(t: TransactionView, op: OperationView)
    ensures
        op.fits() <==> {
            &&& encode_utf8(op.summary).len() <= 4096
            &&& op.detail.len() <= 32
            &&& forall|i: int|
                0 <= i < op.detail.len() ==> encode_utf8(#[trigger] op.detail[i]).len() <= 4096
            &&& op.payload.len() <= 65536
        },
        t.fits() <==> {
            &&& t.server.len() == 32
            &&& t.nonce.len() == 32
            &&& t.ops.len() <= 64
            &&& forall|i: int| 0 <= i < t.ops.len() ==> (#[trigger] t.ops[i]).fits()
        },
{
}

/// A transaction begins with its server, its nonce and the number of its
/// operations, and a signed one ends with the administrator's key and the
/// signature.
pub proof fn messages_are_laid_out_in_order(s: SignedTransactionView)
    requires
        s.transaction.server.len() == 32,
        s.transaction.nonce.len() == 32,
        s.admin.len() == 32,
        s.signature.len() == 64,
    ensures
        ({
            let t = s.transaction;
            let n = t.bytes().len() as int;
            &&& t.bytes().subrange(0, 32) == t.server
            &&& t.bytes().subrange(32, 64) == t.nonce
            &&& t.bytes().subrange(64, 68) == be32(t.ops.len())
            &&& t.bytes().skip(68) == ops_bytes(t.ops)
            &&& s.bytes().len() == n + 96
            &&& s.bytes().subrange(0, n) == t.bytes()
            &&& s.bytes().subrange(n, n + 32) == s.admin
            &&& s.bytes().subrange(n + 32, n + 96) == s.signature
        }),
{
    let t = s.transaction;
    let n = t.bytes().len() as int;
    assert(t.bytes().subrange(0, 32) =~= t.server);
    assert(t.bytes().subrange(32, 64) =~= t.nonce);
    assert(t.bytes().subrange(64, 68) =~= be32(t.ops.len()));
    assert(t.bytes().skip(68) =~= ops_bytes(t.ops));
    assert(s.bytes().subrange(0, n) =~= t.bytes());
    assert(s.bytes().subrange(n, n + 32) =~= s.admin);
    assert(s.bytes().subrange(n + 32, n + 96) =~= s.signature);
}

/// Operations follow one another in order, however many there are, and so do
/// detail lines; one line is one field.
pub proof fn operations_and_lines_follow_one_another(
    xs: Seq<OperationView>,
    ys: Seq<OperationView>,
    ls: Seq<Seq<char>>,
    ms: Seq<Seq<char>>,
    op: OperationView,
    line: Seq<char>,
)
    ensures
        ops_bytes(Seq::empty()) == Seq::<u8>::empty(),
        ops_bytes(seq![op]) == op.bytes(),
        ops_bytes(xs + ys) == ops_bytes(xs) + ops_bytes(ys),
        lines_bytes(Seq::empty()) == Seq::<u8>::empty(),
        lines_bytes(seq![line]) == framed(encode_utf8(line)),
        lines_bytes(ls + ms) == lines_bytes(ls) + lines_bytes(ms),
{
    let none = seq![op].drop_last();
    assert(none.len() == 0 && seq![op].last() == op);
    assert(ops_bytes(none) =~= Seq::<u8>::empty());
    assert(ops_bytes(seq![op]) =~= op.bytes());
    lemma_one_line(line);
    lemma_ops_concat(xs, ys);
    lemma_lines_concat(ls, ms);
}

proof fn lemma_one_line(line: Seq<char>)
    ensures
        lines_bytes(seq![line]) == framed(encode_utf8(line)),
{
    let none = seq![line].drop_last();
    assert(none.len() == 0 && seq![line].last() == line);
    assert(lines_bytes(none) =~= Seq::<u8>::empty());
    assert(lines_bytes(seq![line]) =~= framed(encode_utf8(line)));
}

proof fn lemma_ops_concat(xs: Seq<OperationView>, ys: Seq<OperationView>)
    ensures
        ops_bytes(xs + ys) == ops_bytes(xs) + ops_bytes(ys),
    decreases ys.len(),
{
    if ys.len() == 0 {
        assert(xs + ys =~= xs);
    } else {
        assert((xs + ys).drop_last() =~= xs + ys.drop_last());
        lemma_ops_concat(xs, ys.drop_last());
    }
    assert(ops_bytes(xs + ys) =~= ops_bytes(xs) + ops_bytes(ys));
}

proof fn lemma_lines_concat(ls: Seq<Seq<char>>, ms: Seq<Seq<char>>)
    ensures
        lines_bytes(ls + ms) == lines_bytes(ls) + lines_bytes(ms),
    decreases ms.len(),
{
    if ms.len() == 0 {
        assert(ls + ms =~= ls);
    } else {
        assert((ls + ms).drop_last() =~= ls + ms.drop_last());
        lemma_lines_concat(ls, ms.drop_last());
    }
    assert(lines_bytes(ls + ms) =~= lines_bytes(ls) + lines_bytes(ms));
}

/// An operation is its summary as a field, the number of its detail lines, the
/// lines, and its payload as a field.
pub proof fn an_operation_is_laid_out_in_order(op: OperationView)
    ensures
        ({
            let p1 = framed(encode_utf8(op.summary)).len() as int;
            let p3 = p1 + 4 + lines_bytes(op.detail).len();
            &&& op.bytes().subrange(0, p1) == framed(encode_utf8(op.summary))
            &&& op.bytes().subrange(p1, p1 + 4) == be32(op.detail.len())
            &&& op.bytes().subrange(p1 + 4, p3) == lines_bytes(op.detail)
            &&& op.bytes().skip(p3) == framed(op.payload)
        }),
{
    let p1 = framed(encode_utf8(op.summary)).len() as int;
    let p3 = p1 + 4 + lines_bytes(op.detail).len();
    assert(op.bytes().subrange(0, p1) =~= framed(encode_utf8(op.summary)));
    assert(op.bytes().subrange(p1, p1 + 4) =~= be32(op.detail.len()));
    assert(op.bytes().subrange(p1 + 4, p3) =~= lines_bytes(op.detail));
    assert(op.bytes().skip(p3) =~= framed(op.payload));
}

proof fn lemma_lines_cut(b: Seq<u8>, k: int, at: int, n: nat)
    requires
        0 <= at <= k <= b.len() <= usize::MAX,
    ensures
        read_lines(b, at, n) matches Ok((x, next)) ==> at <= next && read_lines(b.take(k), at, n)
            == (if next <= k {
            Ok::<(Seq<Seq<char>>, int), ErrorView>((x, next))
        } else {
            Err(ErrorView::Malformed("unexpected end of message"@))
        }),
    decreases n,
{
    if n > 0 {
        lemma_lines_cut(b, k, at, (n - 1) as nat);
        if let Ok((_, mid)) = read_lines(b, at, (n - 1) as nat) {
            if mid <= k {
                lemma_text_cut(b, k, mid, MAX_STR as nat);
            } else {
                lemma_text_ahead(b, mid, MAX_STR as nat);
            }
        }
    }
}

proof fn lemma_op_cut(b: Seq<u8>, k: int, at: int)
    requires
        0 <= at <= k <= b.len() <= usize::MAX,
    ensures
        read_op(b, at) matches Ok((x, next)) ==> at <= next && read_op(b.take(k), at) == (if next
            <= k {
            Ok::<(OperationView, int), ErrorView>((x, next))
        } else {
            Err(ErrorView::Malformed("unexpected end of message"@))
        }),
{
    lemma_text_cut(b, k, at, MAX_STR as nat);
    lemma_op_ahead(b, at);
    if let Ok((_, p1)) = read_text(b, at, MAX_STR as nat) {
        if p1 <= k {
            lemma_u32_cut(b, k, p1);
            if let Ok((d, p2)) = read_u32(b, p1) {
                if p2 <= k && d <= MAX_DETAIL {
                    lemma_lines_cut(b, k, p2, d);
                    if let Ok((_, p3)) = read_lines(b, p2, d) {
                        if p3 <= k {
                            lemma_field_cut(b, k, p3, MAX_PAYLOAD as nat);
                        }
                    }
                }
            }
        }
    }
}

/// Reading goes forward, through each of the parts.
proof fn lemma_op_ahead(b: Seq<u8>, at: int)
    requires
        0 <= at <= b.len(),
    ensures
        read_op(b, at) matches Ok((x, next)) ==> {
            let p1 = read_text(b, at, MAX_STR as nat)->Ok_0.1;
            let p2 = read_u32(b, p1)->Ok_0.1;
            let p3 = read_lines(b, p2, x.detail.len())->Ok_0.1;
            at <= p1 <= p2 <= p3 <= next <= b.len()
        },
{
    if let Ok((x, next)) = read_op(b, at) {
        lemma_text_read(b, at, MAX_STR as nat);
        let p1 = read_text(b, at, MAX_STR as nat)->Ok_0.1;
        lemma_u32_read(b, p1);
        let (d, p2) = read_u32(b, p1)->Ok_0;
        lemma_lines_read(b, p2, d);
        lemma_op_read(b, at);
        lemma_field_read(b, read_lines(b, p2, d)->Ok_0.1, MAX_PAYLOAD as nat);
    }
}

proof fn lemma_ops_cut(b: Seq<u8>, k: int, at: int, n: nat)
    requires
        0 <= at <= k <= b.len() <= usize::MAX,
    ensures
        read_ops(b, at, n) matches Ok((x, next)) ==> at <= next && read_ops(b.take(k), at, n) == (
        if next <= k {
            Ok::<(Seq<OperationView>, int), ErrorView>((x, next))
        } else {
            Err(ErrorView::Malformed("unexpected end of message"@))
        }),
    decreases n,
{
    if n > 0 {
        lemma_ops_cut(b, k, at, (n - 1) as nat);
        lemma_ops_read(b, at, (n - 1) as nat);
        if let Ok((_, mid)) = read_ops(b, at, (n - 1) as nat) {
            lemma_op_ahead(b, mid);
            if mid <= k {
                lemma_op_cut(b, k, mid);
            }
        }
    }
}

proof fn lemma_transaction_cut(b: Seq<u8>, k: int, at: int)
    requires
        0 <= at <= k <= b.len() <= usize::MAX,
    ensures
        read_transaction(b, at) matches Ok((x, next)) ==> read_transaction(b.take(k), at) == (
        if next <= k {
            Ok::<(TransactionView, int), ErrorView>((x, next))
        } else {
            Err(ErrorView::Malformed("unexpected end of message"@))
        }),
{
    if let Ok((x, next)) = read_transaction(b, at) {
        lemma_transaction_read(b, at);
        lemma_raw_cut(b, k, at, 32);
        if at + 32 <= k {
            lemma_raw_cut(b, k, at + 32, 32);
        }
        if at + 64 <= k {
            lemma_u32_cut(b, k, at + 64);
        }
        if at + 68 <= k {
            lemma_ops_cut(b, k, at + 68, read_u32(b, at + 64)->Ok_0.0);
        }
    }
}

/// A message that is cut short anywhere is refused for its end, and for nothing
/// else.
pub proof fn a_cut_message_ends_early(s: SignedTransactionView, k: int)
    requires
        s.fits(),
        0 <= k < s.bytes().len(),
    ensures
        read_signed(s.bytes().take(k)) == Err::<SignedTransactionView, ErrorView>(
            ErrorView::Malformed("unexpected end of message"@),
        ),
{
    let b = s.bytes();
    lemma_ops_length(s.transaction.ops);
    let p1 = s.transaction.bytes().len() as int;
    assert(b.subrange(0, b.len() as int) =~= b);
    lemma_stands_split(b, 0, s.transaction.bytes(), s.admin + s.signature);
    lemma_stands_split(b, p1, s.admin, s.signature);
    lemma_read_transaction(b, 0, s.transaction);
    lemma_read_raw(b, p1, s.admin);
    lemma_read_raw(b, p1 + 32, s.signature);
    lemma_transaction_cut(b, k, 0);
    if p1 <= k {
        lemma_raw_cut(b, k, p1, 32);
    }
    if p1 + 32 <= k {
        lemma_raw_cut(b, k, p1 + 32, 64);
    }
}

/// A message with more behind it is refused with the number of bytes too many.
#[verifier::spinoff_prover]
pub proof fn trailing_bytes_are_counted(s: SignedTransactionView, extra: Seq<u8>)
    requires
        s.fits(),
        extra.len() > 0,
        s.bytes().len() + extra.len() <= usize::MAX,
    ensures
        read_signed(s.bytes() + extra) == Err::<SignedTransactionView, ErrorView>(
            ErrorView::Malformed(decimal_digits(extra.len()) + " trailing bytes"@),
        ),
{
    let b = s.bytes() + extra;
    let p1 = s.transaction.bytes().len() as int;
    assert(b.subrange(0, s.bytes().len() as int) =~= s.bytes());
    lemma_stands_split(b, 0, s.transaction.bytes(), s.admin + s.signature);
    lemma_stands_split(b, p1, s.admin, s.signature);
    lemma_read_transaction(b, 0, s.transaction);
    lemma_read_raw(b, p1, s.admin);
    lemma_read_raw(b, p1 + 32, s.signature);
    assert(read_transaction(b, 0) == Ok::<(TransactionView, int), ErrorView>((s.transaction, p1)));
    assert(b.len() == p1 + 96 + extra.len());
}

/// A message that announces more than 64 operations is refused with their
/// number, whatever follows.
pub proof fn too_many_operations_are_counted(b: Seq<u8>)
    requires
        68 <= b.len() <= usize::MAX,
        be32_value(b.subrange(64, 68)) > 64,
    ensures
        read_signed(b) == Err::<SignedTransactionView, ErrorView>(
            ErrorView::Malformed(
                "too many ops: "@ + decimal_digits(be32_value(b.subrange(64, 68))),
            ),
        ),
{
}

/// What is wrong with the first operation that is out of bounds is what is said
/// of the whole message: operations before it have been read, and none after it
/// is.
pub proof fn the_first_bad_operation_is_named(b: Seq<u8>, good: Seq<OperationView>, e: ErrorView)
    requires
        68 <= b.len() <= usize::MAX,
        good.len() < be32_value(b.subrange(64, 68)) <= 64,
        ops_fit(good),
        stands_at(b, 68, ops_bytes(good)),
        read_op(b, 68 + ops_bytes(good).len() as int) == Err::<(OperationView, int), ErrorView>(e),
    ensures
        read_signed(b) == Err::<SignedTransactionView, ErrorView>(e),
{
    lemma_read_ops(b, 68, good);
    assert(read_ops(b, 68, good.len() + 1) == Err::<(Seq<OperationView>, int), ErrorView>(e));
    lemma_ops_fault(b, 68, good.len() + 1, be32_value(b.subrange(64, 68)));
}

/// An operation is refused for what exceeds its bounds first: its summary, the
/// number of its lines, a line, or its payload.
pub proof fn an_operation_is_refused_for_its_first_excess(
    b: Seq<u8>,
    at: int,
    op: OperationView,
    line: int,
)
    requires
        b.len() <= usize::MAX,
        op.counted(),
        stands_at(b, at, op.bytes()),
    ensures
        encode_utf8(op.summary).len() > 4096 ==> read_op(b, at) == Err::<
            (OperationView, int),
            ErrorView,
        >(
            ErrorView::Malformed(
                "field of "@ + decimal_digits(encode_utf8(op.summary).len()) + " bytes exceeds "@
                    + decimal_digits(4096),
            ),
        ),
        encode_utf8(op.summary).len() <= 4096 && op.detail.len() > 32 ==> read_op(b, at) == Err::<
            (OperationView, int),
            ErrorView,
        >(ErrorView::Malformed("too many detail lines: "@ + decimal_digits(op.detail.len()))),
        encode_utf8(op.summary).len() <= 4096 && op.detail.len() <= 32 && 0 <= line
            < op.detail.len() && lines_fit(op.detail.take(line)) && encode_utf8(
            op.detail[line],
        ).len() > 4096 ==> read_op(b, at) == Err::<(OperationView, int), ErrorView>(
            ErrorView::Malformed(
                "field of "@ + decimal_digits(encode_utf8(op.detail[line]).len())
                    + " bytes exceeds "@ + decimal_digits(4096),
            ),
        ),
        encode_utf8(op.summary).len() <= 4096 && op.detail.len() <= 32 && lines_fit(op.detail)
            && op.payload.len() > 65536 ==> read_op(b, at) == Err::<
            (OperationView, int),
            ErrorView,
        >(
            ErrorView::Malformed(
                "field of "@ + decimal_digits(op.payload.len()) + " bytes exceeds "@
                    + decimal_digits(65536),
            ),
        ),
{
    lemma_op_parts(b, at, op);
    let p1 = at + framed(encode_utf8(op.summary)).len();
    let p2 = p1 + 4;
    if encode_utf8(op.summary).len() > 4096 {
        lemma_field_excess(b, at, encode_utf8(op.summary), MAX_STR as nat);
    } else {
        lemma_read_text(b, at, op.summary, MAX_STR as nat);
        lemma_read_u32(b, p1, op.detail.len());
        if op.detail.len() <= 32 {
            if 0 <= line < op.detail.len() && lines_fit(op.detail.take(line)) && encode_utf8(
                op.detail[line],
            ).len() > 4096 {
                let init = op.detail.take(line);
                let bad = op.detail[line];
                let rest = op.detail.skip(line + 1);
                assert(op.detail =~= init + (seq![bad] + rest));
                lemma_lines_concat(init, seq![bad] + rest);
                lemma_lines_concat(seq![bad], rest);
                lemma_one_line(bad);
                let p3 = p2 + lines_bytes(init).len();
                lemma_stands_split(b, p2, lines_bytes(init), lines_bytes(seq![bad] + rest));
                lemma_stands_split(b, p3, lines_bytes(seq![bad]), lines_bytes(rest));
                lemma_read_lines(b, p2, init);
                lemma_field_excess(b, p3, encode_utf8(bad), MAX_STR as nat);
                assert(read_lines(b, p2, init.len() + 1) is Err);
                lemma_lines_fault(b, p2, init.len() + 1, op.detail.len());
            }
            if lines_fit(op.detail) && op.payload.len() > 65536 {
                lemma_read_lines(b, p2, op.detail);
                lemma_field_excess(b, p2 + lines_bytes(op.detail).len(), op.payload, MAX_PAYLOAD as nat);
            }
        }
    }
}

/// What is wrong with the first part of an operation that cannot be read, be it
/// its summary, the number of its lines, a line or its payload, is what is said
/// of the operation; `lines` are those before that part.
pub proof fn an_operation_fails_with_its_first_bad_part(
    b: Seq<u8>,
    at: int,
    lines: Seq<Seq<char>>,
    e: ErrorView,
)
    requires
        0 <= at <= b.len() <= usize::MAX,
        lines_fit(lines),
    ensures
        read_text(b, at, 4096) == Err::<(Seq<char>, int), ErrorView>(e) ==> read_op(b, at) == Err::<
            (OperationView, int),
            ErrorView,
        >(e),
        read_text(b, at, 4096) matches Ok((_, p)) ==> {
            let end = p + 4 + lines_bytes(lines).len();
            &&& read_u32(b, p) == Err::<(nat, int), ErrorView>(e) ==> read_op(b, at) == Err::<
                (OperationView, int),
                ErrorView,
            >(e)
            &&& read_u32(b, p) matches Ok((n, _)) ==> n <= 32 && stands_at(
                b,
                p + 4,
                lines_bytes(lines),
            ) ==> {
                &&& lines.len() < n && read_text(b, end, 4096) == Err::<
                    (Seq<char>, int),
                    ErrorView,
                >(e) ==> read_op(b, at) == Err::<(OperationView, int), ErrorView>(e)
                &&& lines.len() == n && read_field(b, end, 65536) == Err::<
                    (Seq<u8>, int),
                    ErrorView,
                >(e) ==> read_op(b, at) == Err::<(OperationView, int), ErrorView>(e)
            }
        },
{
    if let Ok((_, p)) = read_text(b, at, 4096) {
        if let Ok((n, _)) = read_u32(b, p) {
            if n <= 32 && stands_at(b, p + 4, lines_bytes(lines)) {
                lemma_read_lines(b, p + 4, lines);
                let end = p + 4 + lines_bytes(lines).len();
                if lines.len() < n && read_text(b, end, 4096) == Err::<
                    (Seq<char>, int),
                    ErrorView,
                >(e) {
                    assert(read_lines(b, p + 4, lines.len() + 1) == Err::<
                        (Seq<Seq<char>>, int),
                        ErrorView,
                    >(e));
                    lemma_lines_fault(b, p + 4, lines.len() + 1, n);
                }
            }
        }
    }
}

} // verus!
