//! The byte format that transactions and commands share: big-endian numbers,
//! length-prefixed fields, and a cursor that reads them.

use vstd::prelude::*;
use vstd::utf8::{decode_utf8, encode_utf8, valid_utf8};
use crate::error::{Error, ErrorView, Result};
use crate::key::array_of;
use crate::text::{decimal, decimal_digits};

verus! {

/// The low 32 bits of `n` as four bytes, most significant first.
pub open spec fn be32(n: nat) -> Seq<u8> {
    seq![
        (n / 256 / 256 / 256 % 256) as u8,
        (n / 256 / 256 % 256) as u8,
        (n / 256 % 256) as u8,
        (n % 256) as u8,
    ]
}

/// The number that four bytes write, most significant first.
pub open spec fn be32_value(b: Seq<u8>) -> nat {
    (256 * (256 * (256 * b[0] + b[1]) + b[2]) + b[3]) as nat
}

/// Four bytes write a number below 2^32, and are the bytes of that number.
pub proof fn be32_round_trip(n: nat, b: Seq<u8>)
    requires
        b.len() == 4,
    ensures
        n < 0x1_0000_0000 ==> be32_value(be32(n)) == n,
        be32_value(b) < 0x1_0000_0000,
        be32(be32_value(b)) == b,
{
    let q1 = n / 256;
    let q2 = q1 / 256;
    let q3 = q2 / 256;
    if n < 0x1_0000_0000 {
        assert(q3 < 256);
        assert(be32(n)[0] == q3);
        assert(be32(n)[1] == q2 % 256);
        assert(be32(n)[2] == q1 % 256);
        assert(be32(n)[3] == n % 256);
    }
    let v1 = (256 * (256 * b[0] + b[1]) + b[2]) as nat;
    let v2 = (256 * b[0] + b[1]) as nat;
    let v = be32_value(b);
    assert(v / 256 == v1 && v % 256 == b[3]);
    assert(v1 / 256 == v2 && v1 % 256 == b[2]);
    assert(v2 / 256 == b[0] && v2 % 256 == b[1]);
    assert(be32(v) =~= b);
}

/// A field: its length in four bytes, then its bytes.
pub open spec fn framed(b: Seq<u8>) -> Seq<u8> {
    be32(b.len()) + b
}

/// Four bytes write their number most significant first, and are the low 32 bits
/// of a number.
pub proof fn be32_is_big_endian(n: nat, b: Seq<u8>)
    requires
        b.len() == 4,
    ensures
        be32(n).len() == 4,
        0x100_0000 * be32(n)[0] + 0x1_0000 * be32(n)[1] + 0x100 * be32(n)[2] + be32(n)[3] == n
            % 0x1_0000_0000,
        be32_value(b) == 0x100_0000 * b[0] + 0x1_0000 * b[1] + 0x100 * b[2] + b[3],
{
    let q1 = n / 256;
    let q2 = q1 / 256;
    let q3 = q2 / 256;
    let q4 = q3 / 256;
    let low = 0x100_0000 * (q3 % 256) + 0x1_0000 * (q2 % 256) + 0x100 * (q1 % 256) + n % 256;
    assert(n == 0x1_0000_0000 * q4 + low);
    assert(0 <= low < 0x1_0000_0000);
    assert(n % 0x1_0000_0000 == low);
}

/// A field is its length and then its bytes.
pub proof fn a_field_is_its_length_and_its_bytes(b: Seq<u8>)
    ensures
        framed(b).len() == 4 + b.len(),
        framed(b).subrange(0, 4) == be32(b.len()),
        framed(b).skip(4) == b,
{
    assert(framed(b).subrange(0, 4) =~= be32(b.len()));
    assert(framed(b).skip(4) =~= b);
}

/// Appends the low 32 bits of `n`.
pub(crate) fn put_u32(out: &mut Vec<u8>, n: usize)
    ensures
        final(out)@ == old(out)@ + be32(n as nat),
{
    let x: u64 = n as u64;
    out.push((x / 256 / 256 / 256 % 256) as u8);
    out.push((x / 256 / 256 % 256) as u8);
    out.push((x / 256 % 256) as u8);
    out.push((x % 256) as u8);
    assert(out@ =~= old(out)@ + be32(n as nat));
}

/// Appends a field.
pub(crate) fn put_bytes(out: &mut Vec<u8>, b: &[u8])
    ensures
        final(out)@ == old(out)@ + framed(b@),
{
    put_u32(out, b.len());
    out.extend_from_slice(b);
    assert(out@ =~= old(out)@ + framed(b@));
}

/// The number that four bytes write.
pub(crate) fn number(b: &[u8]) -> (r: u32)
    requires
        b@.len() == 4,
    ensures
        r == be32_value(b@),
{
    256 * (256 * (256 * b[0] as u32 + b[1] as u32) + b[2] as u32) + b[3] as u32
}

/// Calls `String::from_utf8`, which takes exactly the bytes that are UTF-8 and
/// returns the text that they encode.
#[verifier::external_body]
pub(crate) fn text_of(bytes: Vec<u8>) -> (r: Option<String>)
    ensures
        match r {
            Some(s) => valid_utf8(bytes@) && s@ == decode_utf8(bytes@),
            None => !valid_utf8(bytes@),
        },
{
    String::from_utf8(bytes).ok()
}

// ---------------------------------------------------------------------------
// Reading
// ---------------------------------------------------------------------------

/// Why `n` bytes cannot be read at position `at` of a message of `len` bytes;
/// `None` where they can.
pub open spec fn overrun(len: nat, at: int, n: int) -> Option<ErrorView> {
    if at + n > usize::MAX {
        Some(ErrorView::Malformed("length overflow"@))
    } else if at + n > len {
        Some(ErrorView::Malformed("unexpected end of message"@))
    } else {
        None
    }
}

/// Reading `n` bytes at `at`: the bytes and the position after them.
pub open spec fn read_raw(b: Seq<u8>, at: int, n: int) -> std::result::Result<
    (Seq<u8>, int),
    ErrorView,
> {
    match overrun(b.len(), at, n) {
        Some(e) => Err(e),
        None => Ok((b.subrange(at, at + n), at + n)),
    }
}

/// Reading a number of four bytes at `at`.
pub open spec fn read_u32(b: Seq<u8>, at: int) -> std::result::Result<(nat, int), ErrorView> {
    match read_raw(b, at, 4) {
        Err(e) => Err(e),
        Ok((raw, next)) => Ok((be32_value(raw), next)),
    }
}

/// Reading a field of at most `max` bytes at `at`.
pub open spec fn read_field(b: Seq<u8>, at: int, max: nat) -> std::result::Result<
    (Seq<u8>, int),
    ErrorView,
> {
    match read_u32(b, at) {
        Err(e) => Err(e),
        Ok((n, next)) => if n > max {
            Err(
                ErrorView::Malformed(
                    "field of "@ + decimal_digits(n) + " bytes exceeds "@ + decimal_digits(max),
                ),
            )
        } else {
            read_raw(b, next, n as int)
        },
    }
}

/// Reading a text of at most `max` bytes at `at`.
pub open spec fn read_text(b: Seq<u8>, at: int, max: nat) -> std::result::Result<
    (Seq<char>, int),
    ErrorView,
> {
    match read_field(b, at, max) {
        Err(e) => Err(e),
        Ok((raw, next)) => if valid_utf8(raw) {
            Ok((decode_utf8(raw), next))
        } else {
            Err(ErrorView::Malformed("invalid utf-8"@))
        },
    }
}

/// Why a message of `len` bytes cannot end at position `at`; `None` where it
/// can.
pub open spec fn trailing(len: nat, at: int) -> Option<ErrorView> {
    if at != len {
        Some(ErrorView::Malformed(decimal_digits((len - at) as nat) + " trailing bytes"@))
    } else {
        None
    }
}

/// Whether the bytes `part` stand in `b` at position `at`.
pub open spec fn stands_at(b: Seq<u8>, at: int, part: Seq<u8>) -> bool {
    0 <= at && at + part.len() <= b.len() && b.subrange(at, at + part.len()) == part
}

/// A minimal big-endian byte cursor for decoding, bounds-checked throughout.
pub(crate) struct Reader<'a> {
    pub(crate) buf: &'a [u8],
    pub(crate) pos: usize,
}

impl<'a> Reader<'a> {
    /// The cursor stands inside the message or at its end.
    pub(crate) open spec fn wf(self) -> bool {
        self.pos <= self.buf@.len()
    }

    /// A cursor at the start of `buf`.
    pub(crate) fn new(buf: &'a [u8]) -> (r: Self)
        ensures
            r.wf(),
            r.buf@ == buf@,
            r.pos == 0,
    {
        Self { buf, pos: 0 }
    }

    /// Reads `n` bytes. A refused read leaves the cursor where it was.
    pub(crate) fn take(&mut self, n: usize) -> (r: Result<&'a [u8]>)
        requires
            old(self).wf(),
        ensures
            final(self).wf(),
            final(self).buf@ == old(self).buf@,
            match r {
                Ok(s) => read_raw(old(self).buf@, old(self).pos as int, n as int) == Ok::<
                    (Seq<u8>, int),
                    ErrorView,
                >((s@, final(self).pos as int)),
                Err(e) => read_raw(old(self).buf@, old(self).pos as int, n as int) == Err::<
                    (Seq<u8>, int),
                    ErrorView,
                >(e@) && final(self).pos == old(self).pos,
            },
    {
        let end: usize = match self.pos.checked_add(n) {
            Some(end) => end,
            None => return Err(Error::Malformed("length overflow".to_string())),
        };
        if end > self.buf.len() {
            return Err(Error::Malformed("unexpected end of message".to_string()));
        }
        let slice = vstd::slice::slice_subrange(self.buf, self.pos, end);
        self.pos = end;
        Ok(slice)
    }

    /// Reads one byte.
    pub(crate) fn u8(&mut self) -> (r: Result<u8>)
        requires
            old(self).wf(),
        ensures
            final(self).wf(),
            final(self).buf@ == old(self).buf@,
            match r {
                Ok(v) => read_raw(old(self).buf@, old(self).pos as int, 1) == Ok::<
                    (Seq<u8>, int),
                    ErrorView,
                >((seq![v], final(self).pos as int)),
                Err(e) => read_raw(old(self).buf@, old(self).pos as int, 1) == Err::<
                    (Seq<u8>, int),
                    ErrorView,
                >(e@) && final(self).pos == old(self).pos,
            },
    {
        let s = self.take(1)?;
        assert(s@ =~= seq![s@[0]]);
        Ok(s[0])
    }

    /// Reads an array.
    pub(crate) fn array<const N: usize>(&mut self) -> (r: Result<[u8; N]>)
        requires
            old(self).wf(),
        ensures
            final(self).wf(),
            final(self).buf@ == old(self).buf@,
            match r {
                Ok(a) => read_raw(old(self).buf@, old(self).pos as int, N as int) == Ok::<
                    (Seq<u8>, int),
                    ErrorView,
                >((a@, final(self).pos as int)),
                Err(e) => read_raw(old(self).buf@, old(self).pos as int, N as int) == Err::<
                    (Seq<u8>, int),
                    ErrorView,
                >(e@) && final(self).pos == old(self).pos,
            },
    {
        let s = self.take(N)?;
        Ok(array_of(s))
    }

    /// Reads a number of four bytes.
    pub(crate) fn u32(&mut self) -> (r: Result<u32>)
        requires
            old(self).wf(),
        ensures
            final(self).wf(),
            final(self).buf@ == old(self).buf@,
            match r {
                Ok(n) => read_u32(old(self).buf@, old(self).pos as int) == Ok::<
                    (nat, int),
                    ErrorView,
                >((n as nat, final(self).pos as int)),
                Err(e) => read_u32(old(self).buf@, old(self).pos as int) == Err::<
                    (nat, int),
                    ErrorView,
                >(e@) && final(self).pos == old(self).pos,
            },
    {
        let s = self.take(4)?;
        Ok(number(s))
    }

    /// Reads a field of at most `max` bytes.
    pub(crate) fn bytes(&mut self, max: usize) -> (r: Result<&'a [u8]>)
        requires
            old(self).wf(),
        ensures
            final(self).wf(),
            final(self).buf@ == old(self).buf@,
            match r {
                Ok(s) => read_field(old(self).buf@, old(self).pos as int, max as nat) == Ok::<
                    (Seq<u8>, int),
                    ErrorView,
                >((s@, final(self).pos as int)),
                Err(e) => read_field(old(self).buf@, old(self).pos as int, max as nat) == Err::<
                    (Seq<u8>, int),
                    ErrorView,
                >(e@),
            },
    {
        let len: usize = self.u32()? as usize;
        if len > max {
            let mut text = "field of ".to_string();
            text.append(decimal(len as u64).as_str());
            text.append(" bytes exceeds ");
            text.append(decimal(max as u64).as_str());
            return Err(Error::Malformed(text));
        }
        self.take(len)
    }

    /// Reads a text of at most `max` bytes.
    pub(crate) fn string(&mut self, max: usize) -> (r: Result<String>)
        requires
            old(self).wf(),
        ensures
            final(self).wf(),
            final(self).buf@ == old(self).buf@,
            match r {
                Ok(s) => read_text(old(self).buf@, old(self).pos as int, max as nat) == Ok::<
                    (Seq<char>, int),
                    ErrorView,
                >((s@, final(self).pos as int)),
                Err(e) => read_text(old(self).buf@, old(self).pos as int, max as nat) == Err::<
                    (Seq<char>, int),
                    ErrorView,
                >(e@),
            },
    {
        let raw = self.bytes(max)?;
        match text_of(vstd::slice::slice_to_vec(raw)) {
            Some(s) => Ok(s),
            None => Err(Error::Malformed("invalid utf-8".to_string())),
        }
    }

    /// Asks that nothing be left.
    pub(crate) fn finish(self) -> (r: Result<()>)
        requires
            self.wf(),
        ensures
            match r {
                Ok(_) => trailing(self.buf@.len(), self.pos as int) is None,
                Err(e) => trailing(self.buf@.len(), self.pos as int) == Some(e@),
            },
    {
        if self.pos != self.buf.len() {
            let mut text = decimal((self.buf.len() - self.pos) as u64);
            text.append(" trailing bytes");
            return Err(Error::Malformed(text));
        }
        Ok(())
    }
}

// ---------------------------------------------------------------------------
// Reading gives back what was written
// ---------------------------------------------------------------------------

/// Bytes that stand at a position are read there.
pub(crate) proof fn lemma_read_raw(b: Seq<u8>, at: int, part: Seq<u8>)
    requires
        b.len() <= usize::MAX,
        stands_at(b, at, part),
    ensures
        read_raw(b, at, part.len() as int) == Ok::<(Seq<u8>, int), ErrorView>(
            (part, at + part.len()),
        ),
{
}

/// The first part of what stands at a position stands there, and the second
/// after it.
pub(crate) proof fn lemma_stands_split(b: Seq<u8>, at: int, first: Seq<u8>, second: Seq<u8>)
    ensures
        stands_at(b, at, first + second) <==> stands_at(b, at, first) && stands_at(
            b,
            at + first.len(),
            second,
        ),
{
    if 0 <= at && at + first.len() + second.len() <= b.len() {
        let whole = b.subrange(at, at + first.len() + second.len());
        let one = b.subrange(at, at + first.len());
        let two = b.subrange(at + first.len(), at + first.len() + second.len());
        assert(whole =~= one + two);
        if whole == first + second {
            assert(one =~= first) by {
                assert forall|i: int| 0 <= i < first.len() implies one[i] == first[i] by {
                    assert(whole[i] == (first + second)[i]);
                }
            }
            assert(two =~= second) by {
                assert forall|i: int| 0 <= i < second.len() implies two[i] == second[i] by {
                    assert(whole[first.len() + i] == (first + second)[first.len() + i]);
                }
            }
        }
    }
}

/// A number that stands at a position is read there.
pub(crate) proof fn lemma_read_u32(b: Seq<u8>, at: int, n: nat)
    requires
        b.len() <= usize::MAX,
        n < 0x1_0000_0000,
        stands_at(b, at, be32(n)),
    ensures
        read_u32(b, at) == Ok::<(nat, int), ErrorView>((n, at + 4)),
{
    lemma_read_raw(b, at, be32(n));
    be32_round_trip(n, be32(n));
}

/// The number that was read stands where it was read.
pub(crate) proof fn lemma_u32_read(b: Seq<u8>, at: int)
    requires
        0 <= at,
    ensures
        read_u32(b, at) matches Ok((n, next)) ==> n < 0x1_0000_0000 && next == at + 4 && stands_at(
            b,
            at,
            be32(n),
        ),
{
    if let Ok((n, next)) = read_u32(b, at) {
        be32_round_trip(n, b.subrange(at, at + 4));
    }
}

/// Where two fields stand at one place they are the same.
pub(crate) proof fn lemma_same_field(b: Seq<u8>, at: int, x: Seq<u8>, y: Seq<u8>)
    requires
        x.len() < 0x1_0000_0000,
        y.len() < 0x1_0000_0000,
        stands_at(b, at, framed(x)),
        stands_at(b, at, framed(y)),
    ensures
        x == y,
{
    lemma_stands_split(b, at, be32(x.len()), x);
    lemma_stands_split(b, at, be32(y.len()), y);
    lemma_same_number(b, at, x.len(), y.len());
}

/// Where two numbers stand at one place they are the same.
pub(crate) proof fn lemma_same_number(b: Seq<u8>, at: int, m: nat, n: nat)
    requires
        m < 0x1_0000_0000,
        n < 0x1_0000_0000,
        stands_at(b, at, be32(m)),
        stands_at(b, at, be32(n)),
    ensures
        m == n,
{
    be32_round_trip(m, be32(m));
    be32_round_trip(n, be32(n));
}

/// Where two texts stand at one place they are the same.
pub(crate) proof fn lemma_same_text(b: Seq<u8>, at: int, x: Seq<char>, y: Seq<char>)
    requires
        encode_utf8(x).len() < 0x1_0000_0000,
        encode_utf8(y).len() < 0x1_0000_0000,
        stands_at(b, at, framed(encode_utf8(x))),
        stands_at(b, at, framed(encode_utf8(y))),
    ensures
        x == y,
{
    lemma_same_field(b, at, encode_utf8(x), encode_utf8(y));
    vstd::utf8::encode_utf8_decode_utf8(x);
    vstd::utf8::encode_utf8_decode_utf8(y);
}

/// A field that stands at a position is read there.
pub(crate) proof fn lemma_read_field(b: Seq<u8>, at: int, raw: Seq<u8>, max: nat)
    requires
        b.len() <= usize::MAX,
        raw.len() <= max,
        raw.len() < 0x1_0000_0000,
        stands_at(b, at, framed(raw)),
    ensures
        read_field(b, at, max) == Ok::<(Seq<u8>, int), ErrorView>((raw, at + framed(raw).len())),
{
    lemma_stands_split(b, at, be32(raw.len()), raw);
    lemma_read_u32(b, at, raw.len());
    lemma_read_raw(b, at + 4, raw);
}

/// The field that was read stands where it was read.
pub(crate) proof fn lemma_field_read(b: Seq<u8>, at: int, max: nat)
    requires
        0 <= at,
    ensures
        read_field(b, at, max) matches Ok((raw, next)) ==> raw.len() <= max && next == at + framed(
            raw,
        ).len() && stands_at(b, at, framed(raw)),
{
    if let Ok((raw, next)) = read_field(b, at, max) {
        lemma_u32_read(b, at);
        let n = read_u32(b, at)->Ok_0.0;
        assert(raw.len() == n);
        lemma_stands_split(b, at, be32(raw.len()), raw);
    }
}

/// A text that stands at a position is read there.
pub(crate) proof fn lemma_read_text(b: Seq<u8>, at: int, s: Seq<char>, max: nat)
    requires
        b.len() <= usize::MAX,
        encode_utf8(s).len() <= max,
        max < 0x1_0000_0000,
        stands_at(b, at, framed(encode_utf8(s))),
    ensures
        read_text(b, at, max) == Ok::<(Seq<char>, int), ErrorView>(
            (s, at + framed(encode_utf8(s)).len()),
        ),
{
    lemma_read_field(b, at, encode_utf8(s), max);
    vstd::utf8::encode_utf8_valid_utf8(s);
    vstd::utf8::encode_utf8_decode_utf8(s);
}

/// The text that was read stands where it was read.
pub(crate) proof fn lemma_text_read(b: Seq<u8>, at: int, max: nat)
    requires
        0 <= at,
    ensures
        read_text(b, at, max) matches Ok((s, next)) ==> encode_utf8(s).len() <= max && next == at
            + framed(encode_utf8(s)).len() && stands_at(b, at, framed(encode_utf8(s))),
{
    lemma_field_read(b, at, max);
    if let Ok((raw, _)) = read_field(b, at, max) {
        if valid_utf8(raw) {
            vstd::utf8::decode_utf8_encode_utf8(raw);
        }
    }
}

// ---------------------------------------------------------------------------
// Reading what is cut short or out of bounds
// ---------------------------------------------------------------------------

/// In a message that is cut at `k` bytes are read as before, or end too early.
pub(crate) proof fn lemma_raw_cut(b: Seq<u8>, k: int, at: int, n: int)
    requires
        0 <= at <= k <= b.len() <= usize::MAX,
        0 <= n,
    ensures
        read_raw(b, at, n) matches Ok((x, next)) ==> next == at + n && read_raw(b.take(k), at, n)
            == (if next <= k {
            Ok::<(Seq<u8>, int), ErrorView>((x, next))
        } else {
            Err(ErrorView::Malformed("unexpected end of message"@))
        }),
{
    if at + n <= k {
        assert(b.take(k).subrange(at, at + n) =~= b.subrange(at, at + n));
    }
}

/// The same of a number.
pub(crate) proof fn lemma_u32_cut(b: Seq<u8>, k: int, at: int)
    requires
        0 <= at <= k <= b.len() <= usize::MAX,
    ensures
        read_u32(b, at) matches Ok((x, next)) ==> next == at + 4 && read_u32(b.take(k), at) == (
        if next <= k {
            Ok::<(nat, int), ErrorView>((x, next))
        } else {
            Err(ErrorView::Malformed("unexpected end of message"@))
        }),
{
    lemma_raw_cut(b, k, at, 4);
}

/// The same of a field.
pub(crate) proof fn lemma_field_cut(b: Seq<u8>, k: int, at: int, max: nat)
    requires
        0 <= at <= k <= b.len() <= usize::MAX,
    ensures
        read_field(b, at, max) matches Ok((x, next)) ==> at <= next && read_field(
            b.take(k),
            at,
            max,
        ) == (if next <= k {
            Ok::<(Seq<u8>, int), ErrorView>((x, next))
        } else {
            Err(ErrorView::Malformed("unexpected end of message"@))
        }),
{
    lemma_u32_cut(b, k, at);
    if let Ok((n, p)) = read_u32(b, at) {
        if p <= k {
            lemma_raw_cut(b, k, p, n as int);
        }
    }
}

/// The same of a text.
pub(crate) proof fn lemma_text_cut(b: Seq<u8>, k: int, at: int, max: nat)
    requires
        0 <= at <= k <= b.len() <= usize::MAX,
    ensures
        read_text(b, at, max) matches Ok((x, next)) ==> at <= next && read_text(b.take(k), at, max)
            == (if next <= k {
            Ok::<(Seq<char>, int), ErrorView>((x, next))
        } else {
            Err(ErrorView::Malformed("unexpected end of message"@))
        }),
{
    lemma_field_cut(b, k, at, max);
}

/// Reading a text goes forward.
pub(crate) proof fn lemma_text_ahead(b: Seq<u8>, at: int, max: nat)
    requires
        0 <= at,
    ensures
        read_text(b, at, max) matches Ok((_, next)) ==> at <= next,
{
    lemma_text_read(b, at, max);
}

/// A field that stands at a position and is too long is refused with its length.
pub(crate) proof fn lemma_field_excess(b: Seq<u8>, at: int, raw: Seq<u8>, max: nat)
    requires
        b.len() <= usize::MAX,
        max < raw.len() < 0x1_0000_0000,
        stands_at(b, at, framed(raw)),
    ensures
        read_field(b, at, max) == Err::<(Seq<u8>, int), ErrorView>(
            ErrorView::Malformed(
                "field of "@ + decimal_digits(raw.len()) + " bytes exceeds "@ + decimal_digits(max),
            ),
        ),
{
    lemma_stands_split(b, at, be32(raw.len()), raw);
    lemma_read_u32(b, at, raw.len());
}

/// A text field whose bytes are not UTF-8 is refused for that, and one whose
/// bytes are is read as the text that they encode.
pub proof fn texts_are_utf8(b: Seq<u8>, at: int, raw: Seq<u8>, max: nat)
    requires
        0 <= at,
        at + 4 + raw.len() <= b.len() <= usize::MAX,
        raw.len() <= max,
        raw.len() < 0x1_0000_0000,
        b.subrange(at, at + 4) == be32(raw.len()),
        b.subrange(at + 4, at + 4 + raw.len()) == raw,
    ensures
        read_text(b, at, max) == if valid_utf8(raw) {
            Ok::<(Seq<char>, int), ErrorView>((decode_utf8(raw), at + 4 + raw.len()))
        } else {
            Err(ErrorView::Malformed("invalid utf-8"@))
        },
{
    lemma_stands_split(b, at, be32(raw.len()), raw);
    lemma_read_field(b, at, raw, max);
}

/// Bytes stand at a position where they are found one by one.
pub proof fn standing_is_being_found_there(b: Seq<u8>, at: int, part: Seq<u8>)
    ensures
        stands_at(b, at, part) <==> {
            &&& 0 <= at
            &&& at + part.len() <= b.len()
            &&& forall|i: int| 0 <= i < part.len() ==> b[at + i] == #[trigger] part[i]
        },
{
    if 0 <= at && at + part.len() <= b.len() {
        let found = b.subrange(at, at + part.len());
        if forall|i: int| 0 <= i < part.len() ==> b[at + i] == #[trigger] part[i] {
            assert(found =~= part);
        }
        if found == part {
            assert forall|i: int| 0 <= i < part.len() implies b[at + i] == #[trigger] part[i] by {
                assert(found[i] == b[at + i]);
            }
        }
    }
}

/// Bytes are read where they stand, as many as are asked for; where the message
/// ends before them, or no message could hold them, it is said which.
pub proof fn bytes_are_read_where_they_stand(b: Seq<u8>, at: int, n: int)
    requires
        0 <= at,
        0 <= n,
        b.len() <= usize::MAX,
    ensures
        at + n <= b.len() ==> read_raw(b, at, n) == Ok::<(Seq<u8>, int), ErrorView>(
            (b.subrange(at, at + n), at + n),
        ),
        b.len() < at + n <= usize::MAX ==> read_raw(b, at, n) == Err::<(Seq<u8>, int), ErrorView>(
            ErrorView::Malformed("unexpected end of message"@),
        ),
        at + n > usize::MAX ==> read_raw(b, at, n) == Err::<(Seq<u8>, int), ErrorView>(
            ErrorView::Malformed("length overflow"@),
        ),
        at + 4 <= b.len() ==> read_u32(b, at) == Ok::<(nat, int), ErrorView>(
            (be32_value(b.subrange(at, at + 4)), at + 4),
        ),
        b.len() < at + 4 <= usize::MAX ==> read_u32(b, at) == Err::<(nat, int), ErrorView>(
            ErrorView::Malformed("unexpected end of message"@),
        ),
{
}

/// A field is as long as the four bytes before it say. One that is longer than
/// `max` is refused with both lengths, before it is looked for.
pub proof fn fields_are_as_long_as_they_say(b: Seq<u8>, at: int, max: nat)
    requires
        0 <= at,
        at + 4 <= b.len() <= usize::MAX,
    ensures
        ({
            let n = be32_value(b.subrange(at, at + 4));
            let end = at + 4 + n;
            &&& n > max ==> read_field(b, at, max) == Err::<(Seq<u8>, int), ErrorView>(
                ErrorView::Malformed(
                    "field of "@ + decimal_digits(n) + " bytes exceeds "@ + decimal_digits(max),
                ),
            )
            &&& n <= max && end <= b.len() ==> read_field(b, at, max) == Ok::<
                (Seq<u8>, int),
                ErrorView,
            >((b.subrange(at + 4, end), end))
            &&& n <= max && b.len() < end <= usize::MAX ==> read_field(b, at, max) == Err::<
                (Seq<u8>, int),
                ErrorView,
            >(ErrorView::Malformed("unexpected end of message"@))
        }),
{
}

} // verus!
