//! Base58 and hexadecimal, the two ways a key is written as text.

use vstd::prelude::*;
use vstd::utf8::encode_utf8;
use crate::text::{ascii_lower, digit_char, digit_value};

verus! {

// ---------------------------------------------------------------------------
// Base58
// ---------------------------------------------------------------------------

/// The base58 digit for `d`: the digits, then the capital letters, then the
/// small letters, without `0`, `O`, `I` and `l`.
pub open spec fn base58_char(d: int) -> char {
    if d < 9 {
        ('1' as int + d) as char
    } else if d < 17 {
        ('A' as int + (d - 9)) as char
    } else if d < 22 {
        ('J' as int + (d - 17)) as char
    } else if d < 33 {
        ('P' as int + (d - 22)) as char
    } else if d < 44 {
        ('a' as int + (d - 33)) as char
    } else {
        ('m' as int + (d - 44)) as char
    }
}

/// What the base58 digit `c` stands for, or -1 where `c` is none.
pub open spec fn base58_digit(c: char) -> int {
    if '1' <= c && c <= '9' {
        c as int - '1' as int
    } else if 'A' <= c && c <= 'H' {
        c as int - 'A' as int + 9
    } else if 'J' <= c && c <= 'N' {
        c as int - 'J' as int + 17
    } else if 'P' <= c && c <= 'Z' {
        c as int - 'P' as int + 22
    } else if 'a' <= c && c <= 'k' {
        c as int - 'a' as int + 33
    } else if 'm' <= c && c <= 'z' {
        c as int - 'm' as int + 44
    } else {
        -1
    }
}

/// Whether `c` is a base58 digit.
pub open spec fn is_base58(c: char) -> bool {
    base58_digit(c) >= 0
}

/// The number that the base58 digits of `s` write, most significant first.
pub open spec fn base58_value(s: Seq<char>) -> nat
    decreases s.len(),
{
    if s.len() == 0 {
        0
    } else {
        (58 * base58_value(s.drop_last()) + base58_digit(s.last())) as nat
    }
}

/// The base58 numeral of `n`, without leading zeros; empty for zero.
pub open spec fn base58_numeral(n: nat) -> Seq<char>
    decreases n,
{
    if n == 0 {
        Seq::empty()
    } else {
        base58_numeral(n / 58).push(base58_char((n % 58) as int))
    }
}

/// The number that the bytes of `b` write, most significant first.
pub open spec fn byte_value(b: Seq<u8>) -> nat
    decreases b.len(),
{
    if b.len() == 0 {
        0
    } else {
        256 * byte_value(b.drop_last()) + b.last() as nat
    }
}

/// The bytes of `n`, most significant first, without leading zeros; empty for
/// zero.
pub open spec fn byte_numeral(n: nat) -> Seq<u8>
    decreases n,
{
    if n == 0 {
        Seq::empty()
    } else {
        byte_numeral(n / 256).push((n % 256) as u8)
    }
}

/// How many times `x` stands at the head of `s`.
pub open spec fn leading<A>(s: Seq<A>, x: A) -> nat
    decreases s.len(),
{
    if s.len() > 0 && s[0] == x {
        1 + leading(s.drop_first(), x)
    } else {
        0
    }
}

/// `x`, repeated `n` times.
pub open spec fn repeated<A>(x: A, n: nat) -> Seq<A> {
    Seq::new(n, |i: int| x)
}

/// `b` in base58: a `1` for each leading zero byte, then the number that the
/// bytes write.
pub open spec fn base58_encoded(b: Seq<u8>) -> Seq<char> {
    repeated('1', leading(b, 0u8)) + base58_numeral(byte_value(b))
}

/// The bytes that `s` writes in base58: a zero byte for each leading `1`, then
/// the bytes of the number. `None` where a character is no base58 digit.
pub open spec fn base58_decoded(s: Seq<char>) -> Option<Seq<u8>> {
    if forall|i: int| 0 <= i < s.len() ==> is_base58(#[trigger] s[i]) {
        Some(repeated(0u8, leading(s, '1')) + byte_numeral(base58_value(s)))
    } else {
        None
    }
}

/// What `bs58` says of a text that is not base58.
pub uninterp spec fn base58_error(s: Seq<char>) -> Seq<char>;

/// Calls `bs58::encode(..).into_string()`, which writes bytes in base58 with
/// the Bitcoin alphabet and without a checksum.
#[verifier::external_body]
pub(crate) fn base58_encode(data: &[u8]) -> (r: String)
    ensures
        r@ == base58_encoded(data@),
{
    bs58::encode(data).into_string()
}

/// Calls `bs58::decode(..).into_vec()`, which reads base58 in the Bitcoin
/// alphabet and without a checksum. It fails on exactly the texts that hold a
/// character outside the alphabet; the words of the error are a function of
/// the text.
#[verifier::external_body]
pub(crate) fn base58_decode(s: &str) -> (r: Result<Vec<u8>, String>)
    ensures
        match r {
            Ok(b) => base58_decoded(s@) == Some(b@),
            Err(e) => base58_decoded(s@) is None && e@ == base58_error(s@),
        },
{
    bs58::decode(s).into_vec().map_err(|e| e.to_string())
}

proof fn lemma_base58_char(d: int)
    requires
        0 <= d < 58,
    ensures
        base58_digit(base58_char(d)) == d,
        base58_char(d) == '1' <==> d == 0,
{
}

proof fn lemma_base58_digit(c: char)
    requires
        is_base58(c),
    ensures
        0 <= base58_digit(c) < 58,
        base58_char(base58_digit(c)) == c,
        base58_digit(c) == 0 <==> c == '1',
{
}

/// The numeral of `n` is made of digits, writes `n`, and does not begin with
/// the digit zero.
proof fn lemma_base58_numeral(n: nat)
    ensures
        forall|i: int|
            0 <= i < base58_numeral(n).len() ==> is_base58(#[trigger] base58_numeral(n)[i]),
        base58_value(base58_numeral(n)) == n,
        n > 0 ==> base58_numeral(n).len() > 0 && base58_numeral(n)[0] != '1',
    decreases n,
{
    if n > 0 {
        lemma_base58_numeral(n / 58);
        let d = (n % 58) as int;
        lemma_base58_char(d);
        let t = base58_numeral(n);
        assert(t.drop_last() =~= base58_numeral(n / 58));
        assert(t.last() == base58_char(d));
        if n < 58 {
            assert(base58_numeral(n / 58) =~= Seq::<char>::empty());
        }
    }
}

proof fn lemma_base58_value_padding(k: nat, t: Seq<char>)
    ensures
        base58_value(repeated('1', k) + t) == base58_value(t),
    decreases k + t.len(),
{
    let s = repeated('1', k) + t;
    if t.len() > 0 {
        lemma_base58_value_padding(k, t.drop_last());
        assert(s.drop_last() =~= repeated('1', k) + t.drop_last());
    } else if k > 0 {
        lemma_base58_value_padding((k - 1) as nat, t);
        assert(s.drop_last() =~= repeated('1', (k - 1) as nat) + t);
    }
}

proof fn lemma_leading_padding<A>(x: A, k: nat, t: Seq<A>)
    requires
        t.len() > 0 ==> t[0] != x,
    ensures
        leading(repeated(x, k) + t, x) == k,
    decreases k,
{
    let s = repeated(x, k) + t;
    if k > 0 {
        lemma_leading_padding(x, (k - 1) as nat, t);
        assert(s.drop_first() =~= repeated(x, (k - 1) as nat) + t);
    } else {
        assert(s =~= t);
    }
}

/// A sequence is its leading run of `x` followed by the rest, which does not
/// begin with `x`.
proof fn lemma_leading_split<A>(s: Seq<A>, x: A)
    ensures
        leading(s, x) <= s.len(),
        s == repeated(x, leading(s, x)) + s.skip(leading(s, x) as int),
        leading(s, x) < s.len() ==> s[leading(s, x) as int] != x,
    decreases s.len(),
{
    if s.len() > 0 && s[0] == x {
        let t = s.drop_first();
        lemma_leading_split(t, x);
        let k = leading(t, x);
        assert(s =~= repeated(x, k + 1) + s.skip(k as int + 1)) by {
            assert forall|i: int| 0 < i < k + 1 implies s[i] == x by {
                assert(s[i] == t[i - 1]);
                assert((repeated(x, k) + t.skip(k as int))[i - 1] == x);
            }
        }
    } else {
        assert(s =~= repeated(x, 0) + s.skip(0));
    }
}

proof fn lemma_byte_value_padding(k: nat, t: Seq<u8>)
    ensures
        byte_value(repeated(0u8, k) + t) == byte_value(t),
    decreases k + t.len(),
{
    let s = repeated(0u8, k) + t;
    if t.len() > 0 {
        lemma_byte_value_padding(k, t.drop_last());
        assert(s.drop_last() =~= repeated(0u8, k) + t.drop_last());
    } else if k > 0 {
        lemma_byte_value_padding((k - 1) as nat, t);
        assert(s.drop_last() =~= repeated(0u8, (k - 1) as nat) + t);
    }
}

/// Bytes that do not begin with zero are the bytes of the number they write.
proof fn lemma_byte_numeral_of_value(b: Seq<u8>)
    requires
        b.len() > 0 ==> b[0] != 0,
    ensures
        byte_numeral(byte_value(b)) == b,
        b.len() > 0 ==> byte_value(b) > 0,
    decreases b.len(),
{
    if b.len() > 0 {
        let h = b.drop_last();
        lemma_byte_numeral_of_value(h);
        let n = byte_value(b);
        assert(n == 256 * byte_value(h) + b.last());
        assert(n / 256 == byte_value(h));
        assert(n % 256 == b.last());
        if h.len() == 0 {
            assert(b[0] == b.last());
        }
        assert(b =~= h.push(b.last()));
    }
}

proof fn lemma_byte_numeral(n: nat)
    ensures
        byte_value(byte_numeral(n)) == n,
        n > 0 ==> byte_numeral(n).len() > 0 && byte_numeral(n)[0] != 0,
    decreases n,
{
    if n > 0 {
        lemma_byte_numeral(n / 256);
        let t = byte_numeral(n);
        assert(t.drop_last() =~= byte_numeral(n / 256));
        if n < 256 {
            assert(byte_numeral(n / 256) =~= Seq::<u8>::empty());
        }
    }
}

/// Digits that do not begin with zero are the numeral of the number they
/// write.
proof fn lemma_base58_numeral_of_value(s: Seq<char>)
    requires
        s.len() > 0 ==> s[0] != '1',
        forall|i: int| 0 <= i < s.len() ==> is_base58(#[trigger] s[i]),
    ensures
        base58_numeral(base58_value(s)) == s,
        s.len() > 0 ==> base58_value(s) > 0,
    decreases s.len(),
{
    if s.len() > 0 {
        let h = s.drop_last();
        lemma_base58_numeral_of_value(h);
        assert(is_base58(s[s.len() - 1]));
        lemma_base58_digit(s.last());
        let n = base58_value(s);
        let d = base58_digit(s.last());
        assert(n == 58 * base58_value(h) + d);
        assert(n / 58 == base58_value(h));
        assert(n % 58 == d);
        if h.len() == 0 {
            assert(s[0] == s.last());
        }
        assert(s =~= h.push(s.last()));
    }
}

/// Reading base58 gives back the bytes that were written.
pub proof fn base58_round_trip(b: Seq<u8>)
    ensures
        base58_decoded(base58_encoded(b)) == Some(b),
{
    let k = leading(b, 0u8);
    let t = base58_numeral(byte_value(b));
    let s = base58_encoded(b);
    lemma_leading_split(b, 0u8);
    let rest = b.skip(k as int);
    lemma_byte_value_padding(k, rest);
    lemma_byte_numeral_of_value(rest);
    lemma_base58_numeral(byte_value(b));
    lemma_base58_value_padding(k, t);
    lemma_leading_padding('1', k, t);
    assert forall|i: int| 0 <= i < s.len() implies is_base58(#[trigger] s[i]) by {
        if i < k {
            assert(s[i] == '1');
        } else {
            assert(s[i] == t[i - k]);
        }
    }
    assert(base58_decoded(s) == Some(repeated(0u8, k) + byte_numeral(base58_value(s))));
}

/// A base58 text is the only one that writes its bytes: writing what was read
/// gives back the text.
pub proof fn base58_is_canonical(s: Seq<char>)
    ensures
        base58_decoded(s) matches Some(b) ==> base58_encoded(b) == s,
{
    if base58_decoded(s) is Some {
        let b = base58_decoded(s).unwrap();
        let k = leading(s, '1');
        lemma_leading_split(s, '1');
        let rest = s.skip(k as int);
        assert forall|i: int| 0 <= i < rest.len() implies is_base58(#[trigger] rest[i]) by {
            assert(is_base58(s[i + k]));
        }
        lemma_base58_value_padding(k, rest);
        lemma_base58_numeral_of_value(rest);
        let t = byte_numeral(base58_value(s));
        lemma_byte_numeral(base58_value(s));
        lemma_byte_value_padding(k, t);
        lemma_leading_padding(0u8, k, t);
    }
}

/// Base58 text holds base58 digits only.
pub(crate) proof fn lemma_base58_encoded_digits(b: Seq<u8>)
    ensures
        forall|i: int|
            0 <= i < base58_encoded(b).len() ==> is_base58(#[trigger] base58_encoded(b)[i]),
{
    base58_round_trip(b);
}

proof fn lemma_bytes_grow(m: nat, n: nat)
    requires
        m <= n,
    ensures
        byte_numeral(m).len() <= byte_numeral(n).len(),
    decreases n,
{
    if m > 0 {
        lemma_bytes_grow(m / 256, n / 256);
    }
}

/// Digits write no more bytes than there are digits, 256 being more than 58.
proof fn lemma_digits_bytes(s: Seq<char>)
    requires
        forall|i: int| 0 <= i < s.len() ==> is_base58(#[trigger] s[i]),
    ensures
        byte_numeral(base58_value(s)).len() <= s.len(),
    decreases s.len(),
{
    if s.len() > 0 {
        let h = s.drop_last();
        assert forall|i: int| 0 <= i < h.len() implies is_base58(#[trigger] h[i]) by {
            assert(h[i] == s[i]);
        }
        lemma_digits_bytes(h);
        assert(is_base58(s[s.len() - 1]));
        lemma_base58_digit(s.last());
        let v = base58_value(h);
        let n = base58_value(s);
        assert(n / 256 <= v);
        lemma_bytes_grow(n / 256, v);
    }
}

/// Base58 text has at least as many characters as it writes bytes.
pub proof fn base58_is_not_shorter(b: Seq<u8>)
    ensures
        b.len() <= base58_encoded(b).len(),
{
    let s = base58_encoded(b);
    base58_round_trip(b);
    let k = leading(s, '1');
    lemma_leading_split(s, '1');
    let rest = s.skip(k as int);
    assert forall|i: int| 0 <= i < rest.len() implies is_base58(#[trigger] rest[i]) by {
        assert(is_base58(s[i + k]));
    }
    lemma_base58_value_padding(k, rest);
    lemma_digits_bytes(rest);
}

/// A greater number has no shorter numeral.
proof fn lemma_numeral_grows(m: nat, n: nat)
    requires
        m <= n,
    ensures
        base58_numeral(m).len() <= base58_numeral(n).len(),
    decreases n,
{
    if m > 0 {
        lemma_numeral_grows(m / 58, n / 58);
    }
}

/// Two more bytes take at most three more digits, 58 * 58 * 58 being more than
/// 256 * 256.
proof fn lemma_numeral_two_bytes(v: nat, n: nat)
    requires
        n < 65536 * (v + 1),
    ensures
        base58_numeral(n).len() <= base58_numeral(v).len() + 3,
{
    let a = n / 58;
    let b = a / 58;
    let c = b / 58;
    assert(c <= v);
    lemma_numeral_grows(c, v);
    assert(base58_numeral(n).len() <= base58_numeral(a).len() + 1);
    assert(base58_numeral(a).len() <= base58_numeral(b).len() + 1);
    assert(base58_numeral(b).len() <= base58_numeral(c).len() + 1);
}

proof fn lemma_value_digits(b: Seq<u8>)
    ensures
        base58_numeral(byte_value(b)).len() <= 3 * ((b.len() + 1) / 2),
    decreases b.len(),
{
    if b.len() == 1 {
        let n = byte_value(b);
        assert(byte_value(b.drop_last()) == 0);
        lemma_numeral_two_bytes(0, n);
    } else if b.len() >= 2 {
        let h = b.drop_last();
        let g = h.drop_last();
        lemma_value_digits(g);
        assert(byte_value(h) == 256 * byte_value(g) + h.last() as nat);
        assert(byte_value(b) == 256 * byte_value(h) + b.last() as nat);
        lemma_numeral_two_bytes(byte_value(g), byte_value(b));
    }
}

/// How long base58 text can be: three digits for two bytes, the leading zero
/// bytes aside, which take one each.
pub(crate) proof fn lemma_base58_length(b: Seq<u8>)
    ensures
        leading(b, 0u8) <= b.len(),
        base58_encoded(b).len() <= leading(b, 0u8) + 3 * ((b.len() - leading(b, 0u8) + 1) / 2),
{
    let k = leading(b, 0u8);
    lemma_leading_split(b, 0u8);
    let rest = b.skip(k as int);
    lemma_byte_value_padding(k, rest);
    lemma_value_digits(rest);
}

// ---------------------------------------------------------------------------
// Hexadecimal
// ---------------------------------------------------------------------------

/// What the hexadecimal digit `c` stands for, in either case, or -1 where `c`
/// is none.
pub open spec fn hex_digit(c: char) -> int {
    if '0' <= c && c <= '9' {
        c as int - '0' as int
    } else if 'a' <= c && c <= 'f' {
        c as int - 'a' as int + 10
    } else if 'A' <= c && c <= 'F' {
        c as int - 'A' as int + 10
    } else {
        -1
    }
}

/// Whether every character of `s` is a hexadecimal digit.
pub open spec fn all_hex(s: Seq<char>) -> bool {
    forall|i: int| 0 <= i < s.len() ==> hex_digit(#[trigger] s[i]) >= 0
}

/// `b` in hexadecimal: two lowercase digits for each byte.
pub open spec fn hex_encoded(b: Seq<u8>) -> Seq<char> {
    Seq::new(
        2 * b.len(),
        |i: int|
            if i % 2 == 0 {
                digit_char(b[i / 2] as int / 16)
            } else {
                digit_char(b[i / 2] as int % 16)
            },
    )
}

/// The bytes that `s` writes in hexadecimal, two digits each. `None` where `s`
/// has an odd length or another character.
pub open spec fn hex_decoded(s: Seq<char>) -> Option<Seq<u8>> {
    if s.len() % 2 == 0 && all_hex(s) {
        Some(
            Seq::new(
                s.len() / 2,
                |i: int| (16 * hex_digit(s[2 * i]) + hex_digit(s[2 * i + 1])) as u8,
            ),
        )
    } else {
        None
    }
}

/// What `hex` says of a text with a character that is no hexadecimal digit.
pub uninterp spec fn hex_character_error(s: Seq<char>) -> Seq<char>;

/// What `hex` says of a text that is not hexadecimal. The length counts bytes.
pub open spec fn hex_error(s: Seq<char>) -> Seq<char> {
    if encode_utf8(s).len() % 2 != 0 {
        "Odd number of digits"@
    } else {
        hex_character_error(s)
    }
}

/// Calls `hex::encode`, which writes each byte as two lowercase digits.
#[verifier::external_body]
pub(crate) fn hex_encode(data: &[u8]) -> (r: String)
    ensures
        r@ == hex_encoded(data@),
{
    hex::encode(data)
}

/// Calls `hex::decode`, which takes digits of either case. It fails on exactly
/// the texts of odd length and those with another character. Where the number
/// of bytes is odd it says so; else the words are a function of the text.
#[verifier::external_body]
pub(crate) fn hex_decode(s: &str) -> (r: Result<Vec<u8>, String>)
    ensures
        match r {
            Ok(b) => hex_decoded(s@) == Some(b@),
            Err(e) => hex_decoded(s@) is None && e@ == (if encode_utf8(s@).len() % 2 != 0 {
                "Odd number of digits"@
            } else {
                hex_character_error(s@)
            }),
        },
{
    hex::decode(s).map_err(|e| e.to_string())
}

proof fn lemma_hex_digit_char(d: int)
    requires
        0 <= d < 16,
    ensures
        hex_digit(digit_char(d)) == d,
{
    reveal_strlit("0123456789abcdef");
}

/// Reading hexadecimal gives back the bytes that were written.
pub proof fn hex_round_trip(b: Seq<u8>)
    ensures
        hex_decoded(hex_encoded(b)) == Some(b),
{
    let s = hex_encoded(b);
    assert forall|i: int| 0 <= i < s.len() implies hex_digit(#[trigger] s[i]) >= 0 by {
        lemma_hex_digit_char(b[i / 2] as int / 16);
        lemma_hex_digit_char(b[i / 2] as int % 16);
    }
    assert(hex_decoded(s).unwrap() =~= b) by {
        assert forall|i: int| 0 <= i < b.len() implies #[trigger] hex_decoded(s).unwrap()[i]
            == b[i] by {
            lemma_hex_digit_char(b[i] as int / 16);
            lemma_hex_digit_char(b[i] as int % 16);
            assert(s[2 * i] == digit_char(b[i] as int / 16));
            assert(s[2 * i + 1] == digit_char(b[i] as int % 16));
        }
    }
}

/// The base58 alphabet, in the order of its digits.
pub proof fn base58_alphabet(d: int)
    requires
        0 <= d < 58,
    ensures
        base58_char(d) == "123456789ABCDEFGHJKLMNPQRSTUVWXYZabcdefghijkmnopqrstuvwxyz"@[d],
        base58_digit("123456789ABCDEFGHJKLMNPQRSTUVWXYZabcdefghijkmnopqrstuvwxyz"@[d]) == d,
{
    reveal_strlit("123456789ABCDEFGHJKLMNPQRSTUVWXYZabcdefghijkmnopqrstuvwxyz");
}

/// Hexadecimal text is read two digits a byte, the first worth sixteen times the
/// second, and capital digits as small ones. All other text is refused.
pub proof fn hex_is_read_two_digits_a_byte(s: Seq<char>)
    ensures
        hex_decoded(s) is Some <==> s.len() % 2 == 0 && forall|i: int|
            0 <= i < s.len() ==> digit_value(ascii_lower(#[trigger] s[i])) >= 0,
        hex_decoded(s) matches Some(b) ==> b.len() == s.len() / 2 && forall|i: int|
            0 <= i < b.len() ==> #[trigger] b[i] == 16 * digit_value(ascii_lower(s[2 * i]))
                + digit_value(ascii_lower(s[2 * i + 1])),
        all_hex(s) <==> forall|i: int|
            0 <= i < s.len() ==> digit_value(ascii_lower(#[trigger] s[i])) >= 0,
{
    assert forall|i: int| 0 <= i < s.len() implies hex_digit(#[trigger] s[i]) == digit_value(
        ascii_lower(s[i]),
    ) by {
        lemma_hex_digit_cases(s[i]);
    }
    if let Some(b) = hex_decoded(s) {
        assert forall|i: int| 0 <= i < b.len() implies #[trigger] b[i] == 16 * digit_value(
            ascii_lower(s[2 * i]),
        ) + digit_value(ascii_lower(s[2 * i + 1])) by {
            assert(hex_digit(s[2 * i]) >= 0);
            assert(hex_digit(s[2 * i + 1]) >= 0);
        }
    }
}

proof fn lemma_hex_digit_cases(c: char)
    ensures
        hex_digit(c) == digit_value(ascii_lower(c)),
{
}

/// Hexadecimal text is written two digits a byte, the first worth sixteen times
/// the second, in small letters.
pub proof fn hex_is_written_two_digits_a_byte(b: Seq<u8>, i: int)
    requires
        0 <= i < b.len(),
    ensures
        hex_encoded(b).len() == 2 * b.len(),
        b[i] == 16 * digit_value(hex_encoded(b)[2 * i]) + digit_value(hex_encoded(b)[2 * i + 1]),
        0 <= digit_value(hex_encoded(b)[2 * i]) < 16,
        0 <= digit_value(hex_encoded(b)[2 * i + 1]) < 16,
{
    reveal_strlit("0123456789abcdef");
}

/// Of a text that is not hexadecimal, an odd number of bytes is what is said
/// first; else the words are those about a character.
pub proof fn odd_texts_are_told_first(s: Seq<char>)
    ensures
        encode_utf8(s).len() % 2 == 1 ==> hex_error(s) == "Odd number of digits"@,
        encode_utf8(s).len() % 2 == 0 ==> hex_error(s) == hex_character_error(s),
{
}

} // verus!
