//! Text: numbers written out, trimming, lines and searching.
//!
//! Every function here is stated over the characters of its argument, so that
//! the messages and files built from them can be stated exactly.

use vstd::prelude::*;

verus! {

/// The lowercase digit for `d`, up to base sixteen.
pub open spec fn digit_char(d: int) -> char {
    "0123456789abcdef"@[d]
}

/// The decimal numeral of `n`, without leading zeros.
pub open spec fn decimal_digits(n: nat) -> Seq<char>
    decreases n,
{
    if n < 10 {
        seq![digit_char(n as int)]
    } else {
        decimal_digits(n / 10).push(digit_char((n % 10) as int))
    }
}

/// The lowercase hexadecimal numeral of `n`, without leading zeros.
pub open spec fn hex_digits(n: nat) -> Seq<char>
    decreases n,
{
    if n < 16 {
        seq![digit_char(n as int)]
    } else {
        hex_digits(n / 16).push(digit_char((n % 16) as int))
    }
}

/// Appends the digit for `d`.
pub(crate) fn push_digit(s: &mut String, d: usize)
    requires
        d < 16,
    ensures
        final(s)@ == old(s)@.push(digit_char(d as int)),
{
    proof {
        reveal_strlit("0123456789abcdef");
    }
    s.append("0123456789abcdef".substring_char(d, d + 1));
    assert(s@ =~= old(s)@.push(digit_char(d as int)));
}

/// Writes `n` in decimal.
pub fn decimal(n: u64) -> (r: String)
    ensures
        r@ == decimal_digits(n as nat),
    decreases n,
{
    let mut s = if n < 10 {
        String::new()
    } else {
        decimal(n / 10)
    };
    push_digit(&mut s, (n % 10) as usize);
    s
}

/// Writes `n` in lowercase hexadecimal.
pub fn hexadecimal(n: u64) -> (r: String)
    ensures
        r@ == hex_digits(n as nat),
    decreases n,
{
    let mut s = if n < 16 {
        String::new()
    } else {
        hexadecimal(n / 16)
    };
    push_digit(&mut s, (n % 16) as usize);
    s
}

/// `a` followed by `b`.
pub(crate) fn joined(a: &str, b: &str) -> (r: String)
    ensures
        r@ == a@ + b@,
{
    let mut out = a.to_string();
    out.append(b);
    out
}

/// The characters of `s`, in order.
pub(crate) fn chars_of(s: &str) -> (r: Vec<char>)
    ensures
        r@ == s@,
{
    let mut v: Vec<char> = Vec::new();
    for c in it: s.chars()
        invariant
            v@ == s@.take(it.index() as int),
            it.seq() == s@,
    {
        v.push(c);
    }
    assert(s@.take(s@.len() as int) =~= s@);
    v
}

/// Whether `c` has the Unicode property `White_Space`.
pub open spec fn is_white(c: char) -> bool {
    let u = c as u32;
    ||| 0x9 <= u <= 0xd
    ||| u == 0x20
    ||| u == 0x85
    ||| u == 0xa0
    ||| u == 0x1680
    ||| 0x2000 <= u <= 0x200a
    ||| u == 0x2028
    ||| u == 0x2029
    ||| u == 0x202f
    ||| u == 0x205f
    ||| u == 0x3000
}

/// Tests for [`is_white`].
pub(crate) fn white(c: char) -> (r: bool)
    ensures
        r == is_white(c),
{
    let u = c as u32;
    (0x9 <= u && u <= 0xd) || u == 0x20 || u == 0x85 || u == 0xa0 || u == 0x1680 || (0x2000 <= u
        && u <= 0x200a) || u == 0x2028 || u == 0x2029 || u == 0x202f || u == 0x205f || u == 0x3000
}

/// `s` without its leading white space.
pub open spec fn trimmed_start(s: Seq<char>) -> Seq<char>
    decreases s.len(),
{
    if s.len() > 0 && is_white(s[0]) {
        trimmed_start(s.drop_first())
    } else {
        s
    }
}

/// `s` without its trailing white space.
pub open spec fn trimmed_end(s: Seq<char>) -> Seq<char>
    decreases s.len(),
{
    if s.len() > 0 && is_white(s.last()) {
        trimmed_end(s.drop_last())
    } else {
        s
    }
}

/// `s` without white space at either end.
pub open spec fn trimmed(s: Seq<char>) -> Seq<char> {
    trimmed_end(trimmed_start(s))
}

/// Removes white space at both ends.
pub fn trim(s: &str) -> (r: &str)
    ensures
        r@ == trimmed(s@),
{
    let cs = chars_of(s);
    let n: usize = cs.len();
    let mut from: usize = 0;
    assert(s@.skip(0) =~= s@);
    while from < n && white(cs[from])
        invariant
            cs@ == s@,
            n == cs@.len(),
            from <= n,
            trimmed_start(s@) == trimmed_start(s@.skip(from as int)),
        decreases n - from,
    {
        assert(s@.skip(from as int).drop_first() =~= s@.skip(from + 1));
        from += 1;
    }
    assert(trimmed_start(s@) == s@.skip(from as int));
    let mut to: usize = n;
    let ghost rest = s@.skip(from as int);
    assert(rest.take(to - from) =~= rest);
    while to > from && white(cs[to - 1])
        invariant
            cs@ == s@,
            n == cs@.len(),
            from <= to <= n,
            rest == s@.skip(from as int),
            trimmed_end(rest) == trimmed_end(rest.take(to - from)),
        decreases to,
    {
        assert(rest.take(to - from).drop_last() =~= rest.take(to - 1 - from));
        to -= 1;
    }
    assert(rest.take(to - from) =~= s@.subrange(from as int, to as int));
    s.substring_char(from, to)
}

/// How many characters stand before the first newline of `s`, or the length of
/// `s` where it has none.
pub open spec fn line_length(s: Seq<char>) -> nat
    decreases s.len(),
{
    if s.len() == 0 || s[0] == '\n' {
        0
    } else {
        1 + line_length(s.drop_first())
    }
}

/// The lines of `s`: what newlines end or separate. A carriage return before a
/// newline stays in its line.
pub open spec fn line_seq(s: Seq<char>) -> Seq<Seq<char>>
    decreases s.len(),
{
    if s.len() == 0 {
        Seq::empty()
    } else if line_length(s) >= s.len() {
        seq![s]
    } else {
        seq![s.take(line_length(s) as int)] + line_seq(s.skip(line_length(s) as int + 1))
    }
}

/// A run without newlines, then a newline, is the first line.
pub(crate) proof fn lemma_line_length(run: Seq<char>, rest: Seq<char>)
    requires
        !run.contains('\n'),
    ensures
        line_length(run + seq!['\n'] + rest) == run.len(),
    decreases run.len(),
{
    let s = run + seq!['\n'] + rest;
    if run.len() == 0 {
        assert(s[0] == '\n');
    } else {
        assert(run.contains(run[0]));
        assert(!run.drop_first().contains('\n')) by {
            if run.drop_first().contains('\n') {
                let i = choose|i: int|
                    0 <= i < run.drop_first().len() && run.drop_first()[i] == '\n';
                assert(run[i + 1] == '\n');
            }
        }
        lemma_line_length(run.drop_first(), rest);
        assert(s.drop_first() =~= run.drop_first() + seq!['\n'] + rest);
    }
}

/// Text of the form "run, newline, rest" has `run` as its first line and the
/// lines of `rest` after it.
pub(crate) proof fn lemma_first_line(run: Seq<char>, rest: Seq<char>)
    requires
        !run.contains('\n'),
    ensures
        line_seq(run + seq!['\n'] + rest) == seq![run] + line_seq(rest),
{
    let s = run + seq!['\n'] + rest;
    lemma_line_length(run, rest);
    assert(s.take(run.len() as int) =~= run);
    assert(s.skip(run.len() as int + 1) =~= rest);
}

/// Text without white space is its own trimming.
pub(crate) proof fn lemma_trimmed_solid(s: Seq<char>)
    requires
        forall|i: int| 0 <= i < s.len() ==> !is_white(#[trigger] s[i]),
    ensures
        trimmed(s) == s,
{
}

/// Whether `s` is white space only.
pub open spec fn all_white(s: Seq<char>) -> bool {
    forall|i: int| 0 <= i < s.len() ==> is_white(#[trigger] s[i])
}

proof fn lemma_white_before(w: Seq<char>, s: Seq<char>)
    requires
        all_white(w),
    ensures
        trimmed_start(w + s) == trimmed_start(s),
    decreases w.len(),
{
    if w.len() > 0 {
        let rest = w.drop_first();
        assert(is_white(w[0]));
        assert forall|i: int| 0 <= i < rest.len() implies is_white(#[trigger] rest[i]) by {
            assert(rest[i] == w[i + 1]);
        }
        assert((w + s).drop_first() =~= rest + s);
        lemma_white_before(rest, s);
    } else {
        assert(w + s =~= s);
    }
}

proof fn lemma_white_after(s: Seq<char>, w: Seq<char>)
    requires
        all_white(w),
    ensures
        trimmed_end(s + w) == trimmed_end(s),
    decreases w.len(),
{
    if w.len() > 0 {
        let rest = w.drop_last();
        assert(is_white(w[w.len() - 1]));
        assert forall|i: int| 0 <= i < rest.len() implies is_white(#[trigger] rest[i]) by {
            assert(rest[i] == w[i]);
        }
        assert((s + w).drop_last() =~= s + rest);
        lemma_white_after(s, rest);
    } else {
        assert(s + w =~= s);
    }
}

/// White space around a text does not matter to its trimming.
pub proof fn trimming_ignores_white_space_around(before: Seq<char>, s: Seq<char>, after: Seq<char>)
    requires
        all_white(before),
        all_white(after),
    ensures
        trimmed(before + s + after) == trimmed(s),
    decreases s.len(),
{
    assert(before + s + after =~= before + (s + after));
    lemma_white_before(before, s + after);
    if s.len() > 0 && is_white(s[0]) {
        let none = Seq::<char>::empty();
        trimming_ignores_white_space_around(none, s.drop_first(), after);
        assert((s + after).drop_first() =~= none + s.drop_first() + after);
    } else if s.len() > 0 {
        lemma_white_after(s, after);
    } else {
        lemma_white_before(after, s);
        assert(s + after =~= after + s);
    }
}

/// Splits `s` into its lines.
pub fn lines(s: &str) -> (r: Vec<String>)
    ensures
        r@.len() == line_seq(s@).len(),
        forall|i: int| 0 <= i < r@.len() ==> #[trigger] r@[i]@ == line_seq(s@)[i],
{
    let cs = chars_of(s);
    let n: usize = cs.len();
    let mut out: Vec<String> = Vec::new();
    let mut pos: usize = 0;
    assert(s@.skip(0) =~= s@);
    while pos < n
        invariant
            cs@ == s@,
            n == cs@.len(),
            pos <= n,
            out@.len() + line_seq(s@.skip(pos as int)).len() == line_seq(s@).len(),
            forall|i: int| 0 <= i < out@.len() ==> #[trigger] out@[i]@ == line_seq(s@)[i],
            forall|i: int|
                0 <= i < line_seq(s@.skip(pos as int)).len() ==> #[trigger] line_seq(
                    s@.skip(pos as int),
                )[i] == line_seq(s@)[out@.len() + i],
        decreases n - pos,
    {
        let ghost rest = s@.skip(pos as int);
        let ghost before = out@.len();
        let mut end: usize = pos;
        assert(s@.skip(end as int) =~= rest);
        while end < n && cs[end] != '\n'
            invariant
                cs@ == s@,
                n == cs@.len(),
                pos <= end <= n,
                rest == s@.skip(pos as int),
                line_length(rest) == end - pos + line_length(s@.skip(end as int)),
            decreases n - end,
        {
            assert(s@.skip(end as int).drop_first() =~= s@.skip(end + 1));
            end += 1;
        }
        assert(line_length(rest) == end - pos);
        out.push(s.substring_char(pos, end).to_string());
        proof {
            assert(s@.subrange(pos as int, end as int) =~= rest.take(end - pos));
            assert(line_seq(rest)[0] == rest.take(end - pos)) by {
                assert(rest.take(rest.len() as int) =~= rest);
            }
            if end < n {
                assert(rest.skip(end - pos + 1) =~= s@.skip(end + 1));
                assert forall|i: int|
                    0 <= i < line_seq(s@.skip(end + 1)).len() implies #[trigger] line_seq(
                    s@.skip(end + 1),
                )[i] == line_seq(s@)[before + 1 + i] by {
                    assert(line_seq(rest)[i + 1] == line_seq(s@.skip(end + 1))[i]);
                }
            } else {
                assert(s@.skip(n as int) =~= Seq::<char>::empty());
            }
        }
        if end == n {
            pos = n;
        } else {
            pos = end + 1;
        }
    }
    assert(s@.skip(pos as int) =~= Seq::<char>::empty());
    out
}

/// Whether `part` occurs in `whole`.
pub open spec fn occurs(part: Seq<char>, whole: Seq<char>) -> bool {
    exists|i: int| #[trigger] occurs_at(part, whole, i)
}

/// Whether `part` occurs in `whole` at position `i`.
pub open spec fn occurs_at(part: Seq<char>, whole: Seq<char>, i: int) -> bool {
    0 <= i && i + part.len() <= whole.len() && whole.subrange(i, i + part.len()) == part
}

/// Tests whether `part` occurs in `whole`.
pub(crate) fn contains(whole: &Vec<char>, part: &str) -> (r: bool)
    ensures
        r == occurs(part@, whole@),
{
    let p = chars_of(part);
    let n: usize = whole.len();
    let m: usize = p.len();
    if m > n {
        return false;
    }
    let mut i: usize = 0;
    while i <= n - m
        invariant
            n == whole@.len(),
            m == p@.len(),
            m <= n,
            p@ == part@,
            i <= n - m + 1,
            forall|k: int| 0 <= k < i ==> !#[trigger] occurs_at(part@, whole@, k),
        decreases n - m + 1 - i,
    {
        let mut j: usize = 0;
        while j < m && whole[i + j] == p[j]
            invariant
                n == whole@.len(),
                m == p@.len(),
                i + m <= n,
                j <= m,
                forall|k: int| 0 <= k < j ==> whole@[i + k] == p@[k],
            decreases m - j,
        {
            j += 1;
        }
        if j == m {
            assert(whole@.subrange(i as int, i + m) =~= p@);
            assert(occurs_at(part@, whole@, i as int));
            return true;
        }
        assert(!occurs_at(part@, whole@, i as int)) by {
            if occurs_at(part@, whole@, i as int) {
                assert(whole@.subrange(i as int, i + m)[j as int] == part@[j as int]);
            }
        }
        if i == n - m {
            return false;
        }
        i += 1;
    }
    false
}

/// `c` with `A` to `Z` mapped to `a` to `z`.
pub open spec fn ascii_lower(c: char) -> char {
    if 'A' <= c && c <= 'Z' {
        (c as u8 + 32) as char
    } else {
        c
    }
}

/// The characters of `s` with `A` to `Z` mapped to `a` to `z`.
pub(crate) fn lowered(s: &str) -> (r: Vec<char>)
    ensures
        r@ == s@.map_values(|c: char| ascii_lower(c)),
{
    let cs = chars_of(s);
    let mut v: Vec<char> = Vec::new();
    let mut i: usize = 0;
    while i < cs.len()
        invariant
            cs@ == s@,
            i <= cs@.len(),
            v@ == s@.take(i as int).map_values(|c: char| ascii_lower(c)),
        decreases cs@.len() - i,
    {
        let c = cs[i];
        let l = if 'A' <= c && c <= 'Z' {
            (c as u8 + 32) as char
        } else {
            c
        };
        v.push(l);
        i += 1;
        assert(v@ =~= s@.take(i as int).map_values(|c: char| ascii_lower(c)));
    }
    assert(s@.take(i as int) =~= s@);
    v
}

// ---------------------------------------------------------------------------
// Laws
// ---------------------------------------------------------------------------

/// What a digit stands for, up to base sixteen.
pub open spec fn digit_value(c: char) -> int {
    if '0' <= c && c <= '9' {
        c as int - '0' as int
    } else if 'a' <= c && c <= 'f' {
        c as int - 'a' as int + 10
    } else {
        -1
    }
}

/// The number that a numeral writes, most significant digit first.
pub open spec fn numeral_value(s: Seq<char>, base: int) -> int
    decreases s.len(),
{
    if s.len() == 0 {
        0
    } else {
        base * numeral_value(s.drop_last(), base) + digit_value(s.last())
    }
}

proof fn lemma_digit_char(d: int)
    requires
        0 <= d < 16,
    ensures
        digit_value(digit_char(d)) == d,
        digit_char(d) == '0' <==> d == 0,
        d < 10 ==> '0' <= digit_char(d) <= '9',
{
    reveal_strlit("0123456789abcdef");
}

/// A decimal numeral writes its number, with decimal digits only and without a
/// leading zero.
pub proof fn decimal_writes_the_number(n: nat)
    ensures
        numeral_value(decimal_digits(n), 10) == n,
        decimal_digits(n).len() > 0,
        forall|i: int|
            0 <= i < decimal_digits(n).len() ==> '0' <= #[trigger] decimal_digits(n)[i] <= '9',
        decimal_digits(n)[0] == '0' ==> n == 0 && decimal_digits(n).len() == 1,
    decreases n,
{
    let s = decimal_digits(n);
    lemma_digit_char((n % 10) as int);
    if n < 10 {
        assert(s.drop_last() =~= Seq::<char>::empty());
    } else {
        decimal_writes_the_number(n / 10);
        assert(s.drop_last() =~= decimal_digits(n / 10));
        assert(s[0] == decimal_digits(n / 10)[0]);
    }
    assert(s.last() == digit_char((n % 10) as int));
    let head = numeral_value(s.drop_last(), 10);
    assert(head == n / 10);
    assert(numeral_value(s, 10) == 10 * head + digit_value(s.last())) by (nonlinear_arith)
        requires
            s.len() > 0,
            head == numeral_value(s.drop_last(), 10),
    ;
}

/// A hexadecimal numeral writes its number, without a leading zero.
pub proof fn hexadecimal_writes_the_number(n: nat)
    ensures
        numeral_value(hex_digits(n), 16) == n,
        hex_digits(n).len() > 0,
        forall|i: int|
            0 <= i < hex_digits(n).len() ==> digit_value(#[trigger] hex_digits(n)[i]) >= 0,
        hex_digits(n)[0] == '0' ==> n == 0 && hex_digits(n).len() == 1,
    decreases n,
{
    let s = hex_digits(n);
    lemma_digit_char((n % 16) as int);
    if n < 16 {
        assert(s.drop_last() =~= Seq::<char>::empty());
    } else {
        hexadecimal_writes_the_number(n / 16);
        assert(s.drop_last() =~= hex_digits(n / 16));
        assert(s[0] == hex_digits(n / 16)[0]);
    }
    assert(s.last() == digit_char((n % 16) as int));
    let head = numeral_value(s.drop_last(), 16);
    assert(head == n / 16);
    assert(numeral_value(s, 16) == 16 * head + digit_value(s.last())) by (nonlinear_arith)
        requires
            s.len() > 0,
            head == numeral_value(s.drop_last(), 16),
    ;
}

/// The white characters, one by one.
pub proof fn white_characters(c: char)
    ensures
        is_white(c) <==> {
            ||| c == '\t'
            ||| c == '\n'
            ||| c == '\u{b}'
            ||| c == '\u{c}'
            ||| c == '\r'
            ||| c == ' '
            ||| c == '\u{85}'
            ||| c == '\u{a0}'
            ||| c == '\u{1680}'
            ||| '\u{2000}' <= c && c <= '\u{200a}'
            ||| c == '\u{2028}'
            ||| c == '\u{2029}'
            ||| c == '\u{202f}'
            ||| c == '\u{205f}'
            ||| c == '\u{3000}'
        },
{
}

proof fn lemma_trim_start(s: Seq<char>) -> (i: int)
    ensures
        0 <= i <= s.len(),
        trimmed_start(s) == s.skip(i),
        forall|k: int| 0 <= k < i ==> is_white(#[trigger] s[k]),
        i < s.len() ==> !is_white(s[i]),
    decreases s.len(),
{
    if s.len() > 0 && is_white(s[0]) {
        let rest = s.drop_first();
        let i = lemma_trim_start(rest);
        assert(rest.skip(i) =~= s.skip(i + 1));
        assert forall|k: int| 0 <= k < i + 1 implies is_white(#[trigger] s[k]) by {
            if k > 0 {
                assert(rest[k - 1] == s[k]);
            }
        }
        i + 1
    } else {
        assert(s.skip(0) =~= s);
        0
    }
}

proof fn lemma_trim_end(s: Seq<char>) -> (j: int)
    ensures
        0 <= j <= s.len(),
        trimmed_end(s) == s.take(j),
        forall|k: int| j <= k < s.len() ==> is_white(#[trigger] s[k]),
        j > 0 ==> !is_white(s[j - 1]),
    decreases s.len(),
{
    if s.len() > 0 && is_white(s.last()) {
        let rest = s.drop_last();
        let j = lemma_trim_end(rest);
        assert(rest.take(j) =~= s.take(j));
        assert forall|k: int| j <= k < s.len() implies is_white(#[trigger] s[k]) by {
            if k < s.len() - 1 {
                assert(rest[k] == s[k]);
            }
        }
        if j > 0 {
            assert(rest[j - 1] == s[j - 1]);
        }
        j
    } else {
        assert(s.take(s.len() as int) =~= s);
        s.len() as int
    }
}

/// Trimming cuts a text out of its middle: what it leaves away at either end is
/// white, and what it keeps neither begins nor ends with white.
pub proof fn trimming_removes_white_ends_only(s: Seq<char>)
    ensures
        exists|i: int, j: int|
            {
                &&& 0 <= i <= j <= s.len()
                &&& trimmed(s) == #[trigger] s.subrange(i, j)
                &&& forall|k: int| 0 <= k < i ==> is_white(#[trigger] s[k])
                &&& forall|k: int| j <= k < s.len() ==> is_white(#[trigger] s[k])
            },
        trimmed(s).len() > 0 ==> !is_white(trimmed(s)[0]) && !is_white(trimmed(s).last()),
{
    let i = lemma_trim_start(s);
    let rest = s.skip(i);
    let j = lemma_trim_end(rest);
    assert(rest.take(j) =~= s.subrange(i, i + j));
    assert forall|k: int| i + j <= k < s.len() implies is_white(#[trigger] s[k]) by {
        assert(rest[k - i] == s[k]);
    }
    let t = trimmed(s);
    if t.len() > 0 {
        assert(t[0] == s[i]);
        assert(t.last() == rest[j - 1]);
    }
}

/// Lines, each ended by a newline.
pub open spec fn unlined(lines: Seq<Seq<char>>) -> Seq<char>
    decreases lines.len(),
{
    if lines.len() == 0 {
        Seq::empty()
    } else {
        lines[0] + seq!['\n'] + unlined(lines.drop_first())
    }
}

proof fn lemma_line_length_bounds(s: Seq<char>)
    ensures
        line_length(s) <= s.len(),
        forall|i: int| 0 <= i < line_length(s) ==> #[trigger] s[i] != '\n',
        line_length(s) < s.len() ==> s[line_length(s) as int] == '\n',
    decreases s.len(),
{
    if s.len() > 0 && s[0] != '\n' {
        let rest = s.drop_first();
        lemma_line_length_bounds(rest);
        assert forall|i: int| 0 <= i < line_length(s) implies #[trigger] s[i] != '\n' by {
            if i > 0 {
                assert(rest[i - 1] == s[i]);
            }
        }
        if line_length(s) < s.len() {
            assert(rest[line_length(rest) as int] == s[line_length(s) as int]);
        }
    }
}

/// The lines of a text hold no newline, and written one after the other they are
/// the text, whose last line may go without its newline.
pub proof fn lines_make_up_the_text(s: Seq<char>)
    ensures
        forall|i: int| 0 <= i < line_seq(s).len() ==> !(#[trigger] line_seq(s)[i]).contains('\n'),
        unlined(line_seq(s)) == if s.len() == 0 || s.last() == '\n' {
            s
        } else {
            s.push('\n')
        },
    decreases s.len(),
{
    let n = line_length(s) as int;
    lemma_line_length_bounds(s);
    let ls = line_seq(s);
    if s.len() > 0 {
        if n >= s.len() {
            assert(ls.drop_first() =~= Seq::<Seq<char>>::empty());
            assert(s[s.len() - 1] != '\n');
            assert(unlined(ls.drop_first()) =~= Seq::<char>::empty());
            assert(unlined(ls) == s + seq!['\n'] + unlined(ls.drop_first()));
            assert(s + seq!['\n'] + Seq::<char>::empty() =~= s.push('\n'));
            assert(!ls[0].contains('\n'));
        } else {
            let rest = s.skip(n + 1);
            lines_make_up_the_text(rest);
            assert(ls.drop_first() =~= line_seq(rest));
            assert(s =~= s.take(n) + seq!['\n'] + rest);
            assert(unlined(ls) == s.take(n) + seq!['\n'] + unlined(line_seq(rest)));
            if rest.len() == 0 {
                assert(s.last() == '\n');
            } else {
                assert(rest.last() == s.last());
                assert(s.push('\n') =~= s.take(n) + seq!['\n'] + rest.push('\n'));
            }
            assert forall|i: int| 0 <= i < ls.len() implies !(#[trigger] ls[i]).contains('\n') by {
                if i > 0 {
                    assert(ls[i] == line_seq(rest)[i - 1]);
                }
            }
        }
    }
}

/// Searching finds a part exactly where its characters stand one after the other.
pub proof fn occurring_is_standing_somewhere(part: Seq<char>, whole: Seq<char>)
    ensures
        occurs(part, whole) <==> exists|i: int|
            0 <= i && i + part.len() <= whole.len() && #[trigger] whole.subrange(
                i,
                i + part.len(),
            ) =~= part,
{
    if exists|i: int|
        0 <= i && i + part.len() <= whole.len() && #[trigger] whole.subrange(i, i + part.len())
            =~= part {
        let i = choose|i: int|
            0 <= i && i + part.len() <= whole.len() && #[trigger] whole.subrange(i, i + part.len())
                =~= part;
        assert(occurs_at(part, whole, i));
    }
}

/// Lowering moves the capital letters of ASCII by 32 and keeps all else.
pub proof fn lowering_moves_capitals_only(c: char)
    ensures
        65 <= c as u32 <= 90 ==> ascii_lower(c) as u32 == c as u32 + 32,
        !(65 <= c as u32 <= 90) ==> ascii_lower(c) == c,
{
}

} // verus!
