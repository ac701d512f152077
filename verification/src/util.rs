use vstd::prelude::*;
use vstd::string::StrSliceExecFns;
use vstd::arithmetic::power2::pow2;

verus! {

/// Floor of the base-2 logarithm of `n`.
///
/// `n` must be nonzero: the logarithm of zero is undefined.
pub fn log2(n: usize) -> (r: usize)
    requires
        n > 0,
    ensures
        pow2(r as nat) <= n,
        n < pow2((r + 1) as nat),
{
    let mut m: usize = n;
    let mut r: usize = 0;
    proof {
        vstd::arithmetic::power2::lemma2_to64();
    }
    
    while m > 1
        invariant
            1 <= m <= n,
            r < 64,
            m * pow2(r as nat) <= n,
            n < (m + 1) * pow2(r as nat),
        decreases m,
    {
        proof {
            vstd::arithmetic::power2::lemma_pow2_unfold((r + 1) as nat);
            assert(pow2((r + 1) as nat) == 2 * pow2(r as nat));
            let p = pow2(r as nat);
            assert((m / 2) * (2 * p) <= m * p) by (nonlinear_arith)
                requires p >= 0;
            assert((m + 1) * p <= (m / 2 + 1) * (2 * p)) by (nonlinear_arith)
                requires p >= 0;
        }
        m = m / 2;
        r = r + 1;
        proof {
            if r >= 64 {
                vstd::arithmetic::power2::lemma2_to64_rest();
                if r > 64 {
                    vstd::arithmetic::power2::lemma_pow2_strictly_increases(64, r as nat);
                }
                assert(m * pow2(r as nat) >= pow2(r as nat)) by (nonlinear_arith)
                    requires m >= 1, pow2(r as nat) >= 0;
            }
        }
    }
    proof {
        vstd::arithmetic::power2::lemma_pow2_unfold((r + 1) as nat);
    }
    r
}

/// The characters of a string slice, in order.
pub fn chars_of(s: &str) -> (v: Vec<char>)
    ensures
        v@ == s@,
{
    let mut v: Vec<char> = Vec::new();
    for c in it: s.chars()
        invariant
            v@ == it.seq().take(it.index() as int),
            it.seq() == s@,
    {
        v.push(c);
    }
    v
}

} // verus!

verus! {

/// Appends one character to a string (`String::push`).
#[verifier::external_body]
pub(crate) fn push_char(s: &mut String, c: char)
    ensures
        final(s)@ == old(s)@.push(c),
{
    s.push(c);
}

/// A string made of the given characters, in order.
pub fn string_from_chars(v: &Vec<char>) -> (s: String)
    ensures
        s@ == v@,
{
    let mut s = String::new();
    let n = v.len();
    for i in 0..n
        invariant
            n == v@.len(),
            s@ == v@.take(i as int),
    {
        push_char(&mut s, v[i]);
        assert(v@.take(i + 1) =~= v@.take(i as int).push(v@[i as int]));
    }
    assert(v@.take(n as int) =~= v@);
    s
}

} // verus!

verus! {

/// Another handle on a shared string (`Arc::clone`); it denotes the same string.
#[verifier::external_body]
pub(crate) fn arc_string_clone(a: &std::sync::Arc<String>) -> (r: std::sync::Arc<String>)
    ensures
        r == *a,
{
    std::sync::Arc::clone(a)
}

/// Whether two shared strings hold the same text (`PartialEq` of `Arc<String>`, which compares
/// the strings).
#[verifier::external_body]
pub(crate) fn arc_string_eq(a: &std::sync::Arc<String>, b: &std::sync::Arc<String>) -> (r: bool)
    ensures
        r == (a@ == b@),
{
    a == b
}

/// The text of a shared string (`String::as_str`, reached through the `Arc`).
#[verifier::external_body]
pub(crate) fn arc_string_as_str(a: &std::sync::Arc<String>) -> (r: &str)
    ensures
        r@ == a@,
{
    a.as_str()
}

/// The number of bytes that UTF-8 takes to encode a character.
pub open spec fn utf8_len(c: char) -> int {
    if (c as u32) < 0x80 {
        1
    } else if (c as u32) < 0x800 {
        2
    } else if (c as u32) < 0x10000 {
        3
    } else {
        4
    }
}

/// The byte offset, in the UTF-8 encoding of a text, of its character at index `k`.
pub open spec fn utf8_offset(s: Seq<char>, k: int) -> int
    decreases k,
{
    if k <= 0 {
        0
    } else {
        utf8_offset(s, k - 1) + utf8_len(s[k - 1])
    }
}

/// Whether a byte offset falls on a character boundary of a text: before one of its
/// characters, or at its end.
pub open spec fn char_boundary(s: Seq<char>, b: int) -> bool {
    exists|k: int| 0 <= k <= s.len() && utf8_offset(s, k) == b
}

/// `&s[a..b]` on a `str`: the characters that lie between the byte offsets `a` and `b`, both
/// on character boundaries and `a` not after `b` (else the slicing panics).
#[verifier::external_body]
pub(crate) fn str_slice_bytes(s: &str, a: usize, b: usize) -> (r: &str)
    requires
        a <= b,
        char_boundary(s@, a as int),
        char_boundary(s@, b as int),
    ensures
        forall|i: int, j: int|
            0 <= i <= j <= s@.len() && utf8_offset(s@, i) == a && utf8_offset(s@, j) == b ==> r@ == s@.subrange(i, j),
{
    &s[a..b]
}

/// In a text of ASCII characters, the byte offset of a character is its index, so every
/// offset up to the length falls on a character boundary.
pub proof fn lemma_ascii_offsets(s: Seq<char>, k: int)
    requires
        0 <= k <= s.len(),
        forall|i: int| 0 <= i < s.len() ==> (#[trigger] s[i] as u32) < 0x80,
    ensures
        utf8_offset(s, k) == k,
        char_boundary(s, k),
    decreases k,
{
    if k > 0 {
        lemma_ascii_offsets(s, k - 1);
    }
}

} // verus!

verus! {

/// The text a string literal spells, as an owned string.
pub fn owned(s: &str) -> (r: String)
    ensures
        r@ == s@,
{
    <String as vstd::string::StringExecFns>::from_str(s)
}

/// The concatenation of two texts.
pub fn concat(a: &str, b: &str) -> (r: String)
    ensures
        r@ == a@ + b@,
{
    let mut r = owned(a);
    vstd::string::StringExecFns::append(&mut r, b);
    r
}

/// The text that `Debug` prints for a string: the string quoted and escaped.
pub uninterp spec fn debug_text(s: Seq<char>) -> Seq<char>;

/// The text that `Debug` prints for a character: the character quoted and escaped.
pub uninterp spec fn char_debug_text(c: char) -> Seq<char>;

/// `format!("{:?}", s)`: the string quoted, with its special characters escaped.
#[verifier::external_body]
pub(crate) fn string_debug(s: &str) -> (r: String)
    ensures
        r@ == debug_text(s@),
{
    format!("{:?}", s)
}

/// `format!("{:?}", c)`: the character quoted, with a special character escaped.
#[verifier::external_body]
pub(crate) fn char_debug(c: char) -> (r: String)
    ensures
        r@ == char_debug_text(c),
{
    format!("{:?}", c)
}

} // verus!

verus! {

/// Whether a character has the Unicode Alphabetic property.
pub uninterp spec fn char_is_alphabetic(c: char) -> bool;

/// Whether a character is alphabetic or numeric in the Unicode sense.
pub uninterp spec fn char_is_alphanumeric(c: char) -> bool;

/// Whether a character has the Unicode White_Space property: the controls from tab to
/// carriage return, the space, next line, no-break space, ogham space mark, the spaces from en
/// quad to hair space, the line and paragraph separators, narrow no-break space, medium
/// mathematical space and ideographic space.
pub open spec fn char_is_whitespace(c: char) -> bool {
    ||| '\t' <= c <= '\r'
    ||| c == ' '
    ||| c == '\u{85}'
    ||| c == '\u{a0}'
    ||| c == '\u{1680}'
    ||| '\u{2000}' <= c <= '\u{200a}'
    ||| c == '\u{2028}'
    ||| c == '\u{2029}'
    ||| c == '\u{202f}'
    ||| c == '\u{205f}'
    ||| c == '\u{3000}'
}

/// Whether a character is alphabetic: among ASCII characters exactly the letters, beyond them
/// as Unicode's Alphabetic property decides.
pub open spec fn alphabetic(c: char) -> bool {
    if (c as u32) < 128 {
        'a' <= c <= 'z' || 'A' <= c <= 'Z'
    } else {
        char_is_alphabetic(c)
    }
}

/// Whether a character is alphanumeric: among ASCII characters exactly the letters and the
/// digits, beyond them as Unicode decides.
pub open spec fn alphanumeric(c: char) -> bool {
    if (c as u32) < 128 {
        'a' <= c <= 'z' || 'A' <= c <= 'Z' || '0' <= c <= '9'
    } else {
        char_is_alphanumeric(c)
    }
}

/// `char::is_alphabetic`; among ASCII characters, exactly the letters are alphabetic.
#[verifier::external_body]
pub(crate) fn is_alphabetic(c: char) -> (r: bool)
    ensures
        r == char_is_alphabetic(c),
        (c as u32) < 128 ==> (r <==> ('a' <= c <= 'z' || 'A' <= c <= 'Z')),
{
    c.is_alphabetic()
}

/// `char::is_alphanumeric`; among ASCII characters, exactly the letters and digits are.
#[verifier::external_body]
pub(crate) fn is_alphanumeric(c: char) -> (r: bool)
    ensures
        r == char_is_alphanumeric(c),
        (c as u32) < 128 ==> (r <==> ('a' <= c <= 'z' || 'A' <= c <= 'Z' || '0' <= c <= '9')),
{
    c.is_alphanumeric()
}

/// Whether a character is white space, as `char::is_whitespace` decides it.
pub(crate) fn is_whitespace(c: char) -> (r: bool)
    ensures
        r == char_is_whitespace(c),
{
    ('\t' <= c && c <= '\r') || c == ' ' || c == '\u{85}' || c == '\u{a0}' || c == '\u{1680}'
        || ('\u{2000}' <= c && c <= '\u{200a}') || c == '\u{2028}' || c == '\u{2029}'
        || c == '\u{202f}' || c == '\u{205f}' || c == '\u{3000}'
}

/// The value of a character as a digit: `0`–`9` for the decimal digits, and `10`–`35` for the
/// ASCII letters of either case; other characters have none.
pub open spec fn digit_value(c: char) -> Option<u32> {
    if '0' <= c && c <= '9' {
        Some((c as u32 - '0' as u32) as u32)
    } else if 'a' <= c && c <= 'z' {
        Some((c as u32 - 'a' as u32 + 10) as u32)
    } else if 'A' <= c && c <= 'Z' {
        Some((c as u32 - 'A' as u32 + 10) as u32)
    } else {
        None
    }
}

/// Whether a character is a digit in the given radix, as `char::is_digit` decides it.
pub open spec fn is_digit_in(c: char, radix: u32) -> bool {
    match digit_value(c) {
        Some(d) => d < radix,
        None => false,
    }
}

/// Whether a character is a digit in the given radix (`char::is_digit`, for a radix of at most
/// 36, where it does not panic).
pub fn is_digit(c: char, radix: u32) -> (r: bool)
    requires
        radix <= 36,
    ensures
        r == is_digit_in(c, radix),
{
    let d: u32 = if '0' <= c && c <= '9' {
        c as u32 - '0' as u32
    } else if 'a' <= c && c <= 'z' {
        c as u32 - 'a' as u32 + 10
    } else if 'A' <= c && c <= 'Z' {
        c as u32 - 'A' as u32 + 10
    } else {
        return false;
    };
    d < radix
}

} // verus!

verus! {

/// Whether the characters spell the given text.
pub fn chars_eq_str(w: &Vec<char>, lit: &str) -> (r: bool)
    ensures
        r == (w@ == lit@),
{
    let n = lit.unicode_len();
    if w.len() != n {
        return false;
    }
    for i in 0..n
        invariant
            n == lit@.len(),
            w@.len() == n,
            forall|k: int| 0 <= k < i ==> w@[k] == lit@[k],
    {
        if w[i] != lit.get_char(i) {
            return false;
        }
    }
    assert(w@ =~= lit@);
    true
}

} // verus!

verus! {

/// Whether two texts are equal.
pub fn str_eq(a: &str, b: &str) -> (r: bool)
    ensures
        r == (a@ == b@),
{
    let n = a.unicode_len();
    if n != b.unicode_len() {
        return false;
    }
    for i in 0..n
        invariant
            n == a@.len(),
            n == b@.len(),
            forall|k: int| 0 <= k < i ==> a@[k] == b@[k],
    {
        if a.get_char(i) != b.get_char(i) {
            return false;
        }
    }
    assert(a@ =~= b@);
    true
}

} // verus!

verus! {

/// The lower-case hexadecimal digit for a value below sixteen.
pub open spec fn hex_digit(d: nat) -> char {
    if d < 10 {
        (d + 48) as char
    } else {
        (d + 87) as char
    }
}

/// The lower-case hexadecimal text of a number, with no leading zeros (`{:x}`).
pub open spec fn hex_text(n: nat) -> Seq<char>
    decreases n,
{
    if n < 16 {
        seq![hex_digit(n)]
    } else {
        hex_text(n / 16).push(hex_digit(n % 16))
    }
}

/// Appends the lower-case hexadecimal text of `n` to `s`.
pub fn push_hex(s: &mut String, n: usize)
    ensures
        final(s)@ == old(s)@ + hex_text(n as nat),
    decreases n,
{
    if n >= 16 {
        push_hex(s, n / 16);
    }
    let d = (n % 16) as u8;
    let c = if d < 10 {
        (d + 48) as char
    } else {
        (d + 87) as char
    };
    assert(c == hex_digit(d as nat));
    push_char(s, c);
    assert(old(s)@ + hex_text(n as nat) =~= if n >= 16 {
        old(s)@ + hex_text((n / 16) as nat) + seq![c]
    } else {
        old(s)@ + seq![c]
    });
}

} // verus!

verus! {

/// The decimal text of a number, with no leading zeros (`{}`).
pub open spec fn dec_text(n: nat) -> Seq<char>
    decreases n,
{
    if n < 10 {
        seq![(n + 48) as char]
    } else {
        dec_text(n / 10).push(((n % 10) + 48) as char)
    }
}

/// Appends the decimal text of `n` to `s`.
pub fn push_dec(s: &mut String, n: usize)
    ensures
        final(s)@ == old(s)@ + dec_text(n as nat),
    decreases n,
{
    if n >= 10 {
        push_dec(s, n / 10);
    }
    let d = (n % 10) as u8;
    let c = (d + 48) as char;
    push_char(s, c);
    assert(old(s)@ + dec_text(n as nat) =~= if n >= 10 {
        old(s)@ + dec_text((n / 10) as nat) + seq![c]
    } else {
        old(s)@ + seq![c]
    });
}

} // verus!
