//! Text helpers shared by the library: UTF-8 byte lengths, Unicode white
//! space, decimal rendering and string building.
use crate::order::{compare_bytes, lemma_bytes_order_equal, Order};
use vstd::prelude::*;
use vstd::string::StringExecFns;
use vstd::utf8::{encode_utf8, encode_utf8_decode_utf8, valid_utf8};

verus! {

/// The number of bytes in the UTF-8 encoding of a character sequence.
pub open spec fn utf8_len(s: Seq<char>) -> nat {
    encode_utf8(s).len()
}

/// The Unicode `White_Space` property, which `char::is_whitespace` and
/// `str::trim` use.
pub open spec fn is_white_space(c: char) -> bool {
    let v = c as u32;
    ||| 0x09 <= v <= 0x0d
    ||| v == 0x20
    ||| v == 0x85
    ||| v == 0xa0
    ||| v == 0x1680
    ||| 0x2000 <= v <= 0x200a
    ||| v == 0x2028
    ||| v == 0x2029
    ||| v == 0x202f
    ||| v == 0x205f
    ||| v == 0x3000
}

/// A string that `str::trim` reduces to nothing: every character is white
/// space.
pub open spec fn is_blank(s: Seq<char>) -> bool {
    forall|i: int| 0 <= i < s.len() ==> is_white_space(#[trigger] s[i])
}

/// Whether a character has the Unicode `White_Space` property.
pub fn char_is_white_space(c: char) -> (r: bool)
    ensures
        r == is_white_space(c),
{
    let v = c as u32;
    (0x09 <= v && v <= 0x0d) || v == 0x20 || v == 0x85 || v == 0xa0 || v == 0x1680 || (0x2000
        <= v && v <= 0x200a) || v == 0x2028 || v == 0x2029 || v == 0x202f || v == 0x205f || v
        == 0x3000
}

/// Whether trimming white space from both ends leaves nothing.
pub fn str_is_blank(s: &str) -> (r: bool)
    ensures
        r == is_blank(s@),
{
    broadcast use vstd::string::axiom_spec_iter;
    for c in it: s.chars()
        invariant
            it.seq() == s@,
            forall|i: int| 0 <= i < it.index() ==> is_white_space(#[trigger] s@[i]),
    {
        if !char_is_white_space(c) {
            return false;
        }
    }
    true
}

/// The decimal digit character for a value below ten.
pub open spec fn digit_char(d: nat) -> char {
    ((d + 48) as u32) as char
}

/// The decimal rendering of a natural number, without leading zeros.
pub open spec fn decimal(n: nat) -> Seq<char>
    decreases n,
{
    if n < 10 {
        seq![digit_char(n)]
    } else {
        decimal(n / 10).push(digit_char(n % 10))
    }
}

/// Calls `String::push`, which std documents as appending the character to
/// the end of the string.
#[verifier::external_body]
pub fn push_char(s: &mut String, c: char)
    ensures
        final(s)@ == old(s)@.push(c),
{
    s.push(c);
}

/// Appends the slice to the end of the string.
pub fn push_str(s: &mut String, t: &str)
    ensures
        final(s)@ == old(s)@ + t@,
{
    s.append(t);
}

/// Appends the decimal rendering of `n`.
pub fn push_decimal(out: &mut String, n: usize)
    ensures
        final(out)@ == old(out)@ + decimal(n as nat),
    decreases n,
{
    if n < 10 {
        let d = (n as u32) + 48;
        let c = char_from_ascii_digit(d);
        push_char(out, c);
        assert(seq![digit_char(n as nat)] =~= seq![c]);
    } else {
        push_decimal(out, n / 10);
        let d = ((n % 10) as u32) + 48;
        let c = char_from_ascii_digit(d);
        push_char(out, c);
        assert(decimal(n as nat) == decimal((n / 10) as nat).push(digit_char((n % 10) as nat)));
    }
}

/// Appends the decimal rendering of a 64-bit `n`.
pub fn push_decimal_u64(out: &mut String, n: u64)
    ensures
        final(out)@ == old(out)@ + decimal(n as nat),
    decreases n,
{
    if n < 10 {
        let d = (n as u32) + 48;
        let c = char_from_ascii_digit(d);
        push_char(out, c);
        assert(seq![digit_char(n as nat)] =~= seq![c]);
    } else {
        push_decimal_u64(out, n / 10);
        let d = ((n % 10) as u32) + 48;
        let c = char_from_ascii_digit(d);
        push_char(out, c);
        assert(decimal(n as nat) == decimal((n / 10) as nat).push(digit_char((n % 10) as nat)));
    }
}

/// The lowercase hexadecimal digit character for a value below sixteen.
pub open spec fn hex_digit_char(d: nat) -> char {
    if d < 10 {
        ((d + 48) as u32) as char
    } else {
        ((d + 87) as u32) as char
    }
}

/// The lowercase hexadecimal rendering of a natural number, without leading
/// zeros.
pub open spec fn hex(n: nat) -> Seq<char>
    decreases n,
{
    if n < 16 {
        seq![hex_digit_char(n)]
    } else {
        hex(n / 16).push(hex_digit_char(n % 16))
    }
}

/// Appends the lowercase hexadecimal rendering of `n`.
pub fn push_hex(out: &mut String, n: u16)
    ensures
        final(out)@ == old(out)@ + hex(n as nat),
    decreases n,
{
    if n >= 16 {
        push_hex(out, n / 16);
    }
    let d = n % 16;
    let v: u32 = if d < 10 {
        (d as u32) + 48
    } else {
        (d as u32) + 87
    };
    let c = ascii_char(v);
    push_char(out, c);
    if n >= 16 {
        assert(hex(n as nat) == hex((n / 16) as nat).push(hex_digit_char((n % 16) as nat)));
    } else {
        assert(seq![hex_digit_char(n as nat)] =~= seq![c]);
    }
}

fn ascii_char(v: u32) -> (c: char)
    requires
        v < 128,
    ensures
        c == (v as char),
{
    let b = v as u8;
    b as char
}

/// Equal character sequences, and only they, have equal UTF-8 encodings.
pub proof fn lemma_encode_injective(a: Seq<char>, b: Seq<char>)
    ensures
        (encode_utf8(a) == encode_utf8(b)) <==> (a == b),
{
    encode_utf8_decode_utf8(a);
    encode_utf8_decode_utf8(b);
}

/// Whether two strings hold the same characters.
pub fn str_eq(a: &str, b: &str) -> (r: bool)
    ensures
        r == (a@ == b@),
{
    let c = compare_bytes(a.as_bytes(), b.as_bytes());
    proof {
        lemma_bytes_order_equal(encode_utf8(a@), encode_utf8(b@));
        lemma_encode_injective(a@, b@);
    }
    match c {
        Order::Equal => true,
        _ => false,
    }
}

fn char_from_ascii_digit(v: u32) -> (c: char)
    requires
        48 <= v < 58,
    ensures
        c == (v as char),
{
    let b = v as u8;
    b as char
}

/// The length of a string in UTF-8 bytes.
pub fn utf8_byte_len(s: &str) -> (r: usize)
    ensures
        r as nat == utf8_len(s@),
{
    let bytes = s.as_bytes();
    bytes.len()
}

/// Appends `value` and its UTF-8 byte length as `len:value`.
pub fn push_counted(out: &mut String, value: &str)
    ensures
        final(out)@ == old(out)@ + decimal(utf8_len(value@)) + seq![':'] + value@,
{
    push_decimal(out, utf8_byte_len(value));
    push_char(out, ':');
    push_str(out, value);
}

/// An owned copy of a byte slice.
pub fn copy_bytes(v: &[u8]) -> (r: Vec<u8>)
    ensures
        r@ == v@,
{
    let mut out: Vec<u8> = Vec::with_capacity(v.len());
    let mut i: usize = 0;
    while i < v.len()
        invariant
            0 <= i <= v@.len(),
            out@ == v@.take(i as int),
        decreases v@.len() - i,
    {
        out.push(v[i]);
        i = i + 1;
        assert(out@ =~= v@.take(i as int));
    }
    assert(v@.take(v@.len() as int) =~= v@);
    out
}

/// The text `"<what> requires <bytes> bytes; limit is <limit>"`.
pub open spec fn size_text(what: Seq<char>, bytes: nat, limit: nat) -> Seq<char> {
    what + " requires "@ + decimal(bytes) + " bytes; limit is "@ + decimal(limit)
}

/// A message naming a size, its byte count and its limit:
/// `"<what> requires <bytes> bytes; limit is <limit>"`.
pub(crate) fn size_message(what: &str, bytes: usize, limit: usize) -> (r: String)
    ensures
        r@ == size_text(what@, bytes as nat, limit as nat),
{
    let mut message = String::new();
    proof {
        assert(Seq::<char>::empty() + what@ =~= what@);
    }
    push_str(&mut message, what);
    push_str(&mut message, " requires ");
    push_decimal(&mut message, bytes);
    push_str(&mut message, " bytes; limit is ");
    push_decimal(&mut message, limit);
    message
}


/// Calls `String::from_utf8`, which std documents as returning the string
/// made of the given bytes when they are valid UTF-8, and an error when they
/// are not. The contract says the same over vstd's UTF-8 model.
#[verifier::external_body]
pub(crate) fn string_from_utf8(bytes: Vec<u8>) -> (r: Option<String>)
    ensures
        r is Some <==> valid_utf8(bytes@),
        r matches Some(s) ==> encode_utf8(s@) == bytes@,
{
    String::from_utf8(bytes).ok()
}

} // verus!
