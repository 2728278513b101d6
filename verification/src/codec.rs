//! Base64 and BLAKE3, both from outside crates.

use base64::Engine;
use vstd::prelude::*;

use crate::text;

verus! {

/// The character that stands for a six-bit value in the standard alphabet.
pub open spec fn base64_symbol(v: int) -> char {
    if v < 26 {
        ('A' as u32 + v) as char
    } else if v < 52 {
        ('a' as u32 + (v - 26)) as char
    } else if v < 62 {
        ('0' as u32 + (v - 52)) as char
    } else if v == 62 {
        '+'
    } else {
        '/'
    }
}

/// The padded base64 text of `b` in the standard alphabet.
pub open spec fn base64_text(b: Seq<u8>) -> Seq<char>
    decreases b.len(),
{
    if b.len() == 0 {
        Seq::empty()
    } else if b.len() == 1 {
        seq![base64_symbol(b[0] as int / 4), base64_symbol(b[0] % 4 * 16), '=', '=']
    } else if b.len() == 2 {
        seq![
            base64_symbol(b[0] as int / 4),
            base64_symbol(b[0] % 4 * 16 + b[1] / 16),
            base64_symbol(b[1] % 16 * 4),
            '=',
        ]
    } else {
        seq![
            base64_symbol(b[0] as int / 4),
            base64_symbol(b[0] % 4 * 16 + b[1] / 16),
            base64_symbol(b[1] % 16 * 4 + b[2] / 64),
            base64_symbol(b[2] as int % 64),
        ] + base64_text(b.skip(3))
    }
}

/// The bytes whose base64 text is `s`, if there are any.
pub open spec fn base64_value(s: Seq<char>) -> Option<Seq<u8>> {
    if exists|b: Seq<u8>| base64_text(b) == s {
        Some(choose|b: Seq<u8>| base64_text(b) == s)
    } else {
        None
    }
}

proof fn lemma_symbols_differ(v: int, w: int)
    requires
        0 <= v < 64,
        0 <= w < 64,
    ensures
        base64_symbol(v) == base64_symbol(w) ==> v == w,
        base64_symbol(v) != '=',
{
}

/// No two byte sequences share a base64 text.
pub proof fn base64_text_is_injective(a: Seq<u8>, b: Seq<u8>)
    requires
        base64_text(a) == base64_text(b),
    ensures
        a == b,
    decreases a.len(),
{
    let s = base64_text(a);
    if a.len() > 0 && b.len() > 0 {
        let a1 = if a.len() > 1 { a[1] as int } else { 0 };
        let b1 = if b.len() > 1 { b[1] as int } else { 0 };
        let a2 = if a.len() > 2 { a[2] as int } else { 0 };
        let b2 = if b.len() > 2 { b[2] as int } else { 0 };
        assert(s[0] == base64_symbol(a[0] as int / 4) && s[0] == base64_symbol(b[0] as int / 4));
        lemma_symbols_differ(a[0] as int / 4, b[0] as int / 4);
        assert(s[1] == base64_symbol(a[0] % 4 * 16 + a1 / 16));
        assert(s[1] == base64_symbol(b[0] % 4 * 16 + b1 / 16));
        lemma_symbols_differ(a[0] % 4 * 16 + a1 / 16, b[0] % 4 * 16 + b1 / 16);
        lemma_symbols_differ(a1 % 16 * 4 + a2 / 64, b1 % 16 * 4 + b2 / 64);
        lemma_symbols_differ(a2 % 64, b2 % 64);
        assert(a[0] == b[0]);
        assert(a.len() == 1 <==> s[2] == '=');
        assert(b.len() == 1 <==> s[2] == '=');
        assert(a.len() <= 2 <==> s[3] == '=');
        assert(b.len() <= 2 <==> s[3] == '=');
        if a.len() > 2 {
            assert(s.skip(4) =~= base64_text(a.skip(3)));
            assert(s.skip(4) =~= base64_text(b.skip(3)));
            base64_text_is_injective(a.skip(3), b.skip(3));
            assert(a =~= seq![a[0], a[1], a[2]] + a.skip(3));
            assert(b =~= seq![b[0], b[1], b[2]] + b.skip(3));
        }
    } else {
        assert(a.len() == 0 <==> s.len() == 0);
        assert(b.len() == 0 <==> s.len() == 0);
    }
    assert(a =~= b);
}

/// Decoding what was encoded gives it back.
pub proof fn base64_round_trip(b: Seq<u8>)
    ensures
        base64_value(base64_text(b)) == Some(b),
{
    let back = choose|x: Seq<u8>| base64_text(x) == base64_text(b);
    base64_text_is_injective(back, b);
}

proof fn lemma_no_white(b: Seq<u8>)
    ensures
        forall|i: int|
            0 <= i < base64_text(b).len() ==> !text::is_white(#[trigger] base64_text(b)[i]),
    decreases b.len(),
{
    if b.len() > 2 {
        lemma_no_white(b.skip(3));
        let head = seq![
            base64_symbol(b[0] as int / 4),
            base64_symbol(b[0] % 4 * 16 + b[1] / 16),
            base64_symbol(b[1] % 16 * 4 + b[2] / 64),
            base64_symbol(b[2] as int % 64),
        ];
        assert forall|i: int| 0 <= i < base64_text(b).len() implies !text::is_white(
            #[trigger] base64_text(b)[i],
        ) by {
            if i >= 4 {
                assert(base64_text(b)[i] == base64_text(b.skip(3))[i - 4]);
            } else {
                assert(base64_text(b)[i] == head[i]);
            }
        }
    }
}

/// A base64 text holds no white space, so trimming leaves it of whatever white
/// space stands around it.
pub(crate) proof fn lemma_base64_is_trimmed(b: Seq<u8>, before: Seq<char>, after: Seq<char>)
    requires
        text::blank(before),
        text::blank(after),
    ensures
        text::trimmed(before + base64_text(b) + after) == base64_text(b),
{
    lemma_no_white(b);
    text::lemma_trimmed(before, base64_text(b), after);
}

/// What the base64 decoder says of a text that it refuses.
pub uninterp spec fn base64_fault(s: Seq<char>) -> Seq<char>;

/// Calls `Engine::decode` of the `base64` crate's `STANDARD` engine. Its
/// configuration demands canonical padding and no stray bits in the last
/// symbol, so what is trusted is that it accepts exactly the texts that encode
/// some bytes, and returns those bytes. The wording of a refusal only has a
/// name.
#[verifier::external_body]
fn decode_standard(s: &str) -> (r: Result<Vec<u8>, String>)
    ensures
        match r {
            Ok(b) => base64_text(b@) == s@,
            Err(e) => (forall|b: Seq<u8>| #[trigger] base64_text(b) != s@) && e@ == base64_fault(
                s@,
            ),
        },
{
    base64::engine::general_purpose::STANDARD.decode(s).map_err(|e| e.to_string())
}

/// The bytes that a base64 text holds.
pub(crate) fn decode_base64(s: &str) -> (r: Result<Vec<u8>, String>)
    ensures
        match r {
            Ok(b) => base64_value(s@) == Some(b@),
            Err(e) => base64_value(s@) is None && e@ == base64_fault(s@),
        },
{
    let r = decode_standard(s);
    proof {
        if r is Ok {
            base64_round_trip(r->Ok_0@);
        }
    }
    r
}

/// The BLAKE3 hash of some bytes, in lower-case hexadecimal.
pub uninterp spec fn blake3_hex(b: Seq<u8>) -> Seq<char>;

/// Calls `blake3::hash` and `Hash::to_hex`. That the text is a function of the
/// bytes alone is trusted; what the function is only has a name.
#[verifier::external_body]
pub(crate) fn hash_hex(b: &[u8]) -> (r: String)
    ensures
        r@ == blake3_hex(b@),
{
    blake3::hash(b).to_hex().to_string()
}

} // verus!
