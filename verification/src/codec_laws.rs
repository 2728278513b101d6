//! What base64 text is made of.

use vstd::prelude::*;

use crate::codec;

verus! {

/// The symbols of base64, in the order of the numbers that they stand for.
pub open spec fn alphabet() -> Seq<char> {
    "ABCDEFGHIJKLMNOPQRSTUVWXYZabcdefghijklmnopqrstuvwxyz0123456789+/"@
}

proof fn lemma_symbol(v: int)
    requires
        0 <= v < 64,
    ensures
        alphabet().len() == 64,
        codec::base64_symbol(v) == alphabet()[v],
{
    reveal_strlit("ABCDEFGHIJKLMNOPQRSTUVWXYZabcdefghijklmnopqrstuvwxyz0123456789+/");
}

/// Three bytes are four symbols: both write one number, the bytes in base 256
/// and the symbols in base 64, the most significant first. What follows them
/// follows them in the text.
pub proof fn three_bytes_are_four_symbols(a: u8, b: u8, c: u8, rest: Seq<u8>, v: Seq<int>)
    requires
        v.len() == 4,
        forall|i: int| 0 <= i < 4 ==> 0 <= #[trigger] v[i] < 64,
        ((v[0] * 64 + v[1]) * 64 + v[2]) * 64 + v[3] == (a * 256 + b) * 256 + c,
    ensures
        codec::base64_text(seq![a, b, c] + rest) == seq![
            alphabet()[v[0]],
            alphabet()[v[1]],
            alphabet()[v[2]],
            alphabet()[v[3]],
        ] + codec::base64_text(rest),
{
    let all = seq![a, b, c] + rest;
    assert(all.skip(3) =~= rest);
    assert(all[0] == a && all[1] == b && all[2] == c);
    assert(v[0] == a as int / 4);
    assert(v[1] == a % 4 * 16 + b / 16);
    assert(v[2] == b % 16 * 4 + c / 64);
    assert(v[3] == c as int % 64);
    lemma_symbol(v[0]);
    lemma_symbol(v[1]);
    lemma_symbol(v[2]);
    lemma_symbol(v[3]);
}

/// One byte or two at the end are padded to four symbols: what is missing
/// counts as zero, and each missing byte is written as `=`.
pub proof fn the_end_is_padded(a: u8, b: u8, v: Seq<int>)
    requires
        v.len() == 3,
        forall|i: int| 0 <= i < 3 ==> 0 <= #[trigger] v[i] < 64,
    ensures
        codec::base64_text(Seq::<u8>::empty()) == Seq::<char>::empty(),
        v[0] * 64 + v[1] == a * 16 ==> codec::base64_text(seq![a]) == seq![
            alphabet()[v[0]],
            alphabet()[v[1]],
            '=',
            '=',
        ],
        (v[0] * 64 + v[1]) * 64 + v[2] == (a * 256 + b) * 4 ==> codec::base64_text(seq![a, b])
            == seq![alphabet()[v[0]], alphabet()[v[1]], alphabet()[v[2]], '='],
{
    lemma_symbol(v[0]);
    lemma_symbol(v[1]);
    lemma_symbol(v[2]);
    if v[0] * 64 + v[1] == a * 16 {
        assert(v[0] == a as int / 4);
        assert(v[1] == a % 4 * 16);
    }
    if (v[0] * 64 + v[1]) * 64 + v[2] == (a * 256 + b) * 4 {
        assert(v[0] == a as int / 4);
        assert(v[1] == a % 4 * 16 + b / 16);
        assert(v[2] == b % 16 * 4);
    }
}

} // verus!
