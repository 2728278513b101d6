//! What a JSON Pointer names.

use vstd::prelude::*;

use crate::json;
use crate::json::JsonView;
use crate::text;
use crate::text_laws;

verus! {

/// A token as a pointer writes it: `~0` for a tilde, `~1` for a slash.
pub open spec fn escaped(token: Seq<char>) -> Seq<char>
    decreases token.len(),
{
    if token.len() == 0 {
        Seq::empty()
    } else {
        let rest = escaped(token.skip(1));
        if token[0] == '~' {
            seq!['~', '0'] + rest
        } else if token[0] == '/' {
            seq!['~', '1'] + rest
        } else {
            seq![token[0]] + rest
        }
    }
}

/// A pointer that names these tokens: each of them after a slash.
pub open spec fn spelled(tokens: Seq<Seq<char>>) -> Seq<char>
    decreases tokens.len(),
{
    if tokens.len() == 0 {
        Seq::empty()
    } else {
        seq!['/'] + escaped(tokens[0]) + spelled(tokens.drop_first())
    }
}

proof fn lemma_escaped(token: Seq<char>)
    ensures
        json::unescaped(escaped(token)) == token,
        !escaped(token).contains('/'),
    decreases token.len(),
{
    let e = escaped(token);
    if token.len() > 0 {
        let rest = escaped(token.skip(1));
        lemma_escaped(token.skip(1));
        assert(token =~= seq![token[0]] + token.skip(1));
        let n: int = if token[0] == '~' || token[0] == '/' {
            2
        } else {
            1
        };
        assert(e.skip(n) =~= rest);
        assert forall|i: int| 0 <= i < e.len() implies #[trigger] e[i] != '/' by {
            if i >= n {
                assert(e[i] == rest[i - n]);
            }
        }
    }
}

/// A pointer names the tokens that it spells, whatever characters they hold.
pub proof fn a_pointer_names_what_it_spells(tokens: Seq<Seq<char>>)
    ensures
        json::path_of(spelled(tokens)) == Some(tokens),
    decreases tokens.len(),
{
    if tokens.len() > 0 {
        let (first, others) = (escaped(tokens[0]), tokens.drop_first());
        let s = spelled(tokens).skip(1);
        lemma_escaped(tokens[0]);
        a_pointer_names_what_it_spells(others);
        assert(s =~= first + spelled(others));
        assert(tokens =~= seq![tokens[0]] + others);
        text_laws::the_start_ends_before_the_set(s, seq!['/']);
        let p = text::before_any(s, seq!['/']);
        assert(seq!['/'][0] == '/');
        assert(seq!['/'].contains('/'));
        if p.len() < first.len() {
            assert(s[p.len() as int] == first[p.len() as int]);
            assert(seq!['/'].contains(s[p.len() as int]));
        }
        if p.len() > first.len() {
            assert(p[first.len() as int] == s[first.len() as int]);
            assert(s[first.len() as int] == spelled(others)[0]);
        }
        assert(p.len() == first.len());
        text::lemma_first_of(s, seq!['/'], 0);
        assert(p.len() == text::first_of(s, seq!['/'], 0));
        assert(s.take(first.len() as int) =~= first);
        if others.len() > 0 {
            assert(s.skip(first.len() as int + 1) =~= spelled(others).skip(1));
        } else {
            assert(s =~= first);
            assert(others =~= Seq::empty());
        }
    }
}

/// A pointer that is not empty and does not begin with a slash names nothing.
pub proof fn a_pointer_begins_with_a_slash(v: JsonView, pointer: Seq<char>)
    ensures
        pointer.len() == 0 ==> json::found(v, pointer) == Some(v),
        pointer.len() > 0 && pointer[0] != '/' ==> json::found(v, pointer) is None,
{
}

proof fn lemma_member(members: Seq<(Seq<char>, JsonView)>, name: Seq<char>, from: int)
    requires
        0 <= from,
    ensures
        match json::member_from(members, name, from) {
            Some(i) => {
                &&& from <= i < members.len()
                &&& members[i].0 == name
                &&& forall|k: int| from <= k < i ==> (#[trigger] members[k]).0 != name
            },
            None => forall|k: int| from <= k < members.len() ==> (#[trigger] members[k]).0 != name,
        },
    decreases members.len() - from,
{
    if from < members.len() {
        lemma_member(members, name, from + 1);
    }
}

/// In an object a token names the first member of that name, and nothing where
/// there is none.
pub proof fn a_token_names_a_member(
    members: Seq<(Seq<char>, JsonView)>,
    token: Seq<char>,
    rest: Seq<Seq<char>>,
)
    ensures
        forall|i: int|
            0 <= i < members.len() && (#[trigger] members[i]).0 == token && (forall|k: int|
                0 <= k < i ==> (#[trigger] members[k]).0 != token) ==> json::at(
                JsonView::Object(members),
                seq![token] + rest,
            ) == json::at(members[i].1, rest),
        (forall|k: int| 0 <= k < members.len() ==> (#[trigger] members[k]).0 != token) ==> json::at(
            JsonView::Object(members),
            seq![token] + rest,
        ) is None,
{
    let path = seq![token] + rest;
    assert(path.drop_first() =~= rest);
    assert(path[0] == token);
    lemma_member(members, token, 0);
}

/// In an array a token names an element by its index in decimal, counted from
/// zero; an index that is too great names nothing, nor does a token that is no
/// index.
pub proof fn a_token_names_an_element(
    items: Seq<JsonView>,
    index: nat,
    token: Seq<char>,
    rest: Seq<Seq<char>>,
)
    requires
        items.len() <= usize::MAX,
    ensures
        json::at(JsonView::Array(items), seq![text::decimal(index)] + rest) == if index
            < items.len() {
            json::at(items[index as int], rest)
        } else {
            None
        },
        token.len() == 0 || !('0' <= token[0] <= '9') || (token[0] == '0' && token.len() > 1)
            ==> json::at(JsonView::Array(items), seq![token] + rest) is None,
{
    let d = text::decimal(index);
    let path = seq![d] + rest;
    text_laws::a_decimal_is_read_again(index);
    assert(path.drop_first() =~= rest);
    assert(path[0] == d);
    if index == 0 {
        assert(d.len() == 1);
    }
    assert(text::is_digit(d[0]));
    assert(d[0] != '+');
    if index <= usize::MAX as nat {
        assert(text::number(d, usize::MAX as nat) == Some(index));
    } else {
        assert(text::number(d, usize::MAX as nat) is None);
    }
    let other = seq![token] + rest;
    assert(other[0] == token);
    text_laws::only_digits_make_a_number(token, usize::MAX as nat);
}

/// Nothing lies in a value that is neither an object nor an array.
pub proof fn plain_values_hold_nothing(v: JsonView, path: Seq<Seq<char>>)
    ensures
        json::at(v, Seq::empty()) == Some(v),
        !(v is Object) && !(v is Array) && path.len() > 0 ==> json::at(v, path) is None,
{
}

} // verus!
