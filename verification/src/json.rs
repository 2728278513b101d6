//! JSON values, and the JSON Pointers (RFC 6901) that name places in them.

use vstd::prelude::*;

use crate::text;

verus! {

/// A JSON value.
#[derive(Debug, PartialEq, Eq)]
pub enum Json {
    Null,
    Bool(bool),
    /// A number, as it is written.
    Number(String),
    Str(String),
    Array(Vec<Json>),
    /// The members in order. Where a name occurs twice, the first counts.
    Object(Vec<(String, Json)>),
}

/// What a [`Json`] says.
#[verifier::ext_equal]
pub enum JsonView {
    Null,
    Bool(bool),
    Number(Seq<char>),
    Str(Seq<char>),
    Array(Seq<JsonView>),
    Object(Seq<(Seq<char>, JsonView)>),
}

impl Json {
    pub open spec fn view(&self) -> JsonView
        decreases self,
    {
        match self {
            Json::Null => JsonView::Null,
            Json::Bool(b) => JsonView::Bool(*b),
            Json::Number(n) => JsonView::Number(n@),
            Json::Str(s) => JsonView::Str(s@),
            Json::Array(items) => JsonView::Array(elements_of(items@)),
            Json::Object(members) => JsonView::Object(members_of(members@)),
        }
    }
}

/// What each of a list of values says.
pub open spec fn elements_of(v: Seq<Json>) -> Seq<JsonView>
    decreases v,
{
    Seq::new(
        v.len(),
        |i: int|
            if 0 <= i < v.len() {
                v[i].view()
            } else {
                JsonView::Null
            },
    )
}

/// What each of a list of members says.
pub open spec fn members_of(v: Seq<(String, Json)>) -> Seq<(Seq<char>, JsonView)>
    decreases v,
{
    Seq::new(
        v.len(),
        |i: int|
            if 0 <= i < v.len() {
                (v[i].0@, v[i].1.view())
            } else {
                (Seq::empty(), JsonView::Null)
            },
    )
}

/// The index of the first member at or after `from` with this name.
pub open spec fn member_from(
    members: Seq<(Seq<char>, JsonView)>,
    name: Seq<char>,
    from: int,
) -> Option<int>
    decreases members.len() - from,
{
    if from < 0 || from >= members.len() {
        None
    } else if members[from].0 == name {
        Some(from)
    } else {
        member_from(members, name, from + 1)
    }
}

/// The array index that a reference token writes: decimal digits with no sign
/// and no leading zero.
pub open spec fn index_of(token: Seq<char>) -> Option<nat> {
    if token.len() > 0 && (token[0] == '+' || (token[0] == '0' && token.len() != 1)) {
        None
    } else {
        text::number(token, usize::MAX as nat)
    }
}

/// Where one reference token leads from `v`: the index among the elements or
/// members of `v`.
pub open spec fn step(v: JsonView, token: Seq<char>) -> Option<int> {
    match v {
        JsonView::Object(members) => member_from(members, token, 0),
        JsonView::Array(items) => match index_of(token) {
            Some(i) if i < items.len() => Some(i as int),
            _ => None,
        },
        _ => None,
    }
}

/// How many elements or members `v` has.
pub open spec fn size(v: JsonView) -> nat {
    match v {
        JsonView::Object(members) => members.len(),
        JsonView::Array(items) => items.len(),
        _ => 0,
    }
}

/// The `i`th element or member of `v`.
pub open spec fn child(v: JsonView, i: int) -> JsonView {
    match v {
        JsonView::Object(members) => members[i].1,
        JsonView::Array(items) => items[i],
        _ => JsonView::Null,
    }
}

/// `v` with `new` as its `i`th element or member.
pub open spec fn with_child(v: JsonView, i: int, new: JsonView) -> JsonView {
    match v {
        JsonView::Object(members) => JsonView::Object(members.update(i, (members[i].0, new))),
        JsonView::Array(items) => JsonView::Array(items.update(i, new)),
        _ => v,
    }
}

/// The value that a path of reference tokens leads to.
pub open spec fn at(v: JsonView, path: Seq<Seq<char>>) -> Option<JsonView>
    decreases path.len(),
{
    if path.len() == 0 {
        Some(v)
    } else {
        match step(v, path[0]) {
            Some(i) => at(child(v, i), path.drop_first()),
            None => None,
        }
    }
}

/// `v` with `new` in the place that a path leads to.
pub open spec fn put(v: JsonView, path: Seq<Seq<char>>, new: JsonView) -> JsonView
    decreases path.len(),
{
    if path.len() == 0 {
        new
    } else {
        match step(v, path[0]) {
            Some(i) => with_child(v, i, put(child(v, i), path.drop_first(), new)),
            None => v,
        }
    }
}

/// A reference token with `~1` read as `/` and `~0` as `~`.
pub open spec fn unescaped(s: Seq<char>) -> Seq<char>
    decreases s.len(),
{
    if s.len() == 0 {
        Seq::empty()
    } else if s.len() >= 2 && s[0] == '~' && s[1] == '1' {
        seq!['/'] + unescaped(s.skip(2))
    } else if s.len() >= 2 && s[0] == '~' && s[1] == '0' {
        seq!['~'] + unescaped(s.skip(2))
    } else {
        seq![s[0]] + unescaped(s.skip(1))
    }
}

/// The reference tokens of a text in which `/` stands before each but the
/// first.
pub open spec fn tokens_of(s: Seq<char>) -> Seq<Seq<char>>
    decreases s.len(),
{
    let i = text::first_of(s, seq!['/'], 0);
    if 0 <= i < s.len() {
        seq![unescaped(s.take(i))] + tokens_of(s.skip(i + 1))
    } else {
        seq![unescaped(s)]
    }
}

/// The path that a pointer writes: empty, or a `/` before each token.
pub open spec fn path_of(pointer: Seq<char>) -> Option<Seq<Seq<char>>> {
    if pointer.len() == 0 {
        Some(Seq::empty())
    } else if pointer[0] != '/' {
        None
    } else {
        Some(tokens_of(pointer.skip(1)))
    }
}

/// The value that a pointer leads to.
pub open spec fn found(v: JsonView, pointer: Seq<char>) -> Option<JsonView> {
    match path_of(pointer) {
        Some(path) => at(v, path),
        None => None,
    }
}

proof fn lemma_member(members: Seq<(Seq<char>, JsonView)>, name: Seq<char>, from: int)
    requires
        0 <= from,
    ensures
        member_from(members, name, from) matches Some(i) ==> from <= i < members.len()
            && members[i].0 == name,
    decreases members.len() - from,
{
    if from < members.len() && members[from].0 != name {
        lemma_member(members, name, from + 1);
    }
}

proof fn lemma_step(v: JsonView, token: Seq<char>)
    ensures
        step(v, token) matches Some(i) ==> 0 <= i < size(v),
{
    if let JsonView::Object(members) = v {
        lemma_member(members, token, 0);
    }
}

fn unescape(s: &str) -> (r: String)
    ensures
        r@ == unescaped(s@),
{
    let v = text::chars_of(s);
    let n: usize = v.len();
    let mut r = String::new();
    let mut i: usize = 0;
    assert(r@ + unescaped(v@.skip(0)) =~= unescaped(s@)) by {
        assert(v@.skip(0) =~= s@);
    }
    while i < n
        invariant
            v@ == s@,
            n == v@.len(),
            i <= n,
            unescaped(s@) == r@ + unescaped(v@.skip(i as int)),
        decreases n - i,
    {
        let ghost rest = v@.skip(i as int);
        let ghost before = r@;
        assert(rest.skip(1) =~= v@.skip(i + 1));
        if n - i >= 2 && v[i] == '~' && (v[i + 1] == '1' || v[i + 1] == '0') {
            assert(rest.skip(2) =~= v@.skip(i + 2));
            assert(rest[0] == v@[i as int] && rest[1] == v@[i + 1]);
            if v[i + 1] == '1' {
                proof {
                    reveal_strlit("/");
                }
                r.append("/");
                assert("/"@ =~= seq!['/']);
            } else {
                proof {
                    reveal_strlit("~");
                }
                r.append("~");
                assert("~"@ =~= seq!['~']);
            }
            i = i + 2;
        } else {
            r.append(s.substring_char(i, i + 1));
            assert(s@.subrange(i as int, i + 1) =~= seq![rest[0]]);
            assert(rest.len() >= 2 ==> rest[1] == v@[i + 1]);
            i = i + 1;
        }
        assert(unescaped(s@) =~= r@ + unescaped(v@.skip(i as int)));
    }
    assert(v@.skip(i as int) =~= Seq::empty());
    r
}

/// The path that `pointer` writes, or `None` where it writes none.
fn path(pointer: &str) -> (r: Option<Vec<String>>)
    ensures
        match r {
            Some(p) => path_of(pointer@) == Some(text::texts_of(p@)),
            None => path_of(pointer@) is None,
        },
{
    let mut tokens: Vec<String> = Vec::new();
    let n: usize = pointer.unicode_len();
    if n == 0 {
        assert(text::texts_of(tokens@) =~= Seq::empty());
        return Some(tokens);
    }
    if pointer.get_char(0) != '/' {
        return None;
    }
    let mut rest = pointer.substring_char(1, n);
    assert(rest@ =~= pointer@.skip(1));
    assert(text::texts_of(tokens@) + tokens_of(rest@) =~= tokens_of(rest@));
    loop
        invariant
            tokens_of(pointer@.skip(1)) == text::texts_of(tokens@) + tokens_of(rest@),
            pointer@.len() > 0,
            pointer@[0] == '/',
        decreases rest@.len(),
    {
        let token = text::up_to_any(rest, "/");
        let ghost i = text::first_of(rest@, "/"@, 0);
        let ghost before = text::texts_of(tokens@);
        proof {
            reveal_strlit("/");
            assert("/"@ =~= seq!['/']);
            text::lemma_first_of(rest@, "/"@, 0);
        }
        tokens.push(unescape(token));
        assert(text::texts_of(tokens@) =~= before.push(unescaped(rest@.take(i))));
        let len: usize = token.unicode_len();
        let all: usize = rest.unicode_len();
        if len == all {
            assert(rest@.take(i) =~= rest@);
            assert(tokens_of(pointer@.skip(1)) =~= text::texts_of(tokens@));
            return Some(tokens);
        }
        let ghost cur = rest@;
        rest = rest.substring_char(len + 1, all);
        assert(rest@ =~= cur.skip(i + 1));
        assert(tokens_of(pointer@.skip(1)) =~= text::texts_of(tokens@) + tokens_of(rest@));
    }
}

fn parse_index(token: &str) -> (r: Option<usize>)
    ensures
        match r {
            Some(i) => index_of(token@) == Some(i as nat),
            None => index_of(token@) is None,
        },
{
    let n: usize = token.unicode_len();
    if n > 0 {
        let first = token.get_char(0);
        if first == '+' || (first == '0' && n != 1) {
            return None;
        }
    }
    match text::parse_number(token, usize::MAX as u64) {
        Some(i) => Some(i as usize),
        None => None,
    }
}

fn place_of_member(members: &Vec<(String, Json)>, name: &str) -> (r: Option<usize>)
    ensures
        match r {
            Some(i) => i < members@.len() && member_from(members_of(members@), name@, 0) == Some(
                i as int,
            ),
            None => member_from(members_of(members@), name@, 0) is None,
        },
{
    let mut i: usize = 0;
    while i < members.len()
        invariant
            i <= members@.len(),
            member_from(members_of(members@), name@, 0) == member_from(
                members_of(members@),
                name@,
                i as int,
            ),
        decreases members@.len() - i,
    {
        if text::same(members[i].0.as_str(), name) {
            return Some(i);
        }
        i = i + 1;
    }
    None
}

impl Json {
    /// Where one reference token leads.
    fn step(&self, token: &str) -> (r: Option<usize>)
        ensures
            match r {
                Some(i) => step(self@, token@) == Some(i as int),
                None => step(self@, token@) is None,
            },
    {
        match self {
            Json::Object(members) => place_of_member(members, token),
            Json::Array(items) => match parse_index(token) {
                Some(i) => if i < items.len() {
                    Some(i)
                } else {
                    None
                },
                None => None,
            },
            _ => None,
        }
    }

    fn at<'a>(&'a self, path: &Vec<String>, from: usize) -> (r: Option<&'a Json>)
        requires
            from <= path@.len(),
        ensures
            match r {
                Some(v) => at(self@, text::texts_of(path@).skip(from as int)) == Some(v@),
                None => at(self@, text::texts_of(path@).skip(from as int)) is None,
            },
        decreases path@.len() - from,
    {
        if from == path.len() {
            return Some(self);
        }
        let ghost rest = text::texts_of(path@).skip(from as int);
        assert(rest.drop_first() =~= text::texts_of(path@).skip(from + 1));
        assert(rest[0] == path@[from as int]@);
        proof {
            lemma_step(self@, rest[0]);
        }
        match self.step(path[from].as_str()) {
            Some(i) => match self {
                Json::Object(members) => members[i].1.at(path, from + 1),
                Json::Array(items) => items[i].at(path, from + 1),
                _ => None,
            },
            None => None,
        }
    }

    /// The value that a JSON Pointer leads to.
    pub fn pointer(&self, pointer: &str) -> (r: Option<&Json>)
        ensures
            match r {
                Some(v) => found(self@, pointer@) == Some(v@),
                None => found(self@, pointer@) is None,
            },
    {
        match path(pointer) {
            Some(p) => {
                assert(text::texts_of(p@).skip(0) =~= text::texts_of(p@));
                self.at(&p, 0)
            },
            None => None,
        }
    }

    fn put(&mut self, path: &Vec<String>, from: usize, new: Json) -> (r: bool)
        requires
            from <= path@.len(),
        ensures
            r == at(old(self)@, text::texts_of(path@).skip(from as int)) is Some,
            r ==> final(self)@ == put(old(self)@, text::texts_of(path@).skip(from as int), new@),
            !r ==> final(self)@ == old(self)@,
        decreases path@.len() - from,
    {
        if from == path.len() {
            *self = new;
            return true;
        }
        let ghost rest = text::texts_of(path@).skip(from as int);
        assert(rest.drop_first() =~= text::texts_of(path@).skip(from + 1));
        assert(rest[0] == path@[from as int]@);
        proof {
            lemma_step(self@, rest[0]);
        }
        match self.step(path[from].as_str()) {
            Some(i) => match self {
                Json::Object(members) => {
                    let ghost before = members@;
                    let r = members[i].1.put(path, from + 1, new);
                    assert(members_of(members@) =~= members_of(before).update(
                        i as int,
                        (before[i as int].0@, members@[i as int].1@),
                    ));
                    assert(!r ==> members_of(members@) =~= members_of(before));
                    r
                },
                Json::Array(items) => {
                    let ghost before = items@;
                    let r = items[i].put(path, from + 1, new);
                    assert(elements_of(items@) =~= elements_of(before).update(
                        i as int,
                        items@[i as int]@,
                    ));
                    assert(!r ==> elements_of(items@) =~= elements_of(before));
                    r
                },
                _ => false,
            },
            None => false,
        }
    }

    /// Puts `new` in the place that a JSON Pointer leads to. Where it leads
    /// nowhere, nothing changes.
    pub fn replace(&mut self, pointer: &str, new: Json) -> (r: bool)
        ensures
            r == found(old(self)@, pointer@) is Some,
            r ==> final(self)@ == put(old(self)@, path_of(pointer@)->0, new@),
            !r ==> final(self)@ == old(self)@,
    {
        match path(pointer) {
            Some(p) => {
                assert(text::texts_of(p@).skip(0) =~= text::texts_of(p@));
                self.put(&p, 0, new)
            },
            None => false,
        }
    }
}

pub(crate) fn member(name: &str, value: Json) -> (r: (String, Json))
    ensures
        r.0@ == name@,
        r.1 == value,
{
    (name.to_owned(), value)
}

pub(crate) fn string(value: &str) -> (r: Json)
    ensures
        r@ == JsonView::Str(value@),
{
    Json::Str(value.to_owned())
}

/// An object with two members.
pub(crate) fn pair(a: &str, x: Json, b: &str, y: Json) -> (r: Json)
    ensures
        r@ == JsonView::Object(seq![(a@, x@), (b@, y@)]),
{
    let members = vec![member(a, x), member(b, y)];
    assert(members_of(members@) =~= seq![(a@, x@), (b@, y@)]);
    Json::Object(members)
}

/// Reading a place after writing it gives what was written.
pub proof fn written_is_read(v: JsonView, path: Seq<Seq<char>>, new: JsonView)
    requires
        at(v, path) is Some,
    ensures
        at(put(v, path, new), path) == Some(new),
    decreases path.len(),
{
    if path.len() > 0 {
        let i = step(v, path[0])->0;
        let inner = put(child(v, i), path.drop_first(), new);
        lemma_step(v, path[0]);
        lemma_names_stay(v, path[0], i, inner);
        written_is_read(child(v, i), path.drop_first(), new);
    }
}

/// Writing one place leaves every place alone that lies neither in it nor
/// around it.
pub proof fn other_places_stay(
    v: JsonView,
    path: Seq<Seq<char>>,
    new: JsonView,
    other: Seq<Seq<char>>,
)
    requires
        !path.is_prefix_of(other),
        !other.is_prefix_of(path),
    ensures
        at(put(v, path, new), other) == at(v, other),
    decreases path.len(),
{
    assert(path.len() > 0);
    assert(other.len() > 0);
    if let Some(i) = step(v, path[0]) {
        let inner = put(child(v, i), path.drop_first(), new);
        lemma_step(v, path[0]);
        lemma_names_stay(v, other[0], i, inner);
        if path[0] == other[0] {
            if path.drop_first().is_prefix_of(other.drop_first()) {
                assert forall|k: int| 0 <= k < path.len() implies path[k] == #[trigger] other[k] by {
                    if k > 0 {
                        assert(path.drop_first()[k - 1] == other.drop_first()[k - 1]);
                    }
                }
                assert(path =~= other.take(path.len() as int));
            }
            if other.drop_first().is_prefix_of(path.drop_first()) {
                assert forall|k: int| 0 <= k < other.len() implies #[trigger] other[k] == path[k] by {
                    if k > 0 {
                        assert(path.drop_first()[k - 1] == other.drop_first()[k - 1]);
                    }
                }
                assert(other =~= path.take(other.len() as int));
            }
            other_places_stay(child(v, i), path.drop_first(), new, other.drop_first());
        } else if let Some(j) = step(v, other[0]) {
            lemma_step(v, other[0]);
            lemma_steps_differ(v, path[0], other[0]);
        }
    }
}

/// A write changes nothing but the place written: with what was there put
/// back, the value is what it was.
pub proof fn a_write_is_undone(v: JsonView, path: Seq<Seq<char>>, new: JsonView)
    requires
        at(v, path) is Some,
    ensures
        put(put(v, path, new), path, at(v, path)->0) == v,
    decreases path.len(),
{
    if path.len() > 0 {
        let i = step(v, path[0])->0;
        let inner = put(child(v, i), path.drop_first(), new);
        lemma_step(v, path[0]);
        lemma_names_stay(v, path[0], i, inner);
        a_write_is_undone(child(v, i), path.drop_first(), new);
        match v {
            JsonView::Object(members) => {
                assert(members.update(i, (members[i].0, inner)).update(
                    i,
                    (members[i].0, members[i].1),
                ) =~= members);
            },
            JsonView::Array(items) => {
                assert(items.update(i, inner).update(i, items[i]) =~= items);
            },
            _ => {},
        }
    }
}

/// A place is reached through the places that it lies in.
pub(crate) proof fn lemma_way_is_there(v: JsonView, path: Seq<Seq<char>>, other: Seq<Seq<char>>)
    requires
        other.is_prefix_of(path),
        at(v, path) is Some,
    ensures
        at(v, other) is Some,
    decreases path.len(),
{
    if other.len() > 0 {
        assert(other[0] == path[0]);
        assert(other.drop_first() =~= path.drop_first().take(other.len() - 1));
        lemma_way_is_there(
            child(v, step(v, path[0])->0),
            path.drop_first(),
            other.drop_first(),
        );
    }
}

/// What a written place lies in is changed only there.
pub proof fn enclosing_places_change_only_there(
    v: JsonView,
    path: Seq<Seq<char>>,
    new: JsonView,
    other: Seq<Seq<char>>,
)
    requires
        other.is_prefix_of(path),
        at(v, other) is Some,
    ensures
        at(put(v, path, new), other) == Some(
            put(at(v, other)->0, path.skip(other.len() as int), new),
        ),
    decreases path.len(),
{
    if other.len() > 0 {
        assert(other[0] == path[0]);
        let i = step(v, path[0])->0;
        let inner = put(child(v, i), path.drop_first(), new);
        lemma_step(v, path[0]);
        lemma_names_stay(v, path[0], i, inner);
        assert(other.drop_first() =~= path.drop_first().take(other.len() - 1));
        assert(path.drop_first().skip(other.len() - 1) =~= path.skip(other.len() as int));
        enclosing_places_change_only_there(
            child(v, i),
            path.drop_first(),
            new,
            other.drop_first(),
        );
    } else {
        assert(path.skip(0) =~= path);
    }
}

/// A step leads to the same place whatever is put in one of the children.
proof fn lemma_names_stay(v: JsonView, token: Seq<char>, i: int, new: JsonView)
    requires
        0 <= i < size(v),
    ensures
        step(with_child(v, i, new), token) == step(v, token),
{
    if let JsonView::Object(members) = v {
        lemma_members_stay(members, token, i, new, 0);
    }
}

proof fn lemma_members_stay(
    members: Seq<(Seq<char>, JsonView)>,
    token: Seq<char>,
    i: int,
    new: JsonView,
    from: int,
)
    requires
        0 <= i < members.len(),
        0 <= from,
    ensures
        member_from(members.update(i, (members[i].0, new)), token, from) == member_from(
            members,
            token,
            from,
        ),
    decreases members.len() - from,
{
    if from < members.len() {
        lemma_members_stay(members, token, i, new, from + 1);
    }
}

/// Two tokens never lead to one place.
proof fn lemma_steps_differ(v: JsonView, a: Seq<char>, b: Seq<char>)
    requires
        a != b,
        step(v, a) is Some,
        step(v, b) is Some,
    ensures
        step(v, a) != step(v, b),
{
    match v {
        JsonView::Object(members) => {
            lemma_member(members, a, 0);
            lemma_member(members, b, 0);
        },
        JsonView::Array(items) => {
            if index_of(a) == index_of(b) {
                lemma_index_is_injective(a, b);
            }
        },
        _ => {},
    }
}

/// Decimal digits with no leading zero.
spec fn plain(s: Seq<char>) -> bool {
    &&& s.len() > 0
    &&& text::all_digits(s)
    &&& s.len() > 1 ==> s[0] != '0'
}

proof fn lemma_index_is_injective(a: Seq<char>, b: Seq<char>)
    requires
        index_of(a) is Some,
        index_of(a) == index_of(b),
    ensures
        a == b,
{
    lemma_digits_are_injective(a, b);
}

proof fn lemma_value_of_long(a: Seq<char>)
    requires
        plain(a),
        a.len() > 1,
    ensures
        plain(a.drop_last()),
        text::digits_value(a.drop_last()) >= 1,
    decreases a.len(),
{
    let rest = a.drop_last();
    assert forall|i: int| 0 <= i < rest.len() implies text::is_digit(#[trigger] rest[i]) by {
        assert(rest[i] == a[i]);
    }
    assert(rest[0] == a[0]);
    if rest.len() > 1 {
        lemma_value_of_long(rest);
    } else {
        assert(rest.drop_last() =~= Seq::empty());
        assert(text::digits_value(rest.drop_last()) == 0);
        assert(text::is_digit(rest[0]));
    }
}

proof fn lemma_digits_are_injective(a: Seq<char>, b: Seq<char>)
    requires
        plain(a),
        plain(b),
        text::digits_value(a) == text::digits_value(b),
    ensures
        a == b,
    decreases a.len(),
{
    assert(text::is_digit(a.last()) && text::is_digit(b.last()));
    if a.len() > 1 {
        lemma_value_of_long(a);
    }
    if b.len() > 1 {
        lemma_value_of_long(b);
    }
    if a.len() == 1 {
        assert(a.drop_last() =~= Seq::empty());
        assert(text::digits_value(a.drop_last()) == 0);
    }
    if b.len() == 1 {
        assert(b.drop_last() =~= Seq::empty());
        assert(text::digits_value(b.drop_last()) == 0);
    }
    assert(text::digits_value(a.drop_last()) == text::digits_value(b.drop_last()));
    assert(a.last() == b.last());
    if a.len() > 1 && b.len() > 1 {
        lemma_digits_are_injective(a.drop_last(), b.drop_last());
    }
    assert(a =~= a.drop_last().push(a.last()));
    assert(b =~= b.drop_last().push(b.last()));
}

} // verus!
