//! Text as a sequence of characters.
//!
//! The specification half says what each operation yields on a `Seq<char>`;
//! the executable half computes it on `&str`.

use vstd::prelude::*;

verus! {

/// Unicode's `White_Space` property.
pub open spec fn is_white(c: char) -> bool {
    ||| '\u{9}' <= c <= '\u{d}'
    ||| c == '\u{20}'
    ||| c == '\u{85}'
    ||| c == '\u{a0}'
    ||| c == '\u{1680}'
    ||| '\u{2000}' <= c <= '\u{200a}'
    ||| c == '\u{2028}'
    ||| c == '\u{2029}'
    ||| c == '\u{202f}'
    ||| c == '\u{205f}'
    ||| c == '\u{3000}'
}

/// `s` without its leading white space.
pub open spec fn trimmed_start(s: Seq<char>) -> Seq<char>
    decreases s.len(),
{
    if s.len() > 0 && is_white(s[0]) {
        trimmed_start(s.drop_first())
    } else {
        s
    }
}

/// `s` without its trailing white space.
pub open spec fn trimmed_end(s: Seq<char>) -> Seq<char>
    decreases s.len(),
{
    if s.len() > 0 && is_white(s.last()) {
        trimmed_end(s.drop_last())
    } else {
        s
    }
}

/// `s` without white space at either end.
pub open spec fn trimmed(s: Seq<char>) -> Seq<char> {
    trimmed_end(trimmed_start(s))
}

/// Nothing but white space.
pub open spec fn blank(s: Seq<char>) -> bool {
    forall|i: int| 0 <= i < s.len() ==> is_white(#[trigger] s[i])
}

proof fn lemma_trimmed_start(before: Seq<char>, s: Seq<char>)
    requires
        blank(before),
        s.len() > 0 ==> !is_white(s[0]),
    ensures
        trimmed_start(before + s) == s,
    decreases before.len(),
{
    if before.len() > 0 {
        assert((before + s).drop_first() =~= before.drop_first() + s);
        assert((before + s)[0] == before[0]);
        lemma_trimmed_start(before.drop_first(), s);
    } else {
        assert(before + s =~= s);
    }
}

proof fn lemma_trimmed_end(s: Seq<char>, after: Seq<char>)
    requires
        blank(after),
        s.len() > 0 ==> !is_white(s.last()),
    ensures
        trimmed_end(s + after) == s,
    decreases after.len(),
{
    if after.len() > 0 {
        assert((s + after).drop_last() =~= s + after.drop_last());
        assert((s + after).last() == after.last());
        lemma_trimmed_end(s, after.drop_last());
    } else {
        assert(s + after =~= s);
    }
}

/// Trimming takes off white space around a text that has none at its ends.
pub(crate) proof fn lemma_trimmed(before: Seq<char>, s: Seq<char>, after: Seq<char>)
    requires
        blank(before),
        blank(after),
        s.len() > 0 ==> !is_white(s[0]) && !is_white(s.last()),
    ensures
        trimmed(before + s + after) == s,
{
    assert(before + s + after =~= before + (s + after));
    if s.len() > 0 {
        assert((s + after)[0] == s[0]);
        lemma_trimmed_start(before, s + after);
    } else {
        assert(before + s + after =~= (before + after) + s);
        lemma_trimmed_start(before + after, s);
    }
    lemma_trimmed_end(s, after);
    lemma_trimmed_end(s, Seq::empty());
    assert(s + Seq::<char>::empty() =~= s);
}

fn white(c: char) -> (r: bool)
    ensures
        r == is_white(c),
{
    ('\u{9}' <= c && c <= '\u{d}') || c == '\u{20}' || c == '\u{85}' || c == '\u{a0}' || c
        == '\u{1680}' || ('\u{2000}' <= c && c <= '\u{200a}') || c == '\u{2028}' || c == '\u{2029}'
        || c == '\u{202f}' || c == '\u{205f}' || c == '\u{3000}'
}

/// The characters of `s`, one by one.
pub(crate) fn chars_of(s: &str) -> (r: Vec<char>)
    ensures
        r@ == s@,
{
    let mut r: Vec<char> = Vec::new();
    for c in it: s.chars()
        invariant
            r@ == it.seq().take(it.index() as int),
            it.seq() == s@,
    {
        r.push(c);
    }
    r
}

pub(crate) fn trim<'a>(s: &'a str) -> (r: &'a str)
    ensures
        r@ == trimmed(s@),
{
    let v = chars_of(s);
    let mut from: usize = 0;
    assert(v@.skip(0) =~= v@);
    while from < v.len() && white(v[from])
        invariant
            v@ == s@,
            from <= v@.len(),
            trimmed_start(v@) == trimmed_start(v@.skip(from as int)),
        decreases v@.len() - from,
    {
        assert(v@.skip(from as int).drop_first() =~= v@.skip(from + 1));
        from = from + 1;
    }
    let mut to: usize = v.len();
    while from < to && white(v[to - 1])
        invariant
            v@ == s@,
            from <= to <= v@.len(),
            trimmed(s@) == trimmed_end(v@.subrange(from as int, to as int)),
        decreases to,
    {
        assert(v@.subrange(from as int, to as int).drop_last() =~= v@.subrange(
            from as int,
            to - 1,
        ));
        to = to - 1;
    }
    s.substring_char(from, to)
}

/// Whether `pattern` stands in `s` at index `i`.
pub open spec fn stands_at(s: Seq<char>, pattern: Seq<char>, i: int) -> bool {
    &&& 0 <= i
    &&& i + pattern.len() <= s.len()
    &&& s.subrange(i, i + pattern.len()) == pattern
}

/// The first index at or after `from` at which `pattern` stands in `s`.
pub open spec fn position_from(s: Seq<char>, pattern: Seq<char>, from: int) -> Option<int>
    decreases s.len() + 1 - from,
{
    if from + pattern.len() > s.len() {
        None
    } else if stands_at(s, pattern, from) {
        Some(from)
    } else {
        position_from(s, pattern, from + 1)
    }
}

/// Whether `pattern` stands anywhere in `s`.
pub open spec fn has(s: Seq<char>, pattern: Seq<char>) -> bool {
    position_from(s, pattern, 0) is Some
}

/// What stands before and after the first `pattern` in `s`.
pub open spec fn cut(s: Seq<char>, pattern: Seq<char>) -> Option<(Seq<char>, Seq<char>)> {
    match position_from(s, pattern, 0) {
        Some(i) => Some((s.take(i), s.skip(i + pattern.len()))),
        None => None,
    }
}

/// The first index at or after `from` whose character is one of `set`, or the
/// length of `s`.
pub open spec fn first_of(s: Seq<char>, set: Seq<char>, from: int) -> int
    decreases s.len() - from,
{
    if from >= s.len() {
        s.len() as int
    } else if set.contains(s[from]) {
        from
    } else {
        first_of(s, set, from + 1)
    }
}

/// `s` up to the first character of `set`, or all of `s`.
pub open spec fn before_any(s: Seq<char>, set: Seq<char>) -> Seq<char> {
    s.take(first_of(s, set, 0))
}

/// The last index of `c` in `s`.
pub open spec fn last_index(s: Seq<char>, c: char) -> Option<int>
    decreases s.len(),
{
    if s.len() == 0 {
        None
    } else if s.last() == c {
        Some(s.len() - 1)
    } else {
        last_index(s.drop_last(), c)
    }
}

/// What stands before and after the last `c` in `s`.
pub open spec fn cut_last(s: Seq<char>, c: char) -> Option<(Seq<char>, Seq<char>)> {
    match last_index(s, c) {
        Some(i) => Some((s.take(i), s.skip(i + 1))),
        None => None,
    }
}

/// What stands after the last `c` in `s`, or all of `s`.
pub open spec fn after_last(s: Seq<char>, c: char) -> Seq<char> {
    match last_index(s, c) {
        Some(i) => s.skip(i + 1),
        None => s,
    }
}

/// What stands between the occurrences of `c` in `s`.
pub open spec fn pieces(s: Seq<char>, c: char) -> Seq<Seq<char>>
    decreases s.len(),
{
    let i = first_of(s, seq![c], 0);
    if 0 <= i < s.len() {
        seq![s.take(i)] + pieces(s.skip(i + 1), c)
    } else {
        seq![s]
    }
}

/// `c` with an ASCII capital made small.
pub open spec fn ascii_lower(c: char) -> u32 {
    if 'A' <= c <= 'Z' {
        (c as u32 + 32) as u32
    } else {
        c as u32
    }
}

/// Equality that does not tell ASCII capitals from small letters.
pub open spec fn same_ignoring_case(a: Seq<char>, b: Seq<char>) -> bool {
    &&& a.len() == b.len()
    &&& forall|i: int| 0 <= i < a.len() ==> #[trigger] ascii_lower(a[i]) == ascii_lower(b[i])
}

/// The value of a decimal digit.
pub open spec fn digit_value(c: char) -> nat {
    (c as u32 - '0' as u32) as nat
}

pub open spec fn is_digit(c: char) -> bool {
    '0' <= c <= '9'
}

/// The number that a run of decimal digits writes.
pub open spec fn digits_value(s: Seq<char>) -> nat
    decreases s.len(),
{
    if s.len() == 0 {
        0
    } else {
        digits_value(s.drop_last()) * 10 + digit_value(s.last())
    }
}

pub open spec fn all_digits(s: Seq<char>) -> bool {
    forall|i: int| 0 <= i < s.len() ==> is_digit(#[trigger] s[i])
}

/// The number that `s` writes, if it is an optional `+` and then decimal
/// digits, and no more than `max`.
pub open spec fn number(s: Seq<char>, max: nat) -> Option<nat> {
    let digits = if s.len() > 0 && s[0] == '+' {
        s.skip(1)
    } else {
        s
    };
    if digits.len() > 0 && all_digits(digits) && digits_value(digits) <= max {
        Some(digits_value(digits))
    } else {
        None
    }
}

/// `n` in decimal.
pub open spec fn decimal(n: nat) -> Seq<char>
    decreases n,
{
    if n < 10 {
        seq![('0' as u32 + n) as char]
    } else {
        decimal(n / 10).push(('0' as u32 + n % 10) as char)
    }
}

/// The texts of `parts` with `separator` between each two.
pub open spec fn joined(parts: Seq<Seq<char>>, separator: Seq<char>) -> Seq<char>
    decreases parts.len(),
{
    if parts.len() == 0 {
        Seq::empty()
    } else if parts.len() == 1 {
        parts[0]
    } else {
        joined(parts.drop_last(), separator) + separator + parts.last()
    }
}

/// The characters of an optional text.
pub open spec fn text_of(s: Option<String>) -> Option<Seq<char>> {
    match s {
        Some(t) => Some(t@),
        None => None,
    }
}

/// The characters of an optional borrowed text.
pub open spec fn str_of(s: Option<&str>) -> Option<Seq<char>> {
    match s {
        Some(t) => Some(t@),
        None => None,
    }
}

/// The characters of each text of a list.
pub open spec fn texts_of(v: Seq<String>) -> Seq<Seq<char>> {
    v.map_values(|s: String| s@)
}

fn stands(v: &Vec<char>, p: &Vec<char>, i: usize) -> (r: bool)
    requires
        i + p@.len() <= v@.len(),
    ensures
        r == stands_at(v@, p@, i as int),
{
    let n: usize = v.len();
    let mut k: usize = 0;
    while k < p.len()
        invariant
            k <= p@.len(),
            i + p@.len() <= v@.len() == n,
            forall|j: int| 0 <= j < k ==> v@[i + j] == #[trigger] p@[j],
        decreases p@.len() - k,
    {
        if v[i + k] != p[k] {
            assert(v@.subrange(i as int, i + p@.len())[k as int] != p@[k as int]);
            return false;
        }
        k = k + 1;
    }
    assert(v@.subrange(i as int, i + p@.len()) =~= p@);
    true
}

/// The first place of `pattern` in `s`, counted in characters.
fn place_of(s: &str, pattern: &str) -> (r: Option<usize>)
    ensures
        match r {
            Some(i) => position_from(s@, pattern@, 0) == Some(i as int) && i + pattern@.len()
                <= s@.len(),
            None => position_from(s@, pattern@, 0) is None,
        },
{
    let v = chars_of(s);
    let p = chars_of(pattern);
    if p.len() > v.len() {
        return None;
    }
    let mut i: usize = 0;
    let last: usize = v.len() - p.len();
    while i <= last
        invariant
            v@ == s@,
            p@ == pattern@,
            last + p@.len() == v@.len(),
            i <= last + 1,
            v@.len() <= usize::MAX,
            position_from(s@, pattern@, 0) == position_from(s@, pattern@, i as int),
        decreases last + 1 - i,
    {
        if stands(&v, &p, i) {
            return Some(i);
        }
        if i == last {
            assert(position_from(s@, pattern@, i + 1) is None);
            return None;
        }
        i = i + 1;
    }
    None
}

pub(crate) fn contains(s: &str, pattern: &str) -> (r: bool)
    ensures
        r == has(s@, pattern@),
{
    place_of(s, pattern).is_some()
}

pub(crate) fn split_once<'a>(s: &'a str, pattern: &str) -> (r: Option<(&'a str, &'a str)>)
    ensures
        match r {
            Some((a, b)) => cut(s@, pattern@) == Some((a@, b@)),
            None => cut(s@, pattern@) is None,
        },
{
    match place_of(s, pattern) {
        Some(i) => {
            let n = pattern.unicode_len();
            let all = s.unicode_len();
            Some((s.substring_char(0, i), s.substring_char(i + n, all)))
        },
        None => None,
    }
}

pub(crate) fn starts_with(s: &str, pattern: &str) -> (r: bool)
    ensures
        r == pattern@.is_prefix_of(s@),
{
    let v = chars_of(s);
    let p = chars_of(pattern);
    if p.len() > v.len() {
        return false;
    }
    let r = stands(&v, &p, 0);
    r
}

pub(crate) fn strip_prefix<'a>(s: &'a str, pattern: &str) -> (r: Option<&'a str>)
    ensures
        r is Some <==> pattern@.is_prefix_of(s@),
        r matches Some(t) ==> t@ == s@.skip(pattern@.len() as int),
{
    if starts_with(s, pattern) {
        let n: usize = pattern.unicode_len();
        let all: usize = s.unicode_len();
        Some(s.substring_char(n, all))
    } else {
        None
    }
}

/// What begins with a pattern has its first character.
pub(crate) proof fn lemma_prefix_starts(s: Seq<char>, pattern: Seq<char>)
    requires
        pattern.len() > 0,
    ensures
        pattern.is_prefix_of(s) ==> s.len() > 0 && s[0] == pattern[0],
{
    if pattern.is_prefix_of(s) {
        assert(s.take(pattern.len() as int)[0] == s[0]);
    }
}

/// A pattern of one character stands at the start of what begins with it.
pub(crate) proof fn lemma_one_char_prefix(s: Seq<char>, pattern: Seq<char>, c: char)
    requires
        pattern.len() == 1,
        pattern[0] == c,
    ensures
        pattern.is_prefix_of(s) <==> s.len() > 0 && s[0] == c,
{
    if s.len() > 0 && s[0] == c {
        assert(pattern =~= s.take(1));
    }
}

/// Whether two texts hold the same characters.
pub(crate) fn same(a: &str, b: &str) -> (r: bool)
    ensures
        r == (a@ == b@),
{
    let v = chars_of(a);
    let w = chars_of(b);
    if v.len() != w.len() {
        return false;
    }
    let mut i: usize = 0;
    while i < v.len()
        invariant
            v@ == a@,
            w@ == b@,
            v@.len() == w@.len(),
            i <= v@.len(),
            forall|j: int| 0 <= j < i ==> v@[j] == w@[j],
        decreases v@.len() - i,
    {
        if v[i] != w[i] {
            return false;
        }
        i = i + 1;
    }
    assert(v@ =~= w@);
    true
}

fn one_of(c: char, set: &Vec<char>) -> (r: bool)
    ensures
        r == set@.contains(c),
{
    let mut i: usize = 0;
    while i < set.len()
        invariant
            i <= set@.len(),
            forall|j: int| 0 <= j < i ==> set@[j] != c,
        decreases set@.len() - i,
    {
        if set[i] == c {
            return true;
        }
        i = i + 1;
    }
    false
}

pub(crate) proof fn lemma_first_of(s: Seq<char>, set: Seq<char>, from: int)
    requires
        0 <= from <= s.len(),
    ensures
        from <= first_of(s, set, from) <= s.len(),
        first_of(s, set, from) < s.len() ==> set.contains(s[first_of(s, set, from)]),
    decreases s.len() - from,
{
    if from < s.len() && !set.contains(s[from]) {
        lemma_first_of(s, set, from + 1);
    }
}

pub(crate) fn up_to_any<'a>(s: &'a str, set: &str) -> (r: &'a str)
    ensures
        r@ == before_any(s@, set@),
{
    let v = chars_of(s);
    let w = chars_of(set);
    let mut i: usize = 0;
    while i < v.len()
        invariant
            v@ == s@,
            w@ == set@,
            i <= v@.len(),
            first_of(s@, set@, 0) == first_of(s@, set@, i as int),
        decreases v@.len() - i,
    {
        if one_of(v[i], &w) {
            return s.substring_char(0, i);
        }
        i = i + 1;
    }
    s.substring_char(0, i)
}

pub(crate) fn split(s: &str, c: char) -> (r: Vec<String>)
    ensures
        texts_of(r@) == pieces(s@, c),
{
    let v = chars_of(s);
    let n: usize = v.len();
    let mut r: Vec<String> = Vec::new();
    let mut from: usize = 0;
    let mut i: usize = 0;
    assert(texts_of(r@) + pieces(s@.skip(0), c) =~= pieces(s@, c)) by {
        assert(s@.skip(0) =~= s@);
    }
    while i < n
        invariant
            v@ == s@,
            n == v@.len(),
            from <= i <= n,
            first_of(s@.skip(from as int), seq![c], 0) == first_of(
                s@.skip(from as int),
                seq![c],
                i - from,
            ),
            pieces(s@, c) == texts_of(r@) + pieces(s@.skip(from as int), c),
        decreases n - i,
    {
        let ghost rest = s@.skip(from as int);
        assert(rest[i - from] == v@[i as int]);
        assert(seq![c].contains(rest[i - from]) <==> rest[i - from] == c) by {
            assert(seq![c][0] == c);
        }
        if v[i] == c {
            let ghost before = texts_of(r@);
            r.push(s.substring_char(from, i).to_owned());
            assert(s@.subrange(from as int, i as int) =~= rest.take(i - from));
            assert(texts_of(r@) =~= before.push(rest.take(i - from)));
            assert(rest.skip(i - from + 1) =~= s@.skip(i + 1));
            from = i + 1;
            assert(pieces(s@, c) =~= texts_of(r@) + pieces(s@.skip(from as int), c));
        }
        i = i + 1;
    }
    let ghost before = texts_of(r@);
    let ghost rest = s@.skip(from as int);
    r.push(s.substring_char(from, n).to_owned());
    assert(s@.subrange(from as int, n as int) =~= rest);
    assert(texts_of(r@) =~= before.push(rest));
    assert(pieces(s@, c) =~= texts_of(r@));
    r
}

pub(crate) fn rsplit_once<'a>(s: &'a str, c: char) -> (r: Option<(&'a str, &'a str)>)
    ensures
        match r {
            Some((a, b)) => cut_last(s@, c) == Some((a@, b@)),
            None => cut_last(s@, c) is None,
        },
{
    let v = chars_of(s);
    let mut n: usize = v.len();
    assert(v@.take(n as int) =~= v@);
    while n > 0
        invariant
            v@ == s@,
            n <= v@.len(),
            last_index(s@, c) == last_index(v@.take(n as int), c),
        decreases n,
    {
        assert(v@.take(n as int).drop_last() =~= v@.take(n - 1));
        if v[n - 1] == c {
            return Some((s.substring_char(0, n - 1), s.substring_char(n, v.len())));
        }
        n = n - 1;
    }
    None
}

pub(crate) fn tail_after<'a>(s: &'a str, c: char) -> (r: &'a str)
    ensures
        r@ == after_last(s@, c),
{
    match rsplit_once(s, c) {
        Some((_, tail)) => tail,
        None => s,
    }
}

fn lower(c: char) -> (r: u32)
    ensures
        r == ascii_lower(c),
{
    if 'A' <= c && c <= 'Z' {
        c as u32 + 32
    } else {
        c as u32
    }
}

pub(crate) fn eq_ignore_ascii_case(a: &str, b: &str) -> (r: bool)
    ensures
        r == same_ignoring_case(a@, b@),
{
    let v = chars_of(a);
    let w = chars_of(b);
    if v.len() != w.len() {
        return false;
    }
    let mut i: usize = 0;
    while i < v.len()
        invariant
            v@ == a@,
            w@ == b@,
            v@.len() == w@.len(),
            i <= v@.len(),
            forall|j: int| 0 <= j < i ==> #[trigger] ascii_lower(v@[j]) == ascii_lower(w@[j]),
        decreases v@.len() - i,
    {
        if lower(v[i]) != lower(w[i]) {
            assert(ascii_lower(v@[i as int]) != ascii_lower(w@[i as int]));
            return false;
        }
        i = i + 1;
    }
    true
}

proof fn lemma_digits_grow(s: Seq<char>, n: int)
    requires
        0 <= n <= s.len(),
    ensures
        digits_value(s.take(n)) <= digits_value(s),
    decreases s.len(),
{
    if n == s.len() {
        assert(s.take(n) =~= s);
    } else {
        lemma_digits_grow(s.drop_last(), n);
        assert(s.drop_last().take(n) =~= s.take(n));
    }
}

pub(crate) fn parse_number(s: &str, max: u64) -> (r: Option<u64>)
    ensures
        match r {
            Some(n) => number(s@, max as nat) == Some(n as nat),
            None => number(s@, max as nat) is None,
        },
{
    let v = chars_of(s);
    let start: usize = if v.len() > 0 && v[0] == '+' {
        1
    } else {
        0
    };
    let ghost digits = v@.skip(start as int);
    assert(start == 0 ==> digits =~= v@);
    if v.len() == start {
        return None;
    }
    let mut value: u128 = 0;
    let mut i: usize = start;
    assert(digits.take(0) =~= Seq::empty());
    while i < v.len()
        invariant
            start <= i <= v@.len(),
            digits == v@.skip(start as int),
            value == digits_value(digits.take(i - start)),
            value <= max,
            forall|j: int| 0 <= j < i - start ==> is_digit(#[trigger] digits[j]),
            digits == (if s@.len() > 0 && s@[0] == '+' {
                s@.skip(1)
            } else {
                s@
            }),
        decreases v@.len() - i,
    {
        let c = v[i];
        assert(digits[i - start] == c);
        if !('0' <= c && c <= '9') {
            assert(!all_digits(digits));
            return None;
        }
        value = value * 10 + (c as u128 - '0' as u128);
        assert(digits.take(i + 1 - start).drop_last() =~= digits.take(i - start));
        if value > max as u128 {
            proof {
                lemma_digits_grow(digits, i + 1 - start);
            }
            return None;
        }
        i = i + 1;
    }
    assert(digits.take(i - start) =~= digits);
    Some(value as u64)
}

fn digit_text(d: u64) -> (r: &'static str)
    requires
        d < 10,
    ensures
        r@ == seq![('0' as u32 + d) as char],
{
    proof {
        reveal_strlit("0");
        reveal_strlit("1");
        reveal_strlit("2");
        reveal_strlit("3");
        reveal_strlit("4");
        reveal_strlit("5");
        reveal_strlit("6");
        reveal_strlit("7");
        reveal_strlit("8");
        reveal_strlit("9");
    }
    if d == 0 {
        "0"
    } else if d == 1 {
        "1"
    } else if d == 2 {
        "2"
    } else if d == 3 {
        "3"
    } else if d == 4 {
        "4"
    } else if d == 5 {
        "5"
    } else if d == 6 {
        "6"
    } else if d == 7 {
        "7"
    } else if d == 8 {
        "8"
    } else {
        "9"
    }
}

pub(crate) fn decimal_text(n: u64) -> (r: String)
    ensures
        r@ == decimal(n as nat),
    decreases n,
{
    let last = digit_text(n % 10);
    if n < 10 {
        last.to_owned()
    } else {
        let mut r = decimal_text(n / 10);
        r.append(last);
        assert(r@ =~= decimal(n as nat));
        r
    }
}

pub(crate) fn join(parts: &Vec<String>, separator: &str) -> (r: String)
    ensures
        r@ == joined(texts_of(parts@), separator@),
{
    let mut r = String::new();
    let mut i: usize = 0;
    let ghost all = texts_of(parts@);
    while i < parts.len()
        invariant
            i <= parts@.len(),
            all == texts_of(parts@),
            r@ == joined(all.take(i as int), separator@),
        decreases parts@.len() - i,
    {
        if i > 0 {
            r.append(separator);
        }
        r.append(parts[i].as_str());
        assert(all.take(i + 1).drop_last() =~= all.take(i as int));
        assert(r@ =~= joined(all.take(i + 1), separator@));
        i = i + 1;
    }
    assert(all.take(i as int) =~= all);
    r
}

pub(crate) fn concat2(a: &str, b: &str) -> (r: String)
    ensures
        r@ == a@ + b@,
{
    let mut r = a.to_owned();
    r.append(b);
    r
}

pub(crate) fn concat3(a: &str, b: &str, c: &str) -> (r: String)
    ensures
        r@ == a@ + b@ + c@,
{
    let mut r = a.to_owned();
    r.append(b);
    r.append(c);
    r
}

pub(crate) fn concat5(a: &str, b: &str, c: &str, d: &str, e: &str) -> (r: String)
    ensures
        r@ == a@ + b@ + c@ + d@ + e@,
{
    let mut r = a.to_owned();
    r.append(b);
    r.append(c);
    r.append(d);
    r.append(e);
    r
}

/// `s` as `{:?}` writes it: in double quotes, with escapes.
pub uninterp spec fn quoted(s: Seq<char>) -> Seq<char>;

/// Calls `<str as Debug>::fmt` through `format!`. Which characters it escapes
/// follows Unicode tables, so its result only has a name; that the name is a
/// function of the text alone is trusted.
#[verifier::external_body]
pub(crate) fn debug_text(s: &str) -> (r: String)
    ensures
        r@ == quoted(s@),
{
    format!("{s:?}")
}

} // verus!
