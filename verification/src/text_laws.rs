//! What the operations on text promise, whatever the text.

use vstd::prelude::*;

use crate::text;

verus! {

/// White space is what Unicode calls so: the ASCII controls from tab to
/// carriage return, the spaces and the line and paragraph separators.
pub proof fn white_space_is_what_unicode_says(c: char)
    ensures
        text::is_white(c) <==> {
            let n = c as u32;
            ||| 9 <= n <= 13
            ||| n == 32
            ||| n == 133
            ||| n == 160
            ||| n == 5760
            ||| 8192 <= n <= 8202
            ||| n == 8232
            ||| n == 8233
            ||| n == 8239
            ||| n == 8287
            ||| n == 12288
        },
{
}

proof fn lemma_start(s: Seq<char>) -> (n: int)
    ensures
        0 <= n <= s.len(),
        text::trimmed_start(s) == s.skip(n),
        text::blank(s.take(n)),
        n < s.len() ==> !text::is_white(s[n]),
    decreases s.len(),
{
    if s.len() > 0 && text::is_white(s[0]) {
        let m = lemma_start(s.drop_first());
        assert(s.drop_first().skip(m) =~= s.skip(m + 1));
        assert forall|i: int| 0 <= i < m + 1 implies text::is_white(#[trigger] s.take(m + 1)[i]) by {
            if i > 0 {
                assert(s.drop_first().take(m)[i - 1] == s[i]);
            }
        }
        m + 1
    } else {
        assert(s.skip(0) =~= s);
        0
    }
}

proof fn lemma_end(s: Seq<char>) -> (n: int)
    ensures
        0 <= n <= s.len(),
        text::trimmed_end(s) == s.take(n),
        text::blank(s.skip(n)),
        n > 0 ==> !text::is_white(s[n - 1]),
    decreases s.len(),
{
    if s.len() > 0 && text::is_white(s.last()) {
        let m = lemma_end(s.drop_last());
        assert(s.drop_last().take(m) =~= s.take(m));
        assert forall|i: int| 0 <= i < s.len() - m implies text::is_white(
            #[trigger] s.skip(m)[i],
        ) by {
            if i < s.len() - m - 1 {
                assert(s.drop_last().skip(m)[i] == s[m + i]);
            }
        }
        m
    } else {
        assert(s.take(s.len() as int) =~= s);
        s.len() as int
    }
}

/// Trimming takes white space off both ends and nothing else: what is left
/// neither begins nor ends with it.
pub proof fn trimming_takes_only_white_space(s: Seq<char>) -> (around: (Seq<char>, Seq<char>))
    ensures
        text::blank(around.0),
        text::blank(around.1),
        s == around.0 + text::trimmed(s) + around.1,
        text::trimmed(s).len() > 0 ==> {
            &&& !text::is_white(text::trimmed(s)[0])
            &&& !text::is_white(text::trimmed(s).last())
        },
{
    let n = lemma_start(s);
    let rest = s.skip(n);
    let m = lemma_end(rest);
    assert(s =~= s.take(n) + rest.take(m) + rest.skip(m));
    (s.take(n), rest.skip(m))
}

/// Nothing is left of a text exactly where it holds nothing but white space.
pub proof fn only_white_space_is_trimmed_away(s: Seq<char>)
    ensures
        text::trimmed(s).len() == 0 <==> text::blank(s),
{
    let (before, after) = trimming_takes_only_white_space(s);
    let t = text::trimmed(s);
    if t.len() == 0 {
        assert forall|i: int| 0 <= i < s.len() implies text::is_white(#[trigger] s[i]) by {
            if i < before.len() {
                assert(s[i] == before[i]);
            } else {
                assert(s[i] == after[i - before.len()]);
            }
        }
    } else {
        assert(s[before.len() as int] == t[0]);
    }
}

proof fn lemma_position(s: Seq<char>, pattern: Seq<char>, from: int)
    requires
        0 <= from,
    ensures
        match text::position_from(s, pattern, from) {
            Some(i) => {
                &&& from <= i
                &&& i + pattern.len() <= s.len()
                &&& s.subrange(i, i + pattern.len()) == pattern
                &&& forall|k: int|
                    from <= k < i ==> #[trigger] s.subrange(k, k + pattern.len()) != pattern
            },
            None => forall|k: int|
                from <= k <= s.len() - pattern.len() ==> #[trigger] s.subrange(
                    k,
                    k + pattern.len(),
                ) != pattern,
        },
    decreases s.len() + 1 - from,
{
    if from + pattern.len() <= s.len() && !text::stands_at(s, pattern, from) {
        lemma_position(s, pattern, from + 1);
    }
}

/// A text holds a pattern exactly where the pattern stands somewhere in it.
pub proof fn a_pattern_is_found_where_it_stands(s: Seq<char>, pattern: Seq<char>)
    ensures
        text::has(s, pattern) <==> exists|i: int|
            0 <= i <= s.len() - pattern.len() && #[trigger] s.subrange(i, i + pattern.len())
                == pattern,
{
    lemma_position(s, pattern, 0);
}

/// Cutting at a pattern takes out its first occurrence: what stands before and
/// after it, with it between, is the text again, and the pattern stands nowhere
/// earlier. Where it does not stand at all, there is nothing to cut.
pub proof fn a_text_is_cut_at_the_first_occurrence(s: Seq<char>, pattern: Seq<char>)
    ensures
        match text::cut(s, pattern) {
            Some((a, b)) => {
                &&& s == a + pattern + b
                &&& forall|k: int|
                    0 <= k < a.len() ==> #[trigger] s.subrange(k, k + pattern.len()) != pattern
            },
            None => forall|k: int|
                0 <= k <= s.len() - pattern.len() ==> #[trigger] s.subrange(k, k + pattern.len())
                    != pattern,
        },
{
    lemma_position(s, pattern, 0);
    if let Some(i) = text::position_from(s, pattern, 0) {
        assert(s =~= s.take(i) + s.subrange(i, i + pattern.len()) + s.skip(i + pattern.len()));
    }
}

/// Where one character is the pattern, the part before it holds none.
pub proof fn a_text_is_cut_at_the_first_character(a: Seq<char>, c: char, b: Seq<char>)
    requires
        !a.contains(c),
    ensures
        text::cut(a + seq![c] + b, seq![c]) == Some((a, b)),
{
    let s = a + seq![c] + b;
    lemma_position(s, seq![c], 0);
    assert(s.subrange(a.len() as int, a.len() as int + 1) =~= seq![c]);
    let i = text::position_from(s, seq![c], 0)->0;
    assert(text::position_from(s, seq![c], 0) is Some);
    if i < a.len() {
        assert(s.subrange(i, i + 1)[0] == s[i]);
        assert(a[i] == c);
    }
    assert(i == a.len());
    assert(s.take(i) =~= a);
    assert(s.skip(i + 1) =~= b);
}

/// What stands before any character of a set is a start of the text that holds
/// none of them, and it ends where the first of them is or with the text.
pub proof fn the_start_ends_before_the_set(s: Seq<char>, set: Seq<char>)
    ensures
        ({
            let a = text::before_any(s, set);
            &&& a.is_prefix_of(s)
            &&& forall|i: int| 0 <= i < a.len() ==> !set.contains(#[trigger] a[i])
            &&& a.len() < s.len() ==> set.contains(s[a.len() as int])
        }),
{
    lemma_first(s, set, 0);
}

proof fn lemma_first(s: Seq<char>, set: Seq<char>, from: int)
    requires
        0 <= from <= s.len(),
    ensures
        ({
            let n = text::first_of(s, set, from);
            &&& from <= n <= s.len()
            &&& forall|i: int| from <= i < n ==> !set.contains(#[trigger] s[i])
            &&& n < s.len() ==> set.contains(s[n])
        }),
    decreases s.len() - from,
{
    if from < s.len() && !set.contains(s[from]) {
        lemma_first(s, set, from + 1);
    }
}

proof fn lemma_last(s: Seq<char>, c: char)
    ensures
        match text::last_index(s, c) {
            Some(i) => {
                &&& 0 <= i < s.len()
                &&& s[i] == c
                &&& forall|k: int| i < k < s.len() ==> #[trigger] s[k] != c
            },
            None => !s.contains(c),
        },
    decreases s.len(),
{
    if s.len() > 0 && s.last() != c {
        let t = s.drop_last();
        lemma_last(t, c);
        assert forall|k: int| 0 <= k < t.len() implies t[k] == s[k] by {}
        match text::last_index(t, c) {
            Some(i) => {
                assert forall|k: int| i < k < s.len() implies #[trigger] s[k] != c by {
                    if k < t.len() {
                        assert(t[k] != c);
                    }
                }
            },
            None => {
                assert forall|k: int| 0 <= k < s.len() implies s[k] != c by {
                    if k < t.len() {
                        assert(t.contains(t[k]));
                    }
                }
            },
        }
    }
}

/// Cutting at the last of a character leaves none of it after the cut; what
/// stands before and after, with the character between, is the text again.
/// What stands after the last of it is all of the text where there is none.
pub proof fn a_text_is_cut_at_the_last_occurrence(s: Seq<char>, c: char)
    ensures
        match text::cut_last(s, c) {
            Some((a, b)) => s == a + seq![c] + b && !b.contains(c) && text::after_last(s, c) == b,
            None => !s.contains(c) && text::after_last(s, c) == s,
        },
{
    lemma_last(s, c);
    if let Some(i) = text::last_index(s, c) {
        assert(s =~= s.take(i) + seq![c] + s.skip(i + 1));
        let b = s.skip(i + 1);
        assert forall|k: int| 0 <= k < b.len() implies #[trigger] b[k] != c by {
            assert(s[i + 1 + k] != c);
        }
    }
}

/// And it is cut nowhere else: a text put together so is taken apart so.
pub proof fn the_last_cut_is_the_only_one(a: Seq<char>, c: char, b: Seq<char>)
    requires
        !b.contains(c),
    ensures
        text::cut_last(a + seq![c] + b, c) == Some((a, b)),
        text::after_last(a + seq![c] + b, c) == b,
{
    let s = a + seq![c] + b;
    lemma_last(s, c);
    assert(s[a.len() as int] == c);
    assert(s.contains(c));
    let i = text::last_index(s, c)->0;
    if i > a.len() {
        assert(b[i - a.len() - 1] == c);
    }
    assert(i == a.len());
    assert(s.take(i) =~= a);
    assert(s.skip(i + 1) =~= b);
}

/// A text goes into pieces at a character and comes together again with it.
pub proof fn pieces_come_together_again(s: Seq<char>, c: char)
    ensures
        text::pieces(s, c).len() > 0,
        text::joined(text::pieces(s, c), seq![c]) == s,
        forall|i: int|
            0 <= i < text::pieces(s, c).len() ==> !(#[trigger] text::pieces(s, c)[i]).contains(c),
    decreases s.len(),
{
    lemma_first(s, seq![c], 0);
    let i = text::first_of(s, seq![c], 0);
    if i < s.len() {
        assert(s[i] == c);
        let rest = s.skip(i + 1);
        pieces_come_together_again(rest, c);
        lemma_joined_first(s.take(i), text::pieces(rest, c), seq![c]);
        assert(s =~= s.take(i) + seq![c] + rest);
        assert forall|k: int| 0 <= k < text::pieces(s, c).len() implies !(
        #[trigger] text::pieces(s, c)[k]).contains(c) by {
            if k == 0 {
                let start = s.take(i);
                assert forall|m: int| 0 <= m < i implies #[trigger] start[m] != c by {
                    assert(!seq![c].contains(s[m]));
                    assert(seq![c][0] == c);
                }
            } else {
                assert(text::pieces(s, c)[k] == text::pieces(rest, c)[k - 1]);
            }
        }
    } else {
        assert forall|m: int| 0 <= m < s.len() implies s[m] != c by {
            assert(!seq![c].contains(s[m]));
            assert(seq![c][0] == c);
        }
        assert(text::pieces(s, c) =~= seq![s]);
    }
}

proof fn lemma_joined_first(first: Seq<char>, rest: Seq<Seq<char>>, separator: Seq<char>)
    requires
        rest.len() > 0,
    ensures
        text::joined(seq![first] + rest, separator) == first + separator + text::joined(
            rest,
            separator,
        ),
    decreases rest.len(),
{
    let all = seq![first] + rest;
    assert(all.drop_last() =~= seq![first] + rest.drop_last());
    assert(all.last() == rest.last());
    reveal_with_fuel(text::joined, 2);
    if rest.len() == 1 {
        assert(all.drop_last() =~= seq![first]);
        assert(all.drop_last()[0] == first);
        assert(first + separator + rest[0] =~= text::joined(all, separator));
    } else {
        lemma_joined_first(first, rest.drop_last(), separator);
        assert(text::joined(all, separator) =~= first + separator + text::joined(rest, separator));
    }
}

/// Joining puts the separator between each two texts and nowhere else.
pub proof fn texts_are_joined_one_by_one(first: Seq<char>, rest: Seq<Seq<char>>, separator: Seq<char>)
    ensures
        text::joined(Seq::<Seq<char>>::empty(), separator) == Seq::<char>::empty(),
        text::joined(seq![first], separator) == first,
        rest.len() > 0 ==> text::joined(seq![first] + rest, separator) == first + separator
            + text::joined(rest, separator),
{
    if rest.len() > 0 {
        lemma_joined_first(first, rest, separator);
    }
}

/// A number in decimal is read as itself again, has only digits, and no
/// leading zero.
pub proof fn a_decimal_is_read_again(n: nat)
    ensures
        text::decimal(n).len() > 0,
        text::all_digits(text::decimal(n)),
        text::digits_value(text::decimal(n)) == n,
        n > 0 ==> text::decimal(n)[0] != '0',
        forall|max: nat| n <= max ==> #[trigger] text::number(text::decimal(n), max) == Some(n),
        forall|max: nat| n > max ==> #[trigger] text::number(text::decimal(n), max) is None,
    decreases n,
{
    reveal_with_fuel(text::digits_value, 2);
    if n < 10 {
        let d = text::decimal(n);
        assert(d.drop_last() =~= Seq::empty());
    } else {
        a_decimal_is_read_again(n / 10);
        let d = text::decimal(n);
        assert(d.drop_last() =~= text::decimal(n / 10));
        assert forall|i: int| 0 <= i < d.len() implies text::is_digit(#[trigger] d[i]) by {
            if i < d.len() - 1 {
                assert(d[i] == text::decimal(n / 10)[i]);
            }
        }
        assert(d[0] == text::decimal(n / 10)[0]);
    }
    assert(text::is_digit(text::decimal(n)[0]));
}

/// Each further digit counts ten times what stands before it, and a digit
/// counts what it shows.
pub proof fn digits_count_by_tens(s: Seq<char>, c: char)
    requires
        '0' <= c <= '9',
    ensures
        text::digits_value(Seq::<char>::empty()) == 0,
        text::digits_value(s.push(c)) == 10 * text::digits_value(s) + (c as u32 - 48),
{
    assert(s.push(c).drop_last() =~= s);
}

/// A number is an optional plus sign and then at least one digit and nothing
/// else.
pub proof fn only_digits_make_a_number(s: Seq<char>, max: nat)
    ensures
        text::number(s, max) is Some ==> {
            let digits = if s.len() > 0 && s[0] == '+' {
                s.skip(1)
            } else {
                s
            };
            &&& digits.len() > 0
            &&& forall|i: int| 0 <= i < digits.len() ==> '0' <= #[trigger] digits[i] <= '9'
            &&& text::number(s, max) == Some(text::digits_value(digits))
            &&& text::number(s, max)->0 <= max
        },
{
    if text::number(s, max) is Some {
        let digits = if s.len() > 0 && s[0] == '+' {
            s.skip(1)
        } else {
            s
        };
        assert forall|i: int| 0 <= i < digits.len() implies '0' <= #[trigger] digits[i] <= '9' by {
            assert(text::is_digit(digits[i]));
        }
    }
}

/// Whether two characters are the same but for an ASCII capital.
pub open spec fn same_letter(x: char, y: char) -> bool {
    ||| x == y
    ||| 'A' <= x <= 'Z' && y as u32 == x as u32 + 32
    ||| 'A' <= y <= 'Z' && x as u32 == y as u32 + 32
}

proof fn lemma_same_letter(x: char, y: char)
    ensures
        text::ascii_lower(x) == text::ascii_lower(y) <==> same_letter(x, y),
{
    assert('A' as u32 == 65 && 'Z' as u32 == 90);
}

/// Two texts are the same but for ASCII capitals exactly where each two
/// characters are the same, or are the capital and the small form of one ASCII
/// letter.
pub proof fn only_ascii_case_is_ignored(a: Seq<char>, b: Seq<char>)
    ensures
        text::same_ignoring_case(a, b) <==> a.len() == b.len() && forall|i: int|
            0 <= i < a.len() ==> same_letter(#[trigger] a[i], b[i]),
{
    if a.len() == b.len() {
        assert forall|i: int| 0 <= i < a.len() implies (text::ascii_lower(a[i])
            == text::ascii_lower(b[i]) <==> same_letter(#[trigger] a[i], b[i])) by {
            lemma_same_letter(a[i], b[i]);
        }
        if text::same_ignoring_case(a, b) {
            assert forall|i: int| 0 <= i < a.len() implies same_letter(#[trigger] a[i], b[i]) by {
                assert(text::ascii_lower(a[i]) == text::ascii_lower(b[i]));
            }
        }
    }
}

} // verus!
