//! Which host a URL names, and where a redirect leads.

use vstd::prelude::*;

use crate::config::ProfileConfig;
use crate::error::ErrorView;
use crate::fetch;
use crate::fetch::{ActionView, IpAddr, StepView};
use crate::fetch_outcome;
use crate::stream::StreamInfoView;
use crate::text;
use crate::text_laws;

verus! {

/// Whether a text may follow an authority.
pub open spec fn ends_authority(s: Seq<char>) -> bool {
    s.len() > 0 ==> s[0] == '/' || s[0] == '?' || s[0] == '#'
}

proof fn lemma_authority(scheme: Seq<char>, authority: Seq<char>, tail: Seq<char>)
    requires
        !scheme.contains(':'),
        fetch_outcome::of_authority(authority),
        !authority.contains('@'),
        ends_authority(tail),
    ensures
        fetch::target_of(scheme + "://"@ + (authority + tail)) == Some(
            (
                scheme,
                fetch::host_and_port(authority, scheme).0,
                fetch::host_and_port(authority, scheme).1,
            ),
        ),
{
    reveal_strlit("/?#");
    fetch_outcome::lemma_cut_scheme(scheme, authority + tail);
    assert("/?#"@[0] == '/' && "/?#"@[1] == '?' && "/?#"@[2] == '#');
    fetch_outcome::lemma_none_of(authority);
    fetch_outcome::lemma_before_any(authority, tail, "/?#"@);
    text_laws::a_text_is_cut_at_the_last_occurrence(authority, '@');
    if let Some((a, b)) = text::cut_last(authority, '@') {
        assert(authority[a.len() as int] == '@');
    }
}

/// A URL without a port leads to the host it names, at the port of its scheme.
pub proof fn a_host_stands_alone(scheme: Seq<char>, host: Seq<char>, tail: Seq<char>)
    requires
        !scheme.contains(':'),
        fetch_outcome::of_authority(host),
        !host.contains('@'),
        !host.contains(':'),
        host.len() > 0 ==> host[0] != '[',
        ends_authority(tail),
    ensures
        fetch::target_of(scheme + "://"@ + (host + tail)) == Some(
            (
                scheme,
                host,
                if scheme == "https"@ {
                    443u16
                } else {
                    80u16
                },
            ),
        ),
{
    lemma_authority(scheme, host, tail);
    text_laws::a_text_is_cut_at_the_last_occurrence(host, ':');
    if let Some((a, b)) = text::cut_last(host, ':') {
        assert(host[a.len() as int] == ':');
    }
}

proof fn lemma_digits(n: nat)
    ensures
        fetch_outcome::of_authority(text::decimal(n)),
        !text::decimal(n).contains('@'),
        !text::decimal(n).contains(':'),
{
    let d = text::decimal(n);
    text_laws::a_decimal_is_read_again(n);
    assert forall|i: int| 0 <= i < d.len() implies '0' <= #[trigger] d[i] <= '9' by {
        assert(text::is_digit(d[i]));
    }
}

proof fn lemma_joined_holds(a: Seq<char>, b: Seq<char>, c: char)
    requires
        !a.contains(c),
        !b.contains(c),
    ensures
        !(a + b).contains(c),
{
    let s = a + b;
    assert forall|i: int| 0 <= i < s.len() implies #[trigger] s[i] != c by {
        if i < a.len() {
            assert(s[i] == a[i]);
        } else {
            assert(s[i] == b[i - a.len()]);
        }
    }
}

/// Two texts that may stand in an authority may stand there together.
proof fn lemma_joined_authority(a: Seq<char>, b: Seq<char>)
    requires
        fetch_outcome::of_authority(a),
        fetch_outcome::of_authority(b),
        !a.contains('@'),
        !b.contains('@'),
    ensures
        fetch_outcome::of_authority(a + b),
        !(a + b).contains('@'),
{
    lemma_joined_holds(a, b, '/');
    lemma_joined_holds(a, b, '?');
    lemma_joined_holds(a, b, '#');
    lemma_joined_holds(a, b, '@');
}

/// A URL with a port leads to the host before it, at that port.
pub proof fn a_host_stands_before_its_port(
    scheme: Seq<char>,
    host: Seq<char>,
    port: u16,
    tail: Seq<char>,
)
    requires
        !scheme.contains(':'),
        fetch_outcome::of_authority(host),
        !host.contains('@'),
        host.len() > 0 ==> host[0] != '[',
        ends_authority(tail),
    ensures
        fetch::target_of(scheme + "://"@ + (host + seq![':'] + text::decimal(port as nat) + tail))
            == Some((scheme, host, port)),
{
    let d = text::decimal(port as nat);
    let authority = host + seq![':'] + d;
    lemma_digits(port as nat);
    text_laws::a_decimal_is_read_again(port as nat);
    lemma_joined_authority(host, seq![':']);
    lemma_joined_authority(host + seq![':'], d);
    lemma_authority(scheme, authority, tail);
    text_laws::the_last_cut_is_the_only_one(host, ':', d);
    if host.len() > 0 {
        assert(authority[0] == host[0]);
    } else {
        assert(authority[0] == ':');
    }
    assert(text::number(d, u16::MAX as nat) == Some(port as nat));
}

/// In brackets stands the literal of a host: its colons separate no port, and a
/// port may follow.
pub proof fn brackets_hold_a_host(
    scheme: Seq<char>,
    host: Seq<char>,
    port: Option<u16>,
    tail: Seq<char>,
)
    requires
        !scheme.contains(':'),
        fetch_outcome::of_authority(host),
        !host.contains('@'),
        !host.contains(']'),
        ends_authority(tail),
    ensures
        ({
            let after = match port {
                Some(p) => seq![':'] + text::decimal(p as nat),
                None => Seq::empty(),
            };
            fetch::target_of(scheme + "://"@ + (seq!['['] + host + seq![']'] + after + tail))
                == Some(
                (
                    scheme,
                    host,
                    match port {
                        Some(p) => p,
                        None => if scheme == "https"@ {
                            443u16
                        } else {
                            80u16
                        },
                    },
                ),
            )
        }),
{
    reveal_strlit("]");
    let after = match port {
        Some(p) => seq![':'] + text::decimal(p as nat),
        None => Seq::empty(),
    };
    if let Some(p) = port {
        lemma_digits(p as nat);
        text_laws::a_decimal_is_read_again(p as nat);
        lemma_joined_authority(seq![':'], text::decimal(p as nat));
        assert(after.skip(1) =~= text::decimal(p as nat));
        assert(text::number(text::decimal(p as nat), u16::MAX as nat) == Some(p as nat));
    }
    let authority = seq!['['] + host + seq![']'] + after;
    lemma_joined_authority(seq!['['], host);
    lemma_joined_authority(seq!['['] + host, seq![']']);
    lemma_joined_authority(seq!['['] + host + seq![']'], after);
    lemma_authority(scheme, authority, tail);
    assert(authority.skip(1) =~= host + seq![']'] + after);
    assert("]"@ =~= seq![']']);
    text_laws::a_text_is_cut_at_the_first_character(host, ']', after);
}

/// How a fetch begins with the target it was given: one that is no HTTP or
/// HTTPS URL, names no host, or names a host that the profile does not list is
/// refused; the others are requested where private addresses are permitted, and
/// resolved first where they are not.
pub proof fn a_fetch_begins_with_its_target(
    url: Seq<char>,
    cfg: ProfileConfig,
    info: StreamInfoView,
    scheme: Seq<char>,
    host: Seq<char>,
    port: u16,
)
    requires
        fetch::target_of(url) == Some((scheme, host, port)),
    ensures
        ({
            let step = fetch::begun(url, cfg, info);
            let refused = |message: Seq<char>|
                step == StepView::Fail(ErrorView::Transport { message });
            let http = scheme == "http"@ || scheme == "https"@;
            let hosts = cfg.url.allow_hosts@;
            let listed = hosts.len() == 0 || exists|i: int|
                0 <= i < hosts.len() && text::same_ignoring_case(#[trigger] hosts[i]@, host);
            &&& !http ==> refused("refusing scheme "@ + text::quoted(scheme))
            &&& http && host.len() == 0 ==> refused("malformed url "@ + text::quoted(url))
            &&& http && host.len() > 0 && !listed ==> refused(
                host + " is not in the profile's url.allow_hosts"@,
            )
            &&& http && host.len() > 0 && listed ==> {
                &&& step is Wait
                &&& step->Wait_0.start == url
                &&& step->Wait_0.current == url
                &&& step->Wait_0.left == cfg.url.max_redirects
                &&& step->Wait_0.info == info
                &&& step->Wait_1 == if cfg.url.allow_private_addresses {
                    ActionView::Request { url, timeout_ms: cfg.url.timeout_ms }
                } else {
                    ActionView::Resolve { host, port }
                }
            }
        }),
{
    let hosts = cfg.url.allow_hosts@;
    let texts = text::texts_of(hosts);
    assert(texts.len() == hosts.len());
    assert forall|i: int| 0 <= i < hosts.len() implies texts[i] == #[trigger] hosts[i]@ by {}
    if fetch::listed(texts, host) {
        let i = choose|i: int| 0 <= i < texts.len() && text::same_ignoring_case(texts[i], host);
        assert(text::same_ignoring_case(hosts[i]@, host));
    }
    if exists|i: int|
        0 <= i < hosts.len() && text::same_ignoring_case(#[trigger] hosts[i]@, host) {
        let i = choose|i: int|
            0 <= i < hosts.len() && text::same_ignoring_case(#[trigger] hosts[i]@, host);
        assert(text::same_ignoring_case(texts[i], host));
    }
}

/// A text without `://` is no URL to fetch.
pub proof fn a_text_without_a_scheme_is_refused(
    url: Seq<char>,
    cfg: ProfileConfig,
    info: StreamInfoView,
)
    requires
        forall|k: int| 0 <= k <= url.len() - 3 ==> #[trigger] url.subrange(k, k + 3) != "://"@,
    ensures
        fetch::begun(url, cfg, info) == StepView::Fail(
            ErrorView::Transport { message: "malformed url "@ + text::quoted(url) },
        ),
{
    reveal_strlit("://");
    text_laws::a_text_is_cut_at_the_first_occurrence(url, "://"@);
    if let Some((a, b)) = text::cut(url, "://"@) {
        assert(url.subrange(a.len() as int, a.len() as int + 3) =~= "://"@);
    }
}

/// A reference that carries a scheme and an authority leads where it says,
/// whatever it is met on; white space around it does not count.
pub proof fn an_absolute_redirect_leads_where_it_says(
    base: Seq<char>,
    location: Seq<char>,
    scheme: Seq<char>,
    rest: Seq<char>,
)
    requires
        text::trimmed(location) == scheme + "://"@ + rest,
        !scheme.contains(':'),
        fetch_outcome::of_authority(scheme),
    ensures
        fetch::redirected(base, location) == Ok::<Seq<char>, Seq<char>>(text::trimmed(location)),
{
    let none = Seq::<char>::empty();
    fetch_outcome::lemma_cut_scheme(scheme, rest);
    fetch_outcome::lemma_none_of(scheme);
    fetch_outcome::lemma_before_any(scheme, none, "/?#"@);
    assert(scheme + none =~= scheme);
}

/// A reference that begins with a slash, a question mark or a number sign, or
/// is empty, carries no scheme.
proof fn lemma_relative(loc: Seq<char>)
    requires
        loc.len() > 0 ==> loc[0] == '/' || loc[0] == '?' || loc[0] == '#',
    ensures
        !fetch::is_absolute(loc),
{
    reveal_strlit("://");
    reveal_strlit("/?#");
    text_laws::a_text_is_cut_at_the_first_occurrence(loc, "://"@);
    if let Some((a, b)) = text::cut(loc, "://"@) {
        if a.len() == 0 {
            assert(loc[0] == "://"@[0]);
        } else {
            assert(a[0] == loc[0]);
            assert("/?#"@[0] == '/' && "/?#"@[1] == '?' && "/?#"@[2] == '#');
            text_laws::the_start_ends_before_the_set(a, "/?#"@);
            let p = text::before_any(a, "/?#"@);
            if p.len() > 0 {
                assert(p[0] == a[0]);
            }
        }
    }
}

/// A URL that redirects: its scheme, and its parts.
pub open spec fn parted(
    base: Seq<char>,
    scheme: Seq<char>,
    authority: Seq<char>,
    path: Seq<char>,
    query: Seq<char>,
    fragment: Seq<char>,
) -> bool {
    &&& base == scheme + "://"@ + (authority + path + (query + fragment))
    &&& !scheme.contains(':')
    &&& fetch_outcome::of_authority(authority)
    &&& path.len() > 0 ==> path[0] == '/'
    &&& !path.contains('?')
    &&& !path.contains('#')
    &&& query.len() > 0 ==> query[0] == '?'
    &&& !query.contains('#')
    &&& fragment.len() > 0 ==> fragment[0] == '#'
}

/// References that replace a part of a URL and keep what stands before it:
/// another authority keeps the scheme; a query keeps the path; a fragment, and
/// the empty reference, keep the query too.
pub proof fn a_redirect_keeps_what_stands_before_it(
    base: Seq<char>,
    location: Seq<char>,
    scheme: Seq<char>,
    authority: Seq<char>,
    path: Seq<char>,
    query: Seq<char>,
    fragment: Seq<char>,
)
    requires
        parted(base, scheme, authority, path, query, fragment),
    ensures
        ({
            let loc = text::trimmed(location);
            let to = fetch::redirected(base, location);
            let site = scheme + "://"@ + authority;
            &&& loc.len() >= 2 && loc[0] == '/' && loc[1] == '/' ==> to == Ok::<
                Seq<char>,
                Seq<char>,
            >(scheme + ":"@ + loc)
            &&& loc.len() > 0 && loc[0] == '?' ==> to == Ok::<Seq<char>, Seq<char>>(
                site + path + loc,
            )
            &&& loc.len() == 0 || loc[0] == '#' ==> to == Ok::<Seq<char>, Seq<char>>(
                site + path + query + loc,
            )
        }),
{
    reveal_strlit("//");
    reveal_strlit("?#");
    reveal_strlit("#");
    let loc = text::trimmed(location);
    let tail = query + fragment;
    let rest = authority + path + tail;
    if query.len() > 0 {
        assert(tail[0] == query[0]);
    } else {
        assert(tail =~= fragment);
    }
    fetch_outcome::lemma_cut_scheme(scheme, rest);
    fetch_outcome::lemma_parts(authority, path, tail);
    if loc.len() == 0 || loc[0] == '/' || loc[0] == '?' || loc[0] == '#' {
        lemma_relative(loc);
    }
    if loc.len() >= 2 && loc[0] == '/' && loc[1] == '/' {
        assert("//"@ =~= loc.take(2));
    }
    if loc.len() > 0 && (loc[0] == '?' || loc[0] == '#') {
        assert("?#"@[0] == '?' && "?#"@[1] == '#');
        let none = Seq::<char>::empty();
        fetch_outcome::lemma_before_any(none, loc, "?#"@);
        assert(none + loc =~= loc);
        if "//"@.is_prefix_of(loc) {
            assert(loc.take(2)[0] == "//"@[0]);
        }
    }
    if loc.len() == 0 || loc[0] == '#' {
        let kept = path + query;
        lemma_joined_holds(path, query, '#');
        assert forall|i: int| 0 <= i < kept.len() implies !"#"@.contains(#[trigger] kept[i]) by {}
        assert("#"@[0] == '#');
        fetch_outcome::lemma_before_any(kept, fragment, "#"@);
        assert(kept + fragment =~= path + tail);
        if loc.len() == 0 {
            text_laws::the_start_ends_before_the_set(loc, "?#"@);
        }
        assert(scheme + "://"@ + authority + kept + loc =~= scheme + "://"@ + authority + path
            + query + loc);
    }
}

/// Whether a segment of a path is one that is taken at its word.
pub open spec fn is_dots(segment: Seq<char>) -> bool {
    segment == "."@ || segment == ".."@
}

/// A path from the root, by its segments.
pub open spec fn path_by(segments: Seq<Seq<char>>) -> Seq<char> {
    seq!['/'] + text::joined(segments, seq!['/'])
}

/// Whether texts can be the segments of a path.
pub open spec fn are_segments(segments: Seq<Seq<char>>) -> bool {
    forall|i: int| 0 <= i < segments.len() ==> !(#[trigger] segments[i]).contains('/')
}

/// What comes together at a character that no piece holds goes into the same
/// pieces again.
pub proof fn joined_pieces_come_apart(parts: Seq<Seq<char>>, c: char)
    requires
        parts.len() > 0,
        forall|i: int| 0 <= i < parts.len() ==> !(#[trigger] parts[i]).contains(c),
    ensures
        text::pieces(text::joined(parts, seq![c]), c) == parts,
    decreases parts.len(),
{
    let set = seq![c];
    let (first, others) = (parts[0], parts.drop_first());
    let s = text::joined(parts, set);
    let rest = if others.len() == 0 {
        Seq::empty()
    } else {
        set + text::joined(others, set)
    };
    assert(parts =~= seq![first] + others);
    text_laws::texts_are_joined_one_by_one(first, others, set);
    assert(s =~= first + rest) by {
        if others.len() == 0 {
            assert(parts =~= seq![first]);
        }
    }
    assert(set[0] == c);
    assert forall|i: int| 0 <= i < first.len() implies !set.contains(#[trigger] first[i]) by {}
    fetch_outcome::lemma_before_any(first, rest, set);
    text::lemma_first_of(s, set, 0);
    let i = text::first_of(s, set, 0);
    assert(i == first.len());
    assert(s.take(i) =~= first);
    if others.len() > 0 {
        joined_pieces_come_apart(others, c);
        assert(s.skip(i + 1) =~= text::joined(others, set));
    } else {
        assert(s =~= first);
    }
}

proof fn lemma_tidy(segments: Seq<Seq<char>>)
    requires
        segments.len() > 0,
        are_segments(segments),
    ensures
        fetch::tidy(path_by(segments)) == path_by(fetch::walked(Seq::empty(), segments)),
{
    reveal_strlit("/");
    let p = path_by(segments);
    assert(p.skip(1) =~= text::joined(segments, seq!['/']));
    joined_pieces_come_apart(segments, '/');
    assert("/"@ =~= seq!['/']);
}

proof fn lemma_plain_walk(done: Seq<Seq<char>>, segments: Seq<Seq<char>>)
    requires
        forall|i: int| 0 <= i < segments.len() ==> !is_dots(#[trigger] segments[i]),
    ensures
        fetch::walked(done, segments) == done + segments,
    decreases segments.len(),
{
    if segments.len() > 0 {
        lemma_plain_walk(done.push(segments[0]), segments.drop_first());
        assert(done.push(segments[0]) + segments.drop_first() =~= done + segments);
    } else {
        assert(done + segments =~= done);
    }
}

/// A path without `.` and `..` segments stays as it is.
pub proof fn a_plain_path_stays(segments: Seq<Seq<char>>)
    requires
        segments.len() > 0,
        are_segments(segments),
        forall|i: int| 0 <= i < segments.len() ==> !is_dots(#[trigger] segments[i]),
    ensures
        fetch::tidy(path_by(segments)) == path_by(segments),
{
    lemma_tidy(segments);
    lemma_plain_walk(Seq::empty(), segments);
    assert(Seq::<Seq<char>>::empty() + segments =~= segments);
}

proof fn lemma_walk_same(
    done: Seq<Seq<char>>,
    before: Seq<Seq<char>>,
    a: Seq<Seq<char>>,
    b: Seq<Seq<char>>,
)
    requires
        a.len() > 0,
        b.len() > 0,
        forall|d: Seq<Seq<char>>| #[trigger] fetch::walked(d, a) == fetch::walked(d, b),
    ensures
        fetch::walked(done, before + a) == fetch::walked(done, before + b),
    decreases before.len(),
{
    if before.len() == 0 {
        assert(before + a =~= a);
        assert(before + b =~= b);
    } else {
        let (here, rest) = (before[0], before.drop_first());
        assert((before + a).drop_first() =~= rest + a);
        assert((before + b).drop_first() =~= rest + b);
        let up = if here == ".."@ && done.len() > 0 {
            done.drop_last()
        } else {
            done
        };
        lemma_walk_same(up, rest, a, b);
        lemma_walk_same(done.push(here), rest, a, b);
    }
}

/// A `.` segment goes; at the end of a path it leaves a directory.
pub proof fn a_dot_stays_where_it_is(before: Seq<Seq<char>>, after: Seq<Seq<char>>)
    requires
        are_segments(before + seq!["."@] + after),
        are_segments(before + after),
    ensures
        fetch::tidy(path_by(before + seq!["."@] + after)) == fetch::tidy(
            path_by(
                before + if after.len() > 0 {
                    after
                } else {
                    seq![Seq::empty()]
                },
            ),
        ),
{
    reveal_strlit(".");
    reveal_strlit("..");
    let a = seq!["."@] + after;
    let b = if after.len() > 0 {
        after
    } else {
        seq![Seq::empty()]
    };
    assert forall|d: Seq<Seq<char>>| #[trigger] fetch::walked(d, a) == fetch::walked(d, b) by {
        reveal_with_fuel(fetch::walked, 3);
        assert("."@.len() == 1 && ".."@.len() == 2);
        assert(a[0] == "."@);
        assert(a.drop_first() =~= after);
        assert(b.drop_first().len() == b.len() - 1);
    }
    assert(before + seq!["."@] + after =~= before + a);
    lemma_walk_same(Seq::empty(), before, a, b);
    lemma_segments(before, b);
    lemma_tidy(before + a);
    lemma_tidy(before + b);
}

proof fn lemma_segments(before: Seq<Seq<char>>, b: Seq<Seq<char>>)
    requires
        are_segments(before + b) || b =~= seq![Seq::empty()] && are_segments(
            before + Seq::empty(),
        ),
    ensures
        are_segments(before + b),
{
    let all = before + b;
    if !are_segments(all) {
        let fewer = before + Seq::<Seq<char>>::empty();
        assert forall|i: int| 0 <= i < all.len() implies !(#[trigger] all[i]).contains('/') by {
            if i < before.len() {
                assert(all[i] == fewer[i]);
            } else {
                assert(all[i] == Seq::<char>::empty());
            }
        }
    }
}

/// A `..` segment takes the segment before it along; at the end of a path it
/// leaves a directory.
pub proof fn two_dots_lead_up(
    before: Seq<Seq<char>>,
    segment: Seq<char>,
    after: Seq<Seq<char>>,
)
    requires
        are_segments(before + seq![segment, ".."@] + after),
        are_segments(before + after),
        !is_dots(segment),
    ensures
        fetch::tidy(path_by(before + seq![segment, ".."@] + after)) == fetch::tidy(
            path_by(
                before + if after.len() > 0 {
                    after
                } else {
                    seq![Seq::empty()]
                },
            ),
        ),
{
    reveal_strlit(".");
    reveal_strlit("..");
    let a = seq![segment, ".."@] + after;
    let b = if after.len() > 0 {
        after
    } else {
        seq![Seq::empty()]
    };
    assert forall|d: Seq<Seq<char>>| #[trigger] fetch::walked(d, a) == fetch::walked(d, b) by {
        reveal_with_fuel(fetch::walked, 4);
        assert("."@.len() == 1 && ".."@.len() == 2);
        assert(a[0] == segment);
        assert(a.drop_first() =~= seq![".."@] + after);
        assert(a.drop_first().drop_first() =~= after);
        assert(d.push(segment).drop_last() =~= d);
        assert(b.drop_first().len() == b.len() - 1);
    }
    assert(before + seq![segment, ".."@] + after =~= before + a);
    lemma_walk_same(Seq::empty(), before, a, b);
    lemma_segments(before, b);
    lemma_tidy(before + a);
    lemma_tidy(before + b);
}

/// There is nothing above the root: a `..` there goes.
pub proof fn the_root_is_the_top(after: Seq<Seq<char>>)
    requires
        after.len() > 0,
        are_segments(seq![".."@] + after),
        are_segments(after),
    ensures
        fetch::tidy(path_by(seq![".."@] + after)) == fetch::tidy(path_by(after)),
{
    let a = seq![".."@] + after;
    assert(a[0] == ".."@);
    assert(a.drop_first() =~= after);
    lemma_tidy(a);
    lemma_tidy(after);
}

/// A reference with a path: one from the root takes the place of the path, any
/// other the place of its last segment, and both keep the scheme and the
/// authority, and what follows their own path. The path is tidied.
pub proof fn a_redirect_leads_to_its_path(
    base: Seq<char>,
    location: Seq<char>,
    scheme: Seq<char>,
    authority: Seq<char>,
    dir: Seq<char>,
    last: Seq<char>,
    tail: Seq<char>,
    place: Seq<char>,
    end: Seq<char>,
)
    requires
        base == scheme + "://"@ + (authority + (dir + seq!['/'] + last) + tail),
        !scheme.contains(':'),
        fetch_outcome::of_authority(authority),
        dir.len() > 0 ==> dir[0] == '/',
        !dir.contains('?'),
        !dir.contains('#'),
        fetch_outcome::of_authority(last),
        fetch_outcome::ends_path(tail),
        text::trimmed(location) == place + end,
        place.len() > 0,
        !place.contains('?'),
        !place.contains('#'),
        !place.contains(':'),
        fetch_outcome::ends_path(end),
        !(place.len() >= 2 && place[0] == '/' && place[1] == '/'),
    ensures
        fetch::redirected(base, location) == Ok::<Seq<char>, Seq<char>>(
            scheme + "://"@ + authority + fetch::tidy(
                if place[0] == '/' {
                    place
                } else {
                    dir + seq!['/'] + place
                },
            ) + end,
        ),
{
    reveal_strlit("//");
    reveal_strlit("/");
    reveal_strlit("://");
    reveal_strlit("/?#");
    let loc = place + end;
    let path = dir + seq!['/'] + last;
    let rest = authority + path + tail;
    lemma_joined_holds(dir, seq!['/'], '?');
    lemma_joined_holds(dir, seq!['/'], '#');
    lemma_joined_holds(dir + seq!['/'], last, '?');
    lemma_joined_holds(dir + seq!['/'], last, '#');
    if dir.len() > 0 {
        assert(path[0] == dir[0]);
    } else {
        assert(path[0] == '/');
    }
    fetch_outcome::lemma_cut_scheme(scheme, rest);
    fetch_outcome::lemma_parts(authority, path, tail);
    text_laws::the_last_cut_is_the_only_one(dir, '/', last);
    fetch_outcome::lemma_ends(end);
    fetch_outcome::lemma_none_of(place);
    fetch_outcome::lemma_before_any(place, end, "?#"@);
    assert(loc.skip(place.len() as int) =~= end);
    assert("/"@ =~= seq!['/']);
    assert(loc[0] == place[0]);
    if "//"@.is_prefix_of(loc) {
        let two = loc.take(2);
        assert(two[0] == '/' && two[1] == '/');
        if place.len() == 1 {
            assert(loc[1] == end[0]);
        } else {
            assert(loc[1] == place[1]);
        }
    }
    text_laws::a_text_is_cut_at_the_first_occurrence(loc, "://"@);
    if let Some((a, b)) = text::cut(loc, "://"@) {
        let n = a.len() as int;
        assert(loc[n] == "://"@[0]);
        if n < place.len() {
            assert(place[n] == ':');
        }
        assert(end.len() > 0);
        if n == place.len() {
            assert(loc[n] == end[0]);
        }
        let k = place.len() as int;
        assert(a[k] == loc[k]);
        assert(loc[k] == end[0]);
        text_laws::the_start_ends_before_the_set(a, "/?#"@);
        let p = text::before_any(a, "/?#"@);
        assert("/?#"@.contains(a[k]));
        if p == a {
            assert(!"/?#"@.contains(p[k]));
        }
    }
}

/// An address of version 4 as a number.
pub open spec fn number_of(a: u8, b: u8, c: u8, d: u8) -> int {
    ((a * 256 + b) * 256 + c) * 256 + d
}

/// Addresses of version 4 are public but for the blocks that are set apart.
pub proof fn only_blocks_set_apart_are_not_public(o: [u8; 4])
    ensures
        ({
            let n = number_of(o@[0], o@[1], o@[2], o@[3]);
            // The address at the start of a block, and the one after its end.
            let within = |first: int, next: int| first <= n < next;
            fetch::public(IpAddr::V4(o)) <==> !{
                ||| within(0x0000_0000, 0x0100_0000)
                ||| within(0x0a00_0000, 0x0b00_0000)
                ||| within(0x6440_0000, 0x6480_0000)
                ||| within(0x7f00_0000, 0x8000_0000)
                ||| within(0xa9fe_0000, 0xa9ff_0000)
                ||| within(0xac10_0000, 0xac20_0000)
                ||| within(0xc000_0000, 0xc000_0100)
                ||| within(0xc000_0200, 0xc000_0300)
                ||| within(0xc0a8_0000, 0xc0a9_0000)
                ||| within(0xc612_0000, 0xc614_0000)
                ||| within(0xc633_6400, 0xc633_6500)
                ||| within(0xcb00_7100, 0xcb00_7200)
                ||| within(0xe000_0000, 0x1_0000_0000)
            }
        }),
{
}

/// An address of version 6 that carries none of version 4 is public exactly
/// where it is global unicast and lies in no block that is set apart.
pub proof fn only_global_unicast_is_public(g: [u16; 8])
    ensures
        ({
            let (a, b) = (g@[0], g@[1]);
            let public = fetch::public(IpAddr::V6(g));
            // Outside 2000::/3 only what carries an address of version 4 is.
            &&& public && !(0x2000 <= a < 0x4000) ==> a == 0 || a == 0x64
            // Loopback and the unspecified address, unique and link-local
            // addresses, and multicast.
            &&& (forall|i: int| 0 <= i < 7 ==> g@[i] == 0) && g@[7] <= 1 ==> !public
            &&& a >= 0x4000 ==> !public
            // Documentation.
            &&& a == 0x2001 && b == 0x0db8 ==> !public
            &&& a == 0x3fff && b < 0x1000 ==> !public
            // Tunnels, benchmarks and overlays of 2001::/23.
            &&& a == 0x2001 && (b == 0 || b == 2 || 0x10 <= b < 0x20) ==> !public
            // The rest of global unicast.
            &&& 0x2003 <= a < 0x3fff ==> public
            &&& a == 0x2000 ==> public
            &&& a == 0x2001 && b >= 0x0200 && b != 0x0db8 ==> public
            &&& a == 0x3fff && b >= 0x1000 ==> public
        }),
{
    if (forall|i: int| 0 <= i < 7 ==> g@[i] == 0) && g@[7] <= 1 {
        assert(g@[0] == 0 && g@[5] == 0);
    }
}

/// An address of version 6 that carries one of version 4 is public exactly
/// where that is: one that is mapped, one that is translated, and one of 6to4.
pub proof fn a_carried_address_decides(g: [u16; 8], o: [u8; 4])
    ensures
        ({
            let (high, low) = (o@[0] * 256 + o@[1], o@[2] * 256 + o@[3]);
            let same = fetch::public(IpAddr::V6(g)) == fetch::public(IpAddr::V4(o));
            let zeros = g@[2] == 0 && g@[3] == 0 && g@[4] == 0;
            let last = g@[6] == high && g@[7] == low;
            &&& g@[0] == 0 && g@[1] == 0 && zeros && g@[5] == 0xffff && last ==> same
            &&& g@[0] == 0x64 && g@[1] == 0xff9b && zeros && g@[5] == 0 && last ==> same
            &&& g@[0] == 0x2002 && g@[1] == high && g@[2] == low ==> same
        }),
{
    let (high, low) = (o@[0] * 256 + o@[1], o@[2] * 256 + o@[3]);
    assert(high / 256 == o@[0] && high % 256 == o@[1]);
    assert(low / 256 == o@[2] && low % 256 == o@[3]);
}

/// Of the block that is kept for protocols, 2001::/23, exactly the parts that
/// are reachable from anywhere are public.
pub proof fn reachable_protocols_are_public(g: [u16; 8])
    requires
        g@[0] == 0x2001,
        g@[1] < 0x200,
    ensures
        fetch::public(IpAddr::V6(g)) <==> {
            let b = g@[1];
            ||| b == 1 && (forall|i: int| 2 <= i < 7 ==> g@[i] == 0) && (g@[7] == 1 || g@[7] == 2
                || g@[7] == 3)
            ||| b == 3
            ||| b == 4 && g@[2] == 0x112
            ||| 0x20 <= b < 0x40
        },
{
    if forall|i: int| 2 <= i < 7 ==> g@[i] == 0 {
        assert(g@[2] == 0 && g@[3] == 0 && g@[4] == 0 && g@[5] == 0 && g@[6] == 0);
    }
    if g@[2] == 0 && g@[3] == 0 && g@[4] == 0 && g@[5] == 0 && g@[6] == 0 {
        assert forall|i: int| 2 <= i < 7 implies g@[i] == 0 by {}
    }
}

/// What stands where a port should and is none does not count: text that is
/// empty or is not all digits, and a number that is too great, leave the port
/// of the scheme.
pub proof fn a_port_that_is_none_does_not_count(
    scheme: Seq<char>,
    host: Seq<char>,
    port: Seq<char>,
    n: nat,
    tail: Seq<char>,
)
    requires
        !scheme.contains(':'),
        fetch_outcome::of_authority(host),
        !host.contains('@'),
        host.len() > 0 ==> host[0] != '[',
        fetch_outcome::of_authority(port),
        !port.contains('@'),
        !port.contains(':'),
        ends_authority(tail),
        port.len() == 0 || (exists|i: int|
            1 <= i < port.len() && !('0' <= #[trigger] port[i] <= '9')) || (n > 65535 && port
            == text::decimal(n)),
    ensures
        fetch::target_of(scheme + "://"@ + (host + seq![':'] + port + tail)) == Some(
            (
                scheme,
                host,
                if scheme == "https"@ {
                    443u16
                } else {
                    80u16
                },
            ),
        ),
{
    let authority = host + seq![':'] + port;
    lemma_joined_authority(host, seq![':']);
    lemma_joined_authority(host + seq![':'], port);
    lemma_authority(scheme, authority, tail);
    text_laws::the_last_cut_is_the_only_one(host, ':', port);
    if host.len() > 0 {
        assert(authority[0] == host[0]);
    } else {
        assert(authority[0] == ':');
    }
    text_laws::only_digits_make_a_number(port, u16::MAX as nat);
    text_laws::a_decimal_is_read_again(n);
    if text::number(port, u16::MAX as nat) is Some {
        let digits = if port[0] == '+' {
            port.skip(1)
        } else {
            port
        };
        if exists|i: int| 1 <= i < port.len() && !('0' <= #[trigger] port[i] <= '9') {
            let i = choose|i: int| 1 <= i < port.len() && !('0' <= #[trigger] port[i] <= '9');
            if port[0] == '+' {
                assert(digits[i - 1] == port[i]);
            } else {
                assert(digits[i] == port[i]);
            }
        }
    }
}

} // verus!
