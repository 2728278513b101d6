//! What holds of every fetch, whatever the network answers.

use vstd::prelude::*;

use crate::config::ProfileConfig;
use crate::fetch;
use crate::fetch::{ActionView, Event, FetchView, StageView, StepView, Verdict};
use crate::stream::StreamInfoView;
use crate::text;

verus! {

/// Where a fetch stands after these events.
pub open spec fn ran(
    url: Seq<char>,
    cfg: ProfileConfig,
    info: StreamInfoView,
    events: Seq<Event>,
) -> StepView
    decreases events.len(),
{
    if events.len() == 0 {
        fetch::begun(url, cfg, info)
    } else {
        match ran(url, cfg, info, events.drop_last()) {
            StepView::Wait(f, _) => fetch::advanced(f, cfg, events.last()),
            over => over,
        }
    }
}

/// Whether each event is what the fetch waited for.
pub open spec fn orderly(
    url: Seq<char>,
    cfg: ProfileConfig,
    info: StreamInfoView,
    events: Seq<Event>,
) -> bool
    decreases events.len(),
{
    events.len() > 0 ==> {
        &&& orderly(url, cfg, info, events.drop_last())
        &&& ran(url, cfg, info, events.drop_last()) matches StepView::Wait(f, _)
            && fetch::expects(f.stage, events.last())
    }
}

/// Whether a request was to be made at this step.
pub open spec fn is_request(step: StepView) -> bool {
    step matches StepView::Wait(_, ActionView::Request { .. })
}

/// How many requests were to be made up to here.
pub open spec fn requests(
    url: Seq<char>,
    cfg: ProfileConfig,
    info: StreamInfoView,
    events: Seq<Event>,
) -> nat
    decreases events.len(),
{
    let now = if is_request(ran(url, cfg, info, events)) {
        1nat
    } else {
        0nat
    };
    if events.len() == 0 {
        now
    } else {
        requests(url, cfg, info, events.drop_last()) + now
    }
}

/// Whether the resolver named at least one address, and none that is not
/// public.
pub open spec fn all_public(event: Event) -> bool {
    &&& event is Resolved
    &&& event->Resolved_0 is Ok
    &&& event->Resolved_0->Ok_0@.len() > 0
    &&& forall|i: int|
        0 <= i < event->Resolved_0->Ok_0@.len() ==> fetch::public(
            (#[trigger] event->Resolved_0->Ok_0@[i]).ip,
        )
}

/// A fetch that resolves does so for the host that its present target names.
spec fn coherent(step: StepView, cfg: ProfileConfig) -> bool {
    match step {
        StepView::Wait(f, a) => match f.stage {
            StageView::Resolving { host } => {
                &&& fetch::judged(f.current, cfg) is Resolve
                &&& fetch::judged(f.current, cfg)->host == host
                &&& a is Resolve
            },
            StageView::Requesting => a is Request && a->url == f.current,
            StageView::Reading { .. } => a is Read,
        },
        _ => true,
    }
}

proof fn lemma_coherent(
    url: Seq<char>,
    cfg: ProfileConfig,
    info: StreamInfoView,
    events: Seq<Event>,
)
    requires
        orderly(url, cfg, info, events),
    ensures
        coherent(ran(url, cfg, info, events), cfg),
    decreases events.len(),
{
    if events.len() > 0 {
        lemma_coherent(url, cfg, info, events.drop_last());
    }
}

proof fn lemma_none_private(addrs: Seq<fetch::Resolved>, from: int)
    requires
        0 <= from,
        fetch::first_private(addrs, from) is None,
    ensures
        forall|i: int| from <= i < addrs.len() ==> fetch::public((#[trigger] addrs[i]).ip),
    decreases addrs.len() - from,
{
    if from < addrs.len() {
        lemma_none_private(addrs, from + 1);
    }
}

/// No target is contacted that the policy does not clear: on every hop, the
/// first and each redirect, either the profile permits private addresses, or
/// the host of that very target was resolved and every address is public.
pub proof fn every_request_is_cleared(
    url: Seq<char>,
    cfg: ProfileConfig,
    info: StreamInfoView,
    events: Seq<Event>,
)
    requires
        orderly(url, cfg, info, events),
        is_request(ran(url, cfg, info, events)),
    ensures
        ({
            let target = ran(url, cfg, info, events)->Wait_1->url;
            ||| fetch::judged(target, cfg) is Cleared && cfg.url.allow_private_addresses
            ||| {
                &&& fetch::judged(target, cfg) is Resolve
                &&& events.len() > 0
                &&& ran(url, cfg, info, events.drop_last())->Wait_1 == (ActionView::Resolve {
                    host: fetch::judged(target, cfg)->host,
                    port: fetch::judged(target, cfg)->port,
                })
                &&& all_public(events.last())
            }
        }),
{
    lemma_coherent(url, cfg, info, events);
    if events.len() > 0 {
        let before = ran(url, cfg, info, events.drop_last());
        lemma_coherent(url, cfg, info, events.drop_last());
        lemma_port(url, cfg, info, events.drop_last());
        let f = before->Wait_0;
        if f.stage is Resolving && events.last()->Resolved_0 is Ok {
            lemma_none_private_if(f, events.last());
        }
    }
}

proof fn lemma_none_private_if(f: FetchView, event: Event)
    requires
        f.stage is Resolving,
        event is Resolved,
        fetch::objection(f.stage->host, event->Resolved_0) is None,
    ensures
        all_public(event),
{
    lemma_none_private(event->Resolved_0->Ok_0@, 0);
}

/// The host that is resolved comes with its own port.
proof fn lemma_port(url: Seq<char>, cfg: ProfileConfig, info: StreamInfoView, events: Seq<Event>)
    requires
        orderly(url, cfg, info, events),
    ensures
        ran(url, cfg, info, events) matches StepView::Wait(
            f,
            ActionView::Resolve { host, port },
        ) ==> fetch::judged(f.current, cfg) == (Verdict::Resolve { host, port }),
{
    if events.len() > 0 {
        lemma_coherent(url, cfg, info, events.drop_last());
    }
}

/// A fetch makes at most one request more than the redirects that the profile
/// allows.
pub proof fn redirects_are_bounded(
    url: Seq<char>,
    cfg: ProfileConfig,
    info: StreamInfoView,
    events: Seq<Event>,
)
    requires
        orderly(url, cfg, info, events),
    ensures
        requests(url, cfg, info, events) <= cfg.url.max_redirects + 1,
{
    lemma_requests(url, cfg, info, events);
}

pub(crate) proof fn lemma_requests(
    url: Seq<char>,
    cfg: ProfileConfig,
    info: StreamInfoView,
    events: Seq<Event>,
)
    requires
        orderly(url, cfg, info, events),
    ensures
        requests(url, cfg, info, events) <= cfg.url.max_redirects + 1,
        ran(url, cfg, info, events) matches StepView::Wait(f, _) ==> requests(
            url,
            cfg,
            info,
            events,
        ) + f.left + if f.stage is Resolving {
            1int
        } else {
            0int
        } == cfg.url.max_redirects + 1,
    decreases events.len(),
{
    if events.len() > 0 {
        lemma_requests(url, cfg, info, events.drop_last());
    }
}

/// A fetch comes to its end: after so many events it waits for no other.
pub proof fn a_fetch_ends(
    url: Seq<char>,
    cfg: ProfileConfig,
    info: StreamInfoView,
    events: Seq<Event>,
)
    requires
        orderly(url, cfg, info, events),
    ensures
        events.len() <= 2 * cfg.url.max_redirects + 3,
        events.len() == 2 * cfg.url.max_redirects + 3 ==> !(ran(url, cfg, info, events) is Wait),
{
    lemma_events(url, cfg, info, events);
    if events.len() > 0 {
        lemma_events(url, cfg, info, events.drop_last());
    }
}

/// How many events a stage may still take before the next hop.
spec fn pending(stage: StageView) -> int {
    match stage {
        StageView::Resolving { .. } => 3,
        StageView::Requesting => 2,
        StageView::Reading { .. } => 1,
    }
}

proof fn lemma_events(url: Seq<char>, cfg: ProfileConfig, info: StreamInfoView, events: Seq<Event>)
    requires
        orderly(url, cfg, info, events),
    ensures
        ran(url, cfg, info, events) matches StepView::Wait(f, _) ==> events.len() + 2 * f.left
            + pending(f.stage) <= 2 * cfg.url.max_redirects + 3,
    decreases events.len(),
{
    if events.len() > 0 {
        lemma_events(url, cfg, info, events.drop_last());
    }
}

/// The allowlist is applied before anything is resolved or contacted: where
/// the profile names hosts, only those are.
pub proof fn only_listed_hosts_are_reached(
    url: Seq<char>,
    cfg: ProfileConfig,
    info: StreamInfoView,
    events: Seq<Event>,
)
    requires
        orderly(url, cfg, info, events),
        cfg.url.allow_hosts@.len() > 0,
    ensures
        match ran(url, cfg, info, events) {
            StepView::Wait(_, ActionView::Resolve { host, .. }) => fetch::listed(
                text::texts_of(cfg.url.allow_hosts@),
                host,
            ),
            StepView::Wait(_, ActionView::Request { url: target, .. }) => {
                &&& fetch::target_of(target) is Some
                &&& fetch::listed(
                    text::texts_of(cfg.url.allow_hosts@),
                    (fetch::target_of(target)->0).1,
                )
            },
            _ => true,
        },
{
    lemma_coherent(url, cfg, info, events);
    lemma_port(url, cfg, info, events);
    if is_request(ran(url, cfg, info, events)) {
        every_request_is_cleared(url, cfg, info, events);
    }
}

/// Only HTTP and HTTPS targets are contacted.
pub proof fn only_http_is_requested(
    url: Seq<char>,
    cfg: ProfileConfig,
    info: StreamInfoView,
    events: Seq<Event>,
)
    requires
        orderly(url, cfg, info, events),
        is_request(ran(url, cfg, info, events)),
    ensures
        ({
            let target = ran(url, cfg, info, events)->Wait_1->url;
            &&& fetch::target_of(target) is Some
            &&& (fetch::target_of(target)->0).0 == "http"@ || (fetch::target_of(target)->0).0
                == "https"@
        }),
{
    every_request_is_cleared(url, cfg, info, events);
}

/// What a fetch brings back is no longer than the profile allows, and says
/// where it came from.
pub proof fn what_is_fetched_is_within_the_limit(
    url: Seq<char>,
    cfg: ProfileConfig,
    info: StreamInfoView,
    events: Seq<Event>,
)
    requires
        orderly(url, cfg, info, events),
        ran(url, cfg, info, events) is Done,
    ensures
        ran(url, cfg, info, events)->Done_0.bytes.len() <= cfg.convert.limits.max_input_bytes,
        ran(url, cfg, info, events)->Done_0.mode == "url"@,
        ran(url, cfg, info, events)->Done_0.info.url is Some,
{
}

proof fn lemma_first_of_joined(a: Seq<char>, b: Seq<char>, set: Seq<char>, from: int)
    requires
        0 <= from <= a.len(),
        forall|i: int| 0 <= i < a.len() ==> !set.contains(#[trigger] a[i]),
    ensures
        text::first_of(a + b, set, from) == a.len() + text::first_of(b, set, 0),
    decreases a.len() - from,
{
    if from < a.len() {
        assert((a + b)[from] == a[from]);
        lemma_first_of_joined(a, b, set, from + 1);
    } else {
        lemma_first_of_shifted(a, b, set, 0);
    }
}

proof fn lemma_first_of_shifted(a: Seq<char>, b: Seq<char>, set: Seq<char>, from: int)
    requires
        0 <= from <= b.len(),
    ensures
        text::first_of(a + b, set, a.len() + from) == a.len() + text::first_of(b, set, from),
    decreases b.len() - from,
{
    if from < b.len() {
        assert((a + b)[a.len() + from] == b[from]);
        lemma_first_of_shifted(a, b, set, from + 1);
    }
}

proof fn lemma_last_index_joined(a: Seq<char>, b: Seq<char>, c: char)
    requires
        a.len() > 0,
        a.last() == c,
    ensures
        text::after_last(a + b, c) == text::after_last(b, c),
    decreases b.len(),
{
    if b.len() == 0 {
        assert(a + b =~= a);
        assert(a.skip(a.len() as int) =~= b);
    } else if b.last() == c {
        assert((a + b).last() == c);
        assert((a + b).skip((a + b).len() as int) =~= b.skip(b.len() as int));
    } else {
        assert((a + b).drop_last() =~= a + b.drop_last());
        lemma_last_index_joined(a, b.drop_last(), c);
        lemma_last_index_is_there(b.drop_last(), c);
        lemma_last_index_is_there(a + b.drop_last(), c);
        lemma_last_index_found(a, b.drop_last(), c);
        let i = text::last_index(a + b, c)->0;
        let tail = (a + b.drop_last()).skip(i + 1);
        match text::last_index(b, c) {
            Some(k) => {
                assert(tail == b.drop_last().skip(k + 1));
                assert(tail.len() == b.len() - 1 - (k + 1));
                assert(i == a.len() + k);
                assert((a + b).skip(i + 1) =~= b.skip(k + 1));
            },
            None => {
                assert(tail == b.drop_last());
                assert(i + 1 == a.len());
                assert((a + b).skip(i + 1) =~= b);
            },
        }
    }
}

proof fn lemma_last_index_found(a: Seq<char>, b: Seq<char>, c: char)
    requires
        a.len() > 0,
        a.last() == c,
    ensures
        text::last_index(a + b, c) is Some,
    decreases b.len(),
{
    if b.len() == 0 {
        assert(a + b =~= a);
    } else if b.last() != c {
        assert((a + b).drop_last() =~= a + b.drop_last());
        lemma_last_index_found(a, b.drop_last(), c);
    }
}

proof fn lemma_cut_scheme(scheme: Seq<char>, rest: Seq<char>, from: int)
    requires
        0 <= from <= scheme.len(),
        !scheme.contains(':'),
    ensures
        text::position_from(scheme + "://"@ + rest, "://"@, from) == Some(scheme.len() as int),
    decreases scheme.len() - from,
{
    reveal_strlit("://");
    let s = scheme + "://"@ + rest;
    if from < scheme.len() {
        assert(s[from] == scheme[from]);
        assert(s.subrange(from, from + 3)[0] == s[from]);
        lemma_cut_scheme(scheme, rest, from + 1);
    } else {
        assert(s.subrange(from, from + 3) =~= "://"@);
    }
}

proof fn lemma_target(scheme: Seq<char>, rest: Seq<char>)
    requires
        !scheme.contains(':'),
    ensures
        ({
            let authority = text::after_last(text::before_any(rest, "/?#"@), '@');
            let (host, port) = fetch::host_and_port(authority, scheme);
            fetch::target_of(scheme + "://"@ + rest) == Some((scheme, host, port))
        }),
{
    reveal_strlit("://");
    lemma_cut_scheme(scheme, rest, 0);
    let s = scheme + "://"@ + rest;
    assert(s.take(scheme.len() as int) =~= scheme);
    assert(s.skip(scheme.len() as int + 3) =~= rest);
}

/// Credentials in the authority do not hide the host:
/// `http://allowed.test@evil.test/` leads to `evil.test`.
pub proof fn credentials_do_not_hide_the_host(
    scheme: Seq<char>,
    user: Seq<char>,
    rest: Seq<char>,
)
    requires
        !scheme.contains(':'),
        forall|i: int| 0 <= i < user.len() ==> !"/?#"@.contains(#[trigger] user[i]),
    ensures
        fetch::target_of(scheme + "://"@ + (user + "@"@ + rest)) == fetch::target_of(
            scheme + "://"@ + rest,
        ),
{
    reveal_strlit("/?#");
    reveal_strlit("@");
    let a = user + "@"@;
    assert forall|i: int| 0 <= i < a.len() implies !"/?#"@.contains(#[trigger] a[i]) by {
        if i == user.len() {
            assert(a[i] == '@');
        } else {
            assert(a[i] == user[i]);
        }
    }
    lemma_first_of_joined(a, rest, "/?#"@, 0);
    text::lemma_first_of(rest, "/?#"@, 0);
    let b = text::before_any(rest, "/?#"@);
    assert(text::before_any(a + rest, "/?#"@) =~= a + b);
    assert(a.last() == '@');
    lemma_last_index_joined(a, b, '@');
    lemma_target(scheme, a + rest);
    lemma_target(scheme, rest);
}

proof fn lemma_none_before(s: Seq<char>, set: Seq<char>, from: int, i: int)
    requires
        0 <= from <= i < text::first_of(s, set, from),
    ensures
        i < s.len(),
        !set.contains(s[i]),
    decreases s.len() - from,
{
    text::lemma_first_of(s, set, from);
    if from < i {
        lemma_none_before(s, set, from + 1, i);
    }
}

/// What follows an authority does not change it, if it starts as it must.
proof fn lemma_authority_stays(rest: Seq<char>, tail: Seq<char>)
    requires
        tail.len() == 0 || tail[0] == '/' || tail[0] == '?' || tail[0] == '#',
    ensures
        fetch::authority_in(fetch::authority_in(rest) + tail) == fetch::authority_in(rest),
{
    reveal_strlit("/?#");
    let set = "/?#"@;
    let a = fetch::authority_in(rest);
    text::lemma_first_of(rest, set, 0);
    assert forall|i: int| 0 <= i < a.len() implies !set.contains(#[trigger] a[i]) by {
        lemma_none_before(rest, set, 0, i);
    }
    lemma_first_of_joined(a, tail, set, 0);
    if tail.len() > 0 {
        assert(set[0] == '/' && set[1] == '?' && set[2] == '#');
        assert(set.contains(tail[0]));
    }
    assert((a + tail).take(a.len() as int) =~= a);
}

/// A redirect that names no other authority stays with the host that sent it.
pub proof fn a_relative_redirect_keeps_the_host(
    scheme: Seq<char>,
    rest: Seq<char>,
    loc: Seq<char>,
)
    requires
        !scheme.contains(':'),
        !"//"@.is_prefix_of(loc),
    ensures
        fetch::target_of(fetch::relative_to(scheme, rest, loc)) == fetch::target_of(
            scheme + "://"@ + rest,
        ),
{
    reveal_strlit("/");
    reveal_strlit("?#");
    reveal_strlit("#");
    reveal_strlit("/?#");
    let a = fetch::authority_in(rest);
    let after = fetch::after_authority(rest);
    let place = text::before_any(loc, "?#"@);
    text::lemma_first_of(rest, "/?#"@, 0);
    text::lemma_first_of(loc, "?#"@, 0);
    text::lemma_first_of(after, "?#"@, 0);
    text::lemma_first_of(after, "#"@, 0);
    if after.len() > 0 {
        let c = rest[a.len() as int];
        assert(after[0] == c);
        assert("/?#"@.contains(c));
        assert(c == '/' || c == '?' || c == '#');
    }
    if loc.len() > 0 && place.len() == 0 {
        assert("?#"@.contains(loc[0]));
        assert(loc[0] == '?' || loc[0] == '#');
    }
    let tail = if place.len() > 0 {
        let path = if place[0] == '/' {
            place
        } else {
            fetch::directory(fetch::path_in(rest)) + place
        };
        fetch::tidy(path) + loc.skip(place.len() as int)
    } else if loc.len() > 0 && loc[0] == '?' {
        fetch::path_in(rest) + loc
    } else {
        text::before_any(after, "#"@) + loc
    };
    assert(fetch::relative_to(scheme, rest, loc) =~= scheme + "://"@ + (a + tail));
    lemma_authority_stays(rest, tail);
    lemma_target(scheme, a + tail);
    lemma_target(scheme, rest);
}

/// A filename never comes from the host: a URL without a path has none.
pub proof fn a_host_is_no_filename(scheme: Seq<char>, rest: Seq<char>)
    requires
        !scheme.contains(':'),
        !rest.contains('/'),
    ensures
        fetch::filename_of(scheme + "://"@ + rest) is None,
{
    reveal_strlit("://");
    lemma_cut_scheme(scheme, rest, 0);
    let s = scheme + "://"@ + rest;
    assert(s.skip(scheme.len() as int + 3) =~= rest);
    let path = fetch::path_in(rest);
    text::lemma_first_of(rest, "/?#"@, 0);
    text::lemma_first_of(fetch::after_authority(rest), "?#"@, 0);
    if let Some(i) = text::last_index(path, '/') {
        lemma_last_index_is_there(path, '/');
        let k = fetch::authority_in(rest).len() + i;
        assert(rest[k as int] == '/');
    }
}

proof fn lemma_last_index_is_there(s: Seq<char>, c: char)
    ensures
        text::last_index(s, c) matches Some(i) ==> 0 <= i < s.len() && s[i] == c,
    decreases s.len(),
{
    if s.len() > 0 && s.last() != c {
        lemma_last_index_is_there(s.drop_last(), c);
    }
}

} // verus!
