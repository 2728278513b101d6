//! What a fetch brings back and asks for, told by what the network answered.

use vstd::prelude::*;

use crate::config::ProfileConfig;
use crate::error::ErrorView;
use crate::fetch;
use crate::fetch::{ActionView, Event, FetchView, Reply, StageView, StepView};
use crate::fetch_laws;
use crate::source_laws;
use crate::stream::StreamInfoView;
use crate::text;
use crate::text_laws;

verus! {

/// The target of the last request that was to be made up to here.
pub open spec fn last_requested(
    url: Seq<char>,
    cfg: ProfileConfig,
    info: StreamInfoView,
    events: Seq<Event>,
) -> Option<Seq<char>>
    decreases events.len(),
{
    match fetch_laws::ran(url, cfg, info, events) {
        StepView::Wait(_, ActionView::Request { url: target, .. }) => Some(target),
        _ => if events.len() == 0 {
            None
        } else {
            last_requested(url, cfg, info, events.drop_last())
        },
    }
}

/// What a fetch under way holds on to: where the caller sent it, what the caller
/// knew, the target of its last request, and the response that it reads.
spec fn on_its_way(
    url: Seq<char>,
    cfg: ProfileConfig,
    info: StreamInfoView,
    events: Seq<Event>,
    f: FetchView,
) -> bool {
    &&& f.start == url
    &&& f.info == info
    &&& !(f.stage is Resolving) ==> last_requested(url, cfg, info, events) == Some(f.current)
    &&& f.stage matches StageView::Reading { content_type } ==> {
        &&& events.len() > 0
        &&& events.last() matches Event::Replied(Reply::Head { status, content_type: said, .. })
            && 200 <= status < 300 && content_type == text::text_of(said)
    }
}

proof fn lemma_on_its_way(
    url: Seq<char>,
    cfg: ProfileConfig,
    info: StreamInfoView,
    events: Seq<Event>,
)
    requires
        fetch_laws::orderly(url, cfg, info, events),
    ensures
        fetch_laws::ran(url, cfg, info, events) matches StepView::Wait(f, _) ==> on_its_way(
            url,
            cfg,
            info,
            events,
            f,
        ),
    decreases events.len(),
{
    if events.len() > 0 {
        lemma_on_its_way(url, cfg, info, events.drop_last());
    }
}

/// What a fetch brings back are the bytes of the body that it read, from the
/// target of its last request: that is the URL they are known by, wherever the
/// fetch began. The content type is the one that this response declared, where
/// the caller gave none, and every hint that the caller gave stays.
pub proof fn the_last_response_is_brought_back(
    url: Seq<char>,
    cfg: ProfileConfig,
    info: StreamInfoView,
    events: Seq<Event>,
)
    requires
        fetch_laws::orderly(url, cfg, info, events),
        fetch_laws::ran(url, cfg, info, events) is Done,
    ensures
        ({
            let a = fetch_laws::ran(url, cfg, info, events)->Done_0;
            let last = last_requested(url, cfg, info, events);
            &&& last is Some
            &&& a.info.url == last
            &&& a.mode == "url"@
            &&& events.len() >= 2
            &&& events.last() matches Event::Body(Ok(bytes)) && a.bytes == bytes@
            &&& events[events.len() - 2] matches Event::Replied(
                Reply::Head { status, content_type, .. },
            ) && {
                &&& 200 <= status < 300
                &&& info.mimetype is None ==> match content_type {
                    Some(said) => {
                        &&& a.info.content_type == Some(said@)
                        &&& a.info.mimetype is Some
                        &&& source_laws::without_parameters(said@, a.info.mimetype->0)
                    },
                    None => a.info.mimetype is None && a.info.content_type == info.content_type,
                }
            }
            &&& info.mimetype is Some ==> a.info.mimetype == info.mimetype && a.info.content_type
                == info.content_type
            &&& info.filename is Some ==> a.info.filename == info.filename && a.info.extension
                == info.extension
            &&& a.info.charset == info.charset
        }),
{
    let before = events.drop_last();
    lemma_on_its_way(url, cfg, info, before);
    let f = fetch_laws::ran(url, cfg, info, before)->Wait_0;
    if let StageView::Reading { content_type } = f.stage {
        assert(before.last() == events[events.len() - 2]);
        if let Some(m) = content_type {
            source_laws::a_content_type_brings_its_essence(info, m);
        }
    }
}

pub(crate) proof fn lemma_before_any(a: Seq<char>, b: Seq<char>, set: Seq<char>)
    requires
        forall|i: int| 0 <= i < a.len() ==> !set.contains(#[trigger] a[i]),
        b.len() > 0 ==> set.contains(b[0]),
    ensures
        text::before_any(a + b, set) == a,
{
    let s = a + b;
    text_laws::the_start_ends_before_the_set(s, set);
    let p = text::before_any(s, set);
    if p.len() < a.len() {
        assert(s[p.len() as int] == a[p.len() as int]);
    }
    if p.len() > a.len() {
        assert(p[a.len() as int] == s[a.len() as int]);
        assert(s[a.len() as int] == b[0]);
    }
    assert(p =~= a);
}

pub(crate) proof fn lemma_cut_scheme(scheme: Seq<char>, rest: Seq<char>)
    requires
        !scheme.contains(':'),
    ensures
        text::cut(scheme + "://"@ + rest, "://"@) == Some((scheme, rest)),
{
    reveal_strlit("://");
    let s = scheme + "://"@ + rest;
    text_laws::a_text_is_cut_at_the_first_occurrence(s, "://"@);
    let n = scheme.len() as int;
    assert(s.subrange(n, n + 3) =~= "://"@);
    match text::cut(s, "://"@) {
        Some((a, b)) => {
            if a.len() < n {
                assert(s[a.len() as int] == "://"@[0]);
                assert(s[a.len() as int] == scheme[a.len() as int]);
            }
            assert(a.len() == n);
            assert(a =~= s.take(n));
            assert(a =~= scheme);
            assert(b =~= s.skip(n + 3));
            assert(b =~= rest);
        },
        None => {},
    }
}

/// Whether a text holds none of the characters that end an authority.
pub open spec fn of_authority(s: Seq<char>) -> bool {
    !s.contains('/') && !s.contains('?') && !s.contains('#')
}

/// Whether a text begins the query or the fragment of a URL, or nothing follows.
pub open spec fn ends_path(s: Seq<char>) -> bool {
    s.len() > 0 ==> s[0] == '?' || s[0] == '#'
}

pub(crate) proof fn lemma_ends(tail: Seq<char>)
    requires
        ends_path(tail),
    ensures
        tail.len() > 0 ==> "?#"@.contains(tail[0]) && "/?#"@.contains(tail[0]),
{
    reveal_strlit("?#");
    reveal_strlit("/?#");
    assert("?#"@[0] == '?' && "?#"@[1] == '#');
    assert("/?#"@[1] == '?' && "/?#"@[2] == '#');
}

pub(crate) proof fn lemma_none_of(s: Seq<char>)
    ensures
        of_authority(s) ==> forall|i: int| 0 <= i < s.len() ==> !"/?#"@.contains(#[trigger] s[i]),
        !s.contains('?') && !s.contains('#') ==> forall|i: int|
            0 <= i < s.len() ==> !"?#"@.contains(#[trigger] s[i]),
{
    reveal_strlit("?#");
    reveal_strlit("/?#");
}

/// The parts of a URL: after the scheme stands the authority, up to the first
/// character that ends it, then the path, up to the query or the fragment.
pub(crate) proof fn lemma_parts(authority: Seq<char>, path: Seq<char>, tail: Seq<char>)
    requires
        of_authority(authority),
        path.len() > 0 ==> path[0] == '/',
        !path.contains('?'),
        !path.contains('#'),
        ends_path(tail),
    ensures
        fetch::authority_in(authority + path + tail) == authority,
        fetch::after_authority(authority + path + tail) == path + tail,
        fetch::path_in(authority + path + tail) == path,
{
    reveal_strlit("/?#");
    lemma_ends(tail);
    lemma_none_of(authority);
    lemma_none_of(path);
    let rest = authority + path + tail;
    let b = path + tail;
    assert(rest =~= authority + b);
    if path.len() > 0 {
        assert("/?#"@[0] == '/');
        assert(b[0] == '/');
    } else {
        assert(b =~= tail);
    }
    lemma_before_any(authority, b, "/?#"@);
    assert(rest.skip(authority.len() as int) =~= b);
    lemma_before_any(path, tail, "?#"@);
}

/// A URL's filename is the last segment of its path where that holds a dot, and
/// there is none where it holds none: neither the directories before it nor the
/// query or the fragment after it count.
pub proof fn a_filename_is_the_last_segment(
    scheme: Seq<char>,
    authority: Seq<char>,
    dirs: Seq<char>,
    segment: Seq<char>,
    tail: Seq<char>,
)
    requires
        !scheme.contains(':'),
        of_authority(authority),
        dirs.len() > 0,
        dirs[0] == '/',
        dirs.last() == '/',
        !dirs.contains('?'),
        !dirs.contains('#'),
        of_authority(segment),
        ends_path(tail),
    ensures
        fetch::filename_of(scheme + "://"@ + (authority + (dirs + segment) + tail))
            == if segment.contains('.') {
            Some(segment)
        } else {
            None
        },
{
    reveal_strlit(".");
    let path = dirs + segment;
    let rest = authority + path + tail;
    lemma_cut_scheme(scheme, rest);
    assert forall|i: int| 0 <= i < path.len() implies #[trigger] path[i] != '?' && path[i]
        != '#' by {
        if i < dirs.len() {
            assert(path[i] == dirs[i]);
        } else {
            assert(path[i] == segment[i - dirs.len()]);
        }
    }
    assert(path[0] == dirs[0]);
    lemma_parts(authority, path, tail);
    assert(path =~= dirs.drop_last() + seq!['/'] + segment);
    text_laws::the_last_cut_is_the_only_one(dirs.drop_last(), '/', segment);
    text_laws::a_pattern_is_found_where_it_stands(segment, "."@);
    if segment.contains('.') {
        let i = choose|i: int| 0 <= i < segment.len() && segment[i] == '.';
        assert(segment.subrange(i, i + 1) =~= "."@);
    }
    if text::has(segment, "."@) {
        let i = choose|i: int|
            0 <= i <= segment.len() - 1 && #[trigger] segment.subrange(i, i + 1) == "."@;
        assert(segment.subrange(i, i + 1)[0] == segment[i]);
        assert(segment.contains('.'));
    }
}

/// A fetch names what it brings back after the target of its last request: the
/// last segment of that path where it holds a dot, with its extension, and
/// nothing where it holds none. A name that the caller gave is kept.
pub proof fn what_is_fetched_is_named_after_its_target(
    url: Seq<char>,
    cfg: ProfileConfig,
    info: StreamInfoView,
    events: Seq<Event>,
    scheme: Seq<char>,
    authority: Seq<char>,
    dirs: Seq<char>,
    segment: Seq<char>,
    tail: Seq<char>,
)
    requires
        fetch_laws::orderly(url, cfg, info, events),
        fetch_laws::ran(url, cfg, info, events) is Done,
        info.filename is None,
        last_requested(url, cfg, info, events) == Some(
            scheme + "://"@ + (authority + (dirs + segment) + tail),
        ),
        !scheme.contains(':'),
        of_authority(authority),
        dirs.len() > 0,
        dirs[0] == '/',
        dirs.last() == '/',
        !dirs.contains('?'),
        !dirs.contains('#'),
        of_authority(segment),
        ends_path(tail),
    ensures
        ({
            let a = fetch_laws::ran(url, cfg, info, events)->Done_0;
            if segment.contains('.') {
                &&& a.info.filename == Some(segment)
                &&& source_laws::follows_last_dot(segment, a.info.extension)
            } else {
                &&& a.info.filename is None
                &&& a.info.extension == info.extension
            }
        }),
{
    let before = events.drop_last();
    lemma_on_its_way(url, cfg, info, before);
    a_filename_is_the_last_segment(scheme, authority, dirs, segment, tail);
    let f = fetch_laws::ran(url, cfg, info, before)->Wait_0;
    if let StageView::Reading { content_type } = f.stage {
        source_laws::a_name_brings_its_extension(info.typed_or(content_type), segment);
        if let Some(m) = content_type {
            source_laws::a_content_type_brings_its_essence(info, m);
        }
    }
}

/// Where the target of the last request has no path, the fetch gives no name to
/// what it brings back.
pub proof fn a_target_without_a_path_names_nothing(
    url: Seq<char>,
    cfg: ProfileConfig,
    info: StreamInfoView,
    events: Seq<Event>,
    scheme: Seq<char>,
    authority: Seq<char>,
    tail: Seq<char>,
)
    requires
        fetch_laws::orderly(url, cfg, info, events),
        fetch_laws::ran(url, cfg, info, events) is Done,
        info.filename is None,
        last_requested(url, cfg, info, events) == Some(scheme + "://"@ + (authority + tail)),
        !scheme.contains(':'),
        of_authority(authority),
        ends_path(tail),
    ensures
        fetch_laws::ran(url, cfg, info, events)->Done_0.info.filename is None,
        fetch_laws::ran(url, cfg, info, events)->Done_0.info.extension == info.extension,
{
    let before = events.drop_last();
    lemma_on_its_way(url, cfg, info, before);
    let none = Seq::<char>::empty();
    assert(authority + tail =~= authority + none + tail);
    lemma_parts(authority, none, tail);
    lemma_cut_scheme(scheme, authority + tail);
    text_laws::a_text_is_cut_at_the_last_occurrence(none, '/');
    let f = fetch_laws::ran(url, cfg, info, before)->Wait_0;
    if let StageView::Reading { content_type: Some(m) } = f.stage {
        source_laws::a_content_type_brings_its_essence(info, m);
    }
}

/// Every request is given the time that the profile sets, and every body is
/// read to one byte more than the profile takes, so that a longer one is seen.
pub proof fn requests_and_reads_are_bounded(
    url: Seq<char>,
    cfg: ProfileConfig,
    info: StreamInfoView,
    events: Seq<Event>,
)
    requires
        fetch_laws::orderly(url, cfg, info, events),
    ensures
        match fetch_laws::ran(url, cfg, info, events) {
            StepView::Wait(_, ActionView::Request { timeout_ms, .. }) => timeout_ms
                == cfg.url.timeout_ms,
            StepView::Wait(_, ActionView::Read { ceiling }) => {
                let limit = cfg.convert.limits.max_input_bytes;
                ceiling == if limit == u64::MAX {
                    limit as int
                } else {
                    limit + 1
                }
            },
            _ => true,
        },
{
}

/// What comes of a response: its body is read where the status is one of
/// success, its `Location` is followed where it is one of redirection, and
/// everything else ends the fetch and is told with the URL that was requested.
pub proof fn a_response_is_judged_by_its_status(
    url: Seq<char>,
    cfg: ProfileConfig,
    info: StreamInfoView,
    events: Seq<Event>,
)
    requires
        fetch_laws::orderly(url, cfg, info, events),
        events.len() > 0,
        events.last() is Replied,
    ensures
        ({
            let target = last_requested(url, cfg, info, events.drop_last())->0;
            let step = fetch_laws::ran(url, cfg, info, events);
            let told = |message: Seq<char>|
                step == StepView::Fail(ErrorView::Transport { message });
            match events.last()->Replied_0 {
                Reply::Head { status, location, content_type } => {
                    &&& 200 <= status <= 299 ==> step is Wait && step->Wait_1 is Read
                    &&& !(200 <= status <= 399) ==> told(
                        target + " returned HTTP "@ + text::decimal(status as nat),
                    )
                    &&& 300 <= status <= 399 && location is None ==> told(
                        target + " returned "@ + text::decimal(status as nat)
                            + " with no Location header"@,
                    )
                    &&& 300 <= status <= 399 && location is Some ==> !(step is Done) && !(step
                        matches StepView::Wait(_, ActionView::Read { .. }))
                },
                Reply::Status { code, error } => if 300 <= code <= 399 {
                    told(
                        target + " redirected with status "@ + text::decimal(code as nat)
                            + " but sent no Location header"@,
                    )
                } else {
                    told("fetching "@ + target + ": "@ + error@)
                },
                Reply::Lost { error } => told("fetching "@ + target + ": "@ + error@),
            }
        }),
{
    lemma_on_its_way(url, cfg, info, events.drop_last());
}

/// What comes of a body: it is brought back where the profile takes its length,
/// and refused where it is longer or could not be read.
pub proof fn a_body_is_taken_up_to_the_limit(
    url: Seq<char>,
    cfg: ProfileConfig,
    info: StreamInfoView,
    events: Seq<Event>,
)
    requires
        fetch_laws::orderly(url, cfg, info, events),
        events.len() > 0,
        events.last() is Body,
    ensures
        ({
            let target = last_requested(url, cfg, info, events.drop_last())->0;
            let step = fetch_laws::ran(url, cfg, info, events);
            let limit = cfg.convert.limits.max_input_bytes;
            match events.last()->Body_0 {
                Ok(bytes) => if bytes@.len() <= limit {
                    step is Done && step->Done_0.bytes == bytes@
                } else {
                    step == StepView::Fail(
                        ErrorView::Transport {
                            message: target + " is larger than max_input_bytes ("@ + text::decimal(
                                limit as nat,
                            ) + ")"@,
                        },
                    )
                },
                Err(e) => step == StepView::Fail(
                    ErrorView::Transport { message: "reading "@ + target + ": "@ + e@ },
                ),
            }
        }),
{
    lemma_on_its_way(url, cfg, info, events.drop_last());
}

proof fn lemma_first_private(addrs: Seq<fetch::Resolved>, from: int)
    requires
        0 <= from,
    ensures
        match fetch::first_private(addrs, from) {
            Some(i) => {
                &&& from <= i < addrs.len()
                &&& !fetch::public(addrs[i].ip)
                &&& forall|k: int| from <= k < i ==> fetch::public((#[trigger] addrs[k]).ip)
            },
            None => forall|k: int|
                from <= k < addrs.len() ==> fetch::public((#[trigger] addrs[k]).ip),
        },
    decreases addrs.len() - from,
{
    if from < addrs.len() {
        lemma_first_private(addrs, from + 1);
    }
}

/// What comes of a resolution: the target is requested where the host has
/// addresses and all of them are public. Everything else ends the fetch and is
/// told with the host, and with the first address that is not public.
pub proof fn a_resolution_is_judged_by_every_address(
    url: Seq<char>,
    cfg: ProfileConfig,
    info: StreamInfoView,
    events: Seq<Event>,
)
    requires
        fetch_laws::orderly(url, cfg, info, events),
        events.len() > 0,
        events.last() is Resolved,
    ensures
        fetch_laws::ran(url, cfg, info, events.drop_last())->Wait_0.stage is Resolving,
        ({
            let f = fetch_laws::ran(url, cfg, info, events.drop_last())->Wait_0;
            let host = f.stage->host;
            let step = fetch_laws::ran(url, cfg, info, events);
            let told = |message: Seq<char>|
                step == StepView::Fail(ErrorView::Transport { message });
            match events.last()->Resolved_0 {
                Err(e) => told(host + " did not resolve: "@ + e@),
                Ok(addrs) => {
                    &&& addrs@.len() == 0 ==> told(host + " resolved to no addresses"@)
                    &&& addrs@.len() > 0 && (forall|k: int|
                        0 <= k < addrs@.len() ==> fetch::public((#[trigger] addrs@[k]).ip)) ==> {
                        step matches StepView::Wait(g, ActionView::Request { url: target, .. })
                            && target == f.current
                    }
                    &&& forall|i: int|
                        0 <= i < addrs@.len() && !fetch::public((#[trigger] addrs@[i]).ip) && (
                        forall|k: int|
                            0 <= k < i ==> fetch::public((#[trigger] addrs@[k]).ip)) ==> told(
                            host + " resolves to the non-public address "@ + addrs@[i].text@
                                + "; set url.allow_private_addresses to permit it"@,
                        )
                },
            }
        }),
{
    lemma_on_its_way(url, cfg, info, events.drop_last());
    if let Ok(addrs) = events.last()->Resolved_0 {
        lemma_first_private(addrs@, 0);
    }
}

/// A redirect is followed as if the fetch began there, under the same policy,
/// as long as the profile allows one more request; with none left, the URL that
/// the caller named is told to have exceeded the limit.
pub proof fn a_redirect_begins_anew(
    url: Seq<char>,
    cfg: ProfileConfig,
    info: StreamInfoView,
    events: Seq<Event>,
)
    requires
        fetch_laws::orderly(url, cfg, info, events),
        events.len() > 0,
        events.last() matches Event::Replied(Reply::Head { status, location, .. }) && 300 <= status
            <= 399 && location is Some,
    ensures
        ({
            let target = last_requested(url, cfg, info, events.drop_last())->0;
            let step = fetch_laws::ran(url, cfg, info, events);
            let made = fetch_laws::requests(url, cfg, info, events.drop_last());
            match fetch::redirected(target, events.last()->Replied_0->location->0@) {
                Err(message) => step == StepView::Fail(ErrorView::Transport { message }),
                Ok(next) => if made > cfg.url.max_redirects {
                    step == StepView::Fail(
                        ErrorView::Transport {
                            message: url + " exceeded max_redirects ("@ + text::decimal(
                                cfg.url.max_redirects as nat,
                            ) + ")"@,
                        },
                    )
                } else {
                    match fetch::begun(next, cfg, info) {
                        StepView::Wait(_, action) => {
                            &&& step is Wait
                            &&& step->Wait_0.current == next
                            &&& step->Wait_0.start == url
                            &&& step->Wait_1 == action
                        },
                        refused => step == refused,
                    }
                },
            }
        }),
{
    lemma_on_its_way(url, cfg, info, events.drop_last());
    fetch_laws::lemma_requests(url, cfg, info, events.drop_last());
}

} // verus!
