use markdown_plugin::config::{ConvertOptions, Limits, UrlOptions};
use markdown_plugin::error::BackendError;
use markdown_plugin::fetch::{
    check_addresses, filename_from_url, guard, is_public, resolve_redirect, split_host_port,
    Action, Event, Fetch, Guard, IpAddr, Reply, Resolved, Step,
};
use markdown_plugin::source::Acquired;
use markdown_plugin::stream::StreamInfo;
use markdown_plugin::ProfileConfig;

fn cfg(url: UrlOptions) -> ProfileConfig {
    let limits = Limits {
        max_input_bytes: 16,
        max_output_bytes: 1024,
        max_expanded_bytes: 1024,
        timeout_ms: 30_000,
        max_depth: 3,
    };
    ProfileConfig {
        url,
        ..ProfileConfig::with_engine_options(ConvertOptions { limits })
    }
}

fn v4(text: &str) -> Resolved {
    let octets: Vec<u8> = text.split('.').map(|o| o.parse().unwrap()).collect();
    Resolved {
        ip: IpAddr::V4([octets[0], octets[1], octets[2], octets[3]]),
        text: text.to_owned(),
    }
}

fn v6(groups: [u16; 8], text: &str) -> Resolved {
    Resolved {
        ip: IpAddr::V6(groups),
        text: text.to_owned(),
    }
}

/// What the resolver says of the hosts that these tests name.
fn resolve(host: &str) -> Vec<Resolved> {
    match host {
        "localhost" => vec![v4("127.0.0.1"), v6([0, 0, 0, 0, 0, 0, 0, 1], "::1")],
        "::1" => vec![v6([0, 0, 0, 0, 0, 0, 0, 1], "::1")],
        literal => vec![v4(literal)],
    }
}

/// The guard, with the addresses looked at.
fn guarded(url: &str, cfg: &ProfileConfig) -> Result<(), BackendError> {
    match guard(url, cfg)? {
        Guard::Cleared => Ok(()),
        Guard::Resolve { host, .. } => check_addresses(&host, &Ok(resolve(&host))),
    }
}

fn text(e: BackendError) -> String {
    e.describe()
}

#[test]
fn loopback_and_metadata_addresses_are_refused() {
    let c = cfg(UrlOptions::default());
    for url in [
        "http://127.0.0.1/x",
        "http://localhost/x",
        "http://169.254.169.254/latest/meta-data/",
        "http://[::1]/x",
    ] {
        let e = guarded(url, &c);
        assert!(e.is_err(), "{url} was allowed");
    }
}

#[test]
fn private_ranges_are_refused() {
    let c = cfg(UrlOptions::default());
    for url in [
        "http://10.0.0.1/x",
        "http://192.168.1.1/x",
        "http://172.16.0.1/x",
        "http://100.64.0.1/x",
    ] {
        assert!(guarded(url, &c).is_err(), "{url} was allowed");
    }
}

#[test]
fn an_ipv4_mapped_ipv6_loopback_is_still_loopback() {
    assert!(!is_public(IpAddr::V6([0, 0, 0, 0, 0, 0xffff, 0x7f00, 1])));
    assert!(!is_public(IpAddr::V6([0, 0, 0, 0, 0, 0xffff, 0x0a00, 1])));
}

#[test]
fn unique_local_and_link_local_ipv6_are_refused() {
    assert!(!is_public(IpAddr::V6([0xfd00, 0, 0, 0, 0, 0, 0, 1])));
    assert!(!is_public(IpAddr::V6([0xfe80, 0, 0, 0, 0, 0, 0, 1])));
    assert!(is_public(IpAddr::V6([0x2606, 0x4700, 0, 0, 0, 0, 0, 0x1111])));
}

#[test]
fn opting_in_permits_private_addresses() {
    let c = cfg(UrlOptions {
        allow_private_addresses: true,
        ..UrlOptions::default()
    });
    assert!(guarded("http://127.0.0.1/x", &c).is_ok());
}

#[test]
fn non_http_schemes_are_refused() {
    let c = cfg(UrlOptions {
        allow_private_addresses: true,
        ..UrlOptions::default()
    });
    for url in ["file:///etc/passwd", "gopher://x/", "ftp://x/"] {
        assert!(guarded(url, &c).is_err(), "{url} was allowed");
    }
    assert_eq!(
        text(guarded("ftp://x/", &c).unwrap_err()),
        "Transport { message: \"refusing scheme \\\"ftp\\\"\" }"
    );
}

#[test]
fn the_host_allowlist_is_applied_before_resolution() {
    let c = cfg(UrlOptions {
        allow_hosts: vec!["docs.example.test".to_owned()],
        allow_private_addresses: true,
        ..UrlOptions::default()
    });
    assert!(guarded("https://docs.example.test/a.pdf", &c).is_ok());
    let e = guarded("https://evil.example.test/a.pdf", &c).unwrap_err();
    assert!(format!("{e:?}").contains("allow_hosts"), "{e:?}");
}

#[test]
fn the_allowlist_does_not_tell_capitals_from_small_letters() {
    let c = cfg(UrlOptions {
        allow_hosts: vec!["Docs.Example.TEST".to_owned()],
        ..UrlOptions::default()
    });
    match guard("https://docs.example.test:8443/a.pdf", &c) {
        Ok(Guard::Resolve { host, port }) => {
            assert_eq!(host, "docs.example.test");
            assert_eq!(port, 8443);
        }
        other => panic!("{other:?}"),
    }
}

#[test]
fn credentials_in_the_authority_do_not_hide_the_host() {
    // `http://allowed.test@evil.test/` points at evil.test.
    let c = cfg(UrlOptions {
        allow_hosts: vec!["allowed.test".to_owned()],
        allow_private_addresses: true,
        ..UrlOptions::default()
    });
    assert!(guarded("http://allowed.test@evil.test/x", &c).is_err());
}

#[test]
fn host_and_port_split_handles_ipv6_literals() {
    assert_eq!(split_host_port("[::1]:8080", "http"), ("::1".into(), 8080));
    assert_eq!(split_host_port("[::1]", "https"), ("::1".into(), 443));
    assert_eq!(split_host_port("h:99", "http"), ("h".into(), 99));
    assert_eq!(split_host_port("h", "http"), ("h".into(), 80));
}

#[test]
fn a_port_that_is_no_port_falls_back_to_the_scheme() {
    assert_eq!(split_host_port("h:", "https"), ("h".into(), 443));
    assert_eq!(split_host_port("h:65535", "http"), ("h".into(), 65535));
    assert_eq!(split_host_port("h:65536", "http"), ("h".into(), 80));
    assert_eq!(split_host_port("[::1", "http"), ("::1".into(), 80));
    assert_eq!(split_host_port("[::1]x:9", "http"), ("::1".into(), 80));
}

#[test]
fn redirects_resolve_relative_and_absolute_locations() {
    let base = "https://example.test/docs/a.html";
    assert_eq!(
        resolve_redirect(base, "https://other.test/b").unwrap(),
        "https://other.test/b"
    );
    assert_eq!(
        resolve_redirect(base, "/root/b").unwrap(),
        "https://example.test/root/b"
    );
    assert_eq!(
        resolve_redirect(base, "b.html").unwrap(),
        "https://example.test/docs/b.html"
    );
}

#[test]
fn a_redirect_from_a_malformed_url_is_refused() {
    assert_eq!(
        resolve_redirect("no scheme", "b"),
        Err(BackendError::Transport {
            message: "malformed url \"no scheme\"".to_owned()
        })
    );
}

#[test]
fn a_redirect_keeps_the_host_of_a_url_without_a_path() {
    for (base, location, target) in [
        ("https://example.test", "b.html", "https://example.test/b.html"),
        ("https://example.test", " b ", "https://example.test/b"),
        ("https://example.test?q=/x/", "b.html", "https://example.test/b.html"),
        ("https://example.test#/x/", "/b", "https://example.test/b"),
        ("http://example.test:8080", "?q", "http://example.test:8080?q"),
    ] {
        assert_eq!(resolve_redirect(base, location).unwrap(), target);
    }
}

#[test]
fn a_redirect_resolves_against_the_path_alone() {
    let base = "https://example.test/docs/a.html?x=/y/z#/f/g";
    for (location, target) in [
        ("b.html", "https://example.test/docs/b.html"),
        ("//other.test/x", "https://other.test/x"),
        ("?q=1", "https://example.test/docs/a.html?q=1"),
        ("#part", "https://example.test/docs/a.html?x=/y/z#part"),
        ("", "https://example.test/docs/a.html?x=/y/z"),
        ("login?next=https://evil.test/", "https://example.test/docs/login?next=https://evil.test/"),
        ("/login?next=https://evil.test/", "https://example.test/login?next=https://evil.test/"),
        ("?next=https://evil.test/", "https://example.test/docs/a.html?next=https://evil.test/"),
        ("../b", "https://example.test/b"),
        ("./b", "https://example.test/docs/b"),
        ("../../../b/./c/../d", "https://example.test/b/d"),
        ("..", "https://example.test/"),
        (".", "https://example.test/docs/"),
    ] {
        assert_eq!(resolve_redirect(base, location).unwrap(), target, "{location}");
    }
}

#[test]
fn a_filename_is_derived_from_the_path_when_it_has_one() {
    assert_eq!(
        filename_from_url("https://x.test/a/report.pdf?v=2"),
        Some("report.pdf".to_owned())
    );
    assert_eq!(filename_from_url("https://x.test/a/"), None);
    assert_eq!(filename_from_url("https://x.test/noext"), None);
}

#[test]
fn a_url_without_a_path_names_no_file() {
    assert_eq!(filename_from_url("https://x.test"), None);
    assert_eq!(filename_from_url("https://x.test?f=/a.pdf"), None);
    assert_eq!(filename_from_url("https://x.test#/a.pdf"), None);
    assert_eq!(filename_from_url("https://x.test/a?f=/b.pdf"), None);
    assert_eq!(
        filename_from_url("https://x.test/b.csv#/a.pdf"),
        Some("b.csv".to_owned())
    );
}

#[test]
fn public_addresses_pass() {
    assert!(is_public(v4("8.8.8.8").ip));
    assert!(is_public(v4("1.1.1.1").ip));
}

#[test]
fn reserved_v4_ranges_are_refused() {
    assert!(!is_public(v4("240.0.0.1").ip));
    assert!(!is_public(v4("198.18.0.1").ip));
    assert!(!is_public(v4("192.0.0.1").ip));
    assert!(!is_public(v4("0.0.0.0").ip));
}

#[test]
fn the_edges_of_the_refused_ranges_are_where_they_belong() {
    for public in [
        "9.255.255.255", "11.0.0.0", "100.63.255.255", "100.128.0.0", "126.255.255.255",
        "128.0.0.0", "169.253.255.255", "172.15.255.255", "172.32.0.0", "192.0.1.0",
        "192.0.3.0", "192.167.255.255", "192.169.0.0", "198.17.255.255", "198.20.0.0",
        "198.51.99.255", "203.0.114.0", "223.255.255.255", "1.0.0.0",
    ] {
        assert!(is_public(v4(public).ip), "{public} was refused");
    }
    for private in [
        "0.0.0.1", "0.255.255.255", "10.0.0.0", "10.255.255.255", "100.64.0.0", "100.127.255.255", "127.0.0.0",
        "169.254.0.0", "172.16.0.0", "172.31.255.255", "192.0.0.255", "192.0.2.0",
        "192.168.255.255", "198.19.255.255", "198.51.100.7", "203.0.113.0", "224.0.0.0",
        "239.255.255.255", "255.255.255.255",
    ] {
        assert!(!is_public(v4(private).ip), "{private} was allowed");
    }
    for private in [
        [0; 8],
        [0, 0, 0, 0, 0, 0, 0, 2],
        // A v4 address behind zeros, as the first notation of such had it.
        [0, 0, 0, 0, 0, 0, 0x0808, 0x0808],
        [0x0100, 0, 0, 0, 0, 0, 0, 1],
        [0x1fff, 0xffff, 0, 0, 0, 0, 0, 1],
        [0x2001, 0, 0, 0, 0, 0, 0, 1],
        [0x2001, 0x0001, 0, 0, 0, 0, 0, 0],
        [0x2001, 0x0001, 0, 0, 0, 0, 0, 4],
        [0x2001, 0x0001, 0, 0, 0, 0, 1, 1],
        [0x2001, 0x0002, 0, 0, 0, 0, 0, 1],
        [0x2001, 0x0004, 0x0111, 0, 0, 0, 0, 1],
        [0x2001, 0x0004, 0x0113, 0, 0, 0, 0, 1],
        [0x2001, 0x001f, 0, 0, 0, 0, 0, 1],
        [0x2001, 0x0040, 0, 0, 0, 0, 0, 1],
        [0x2001, 0x01ff, 0, 0, 0, 0, 0, 1],
        [0x2001, 0x0db8, 0, 0, 0, 0, 0, 1],
        [0x3fff, 0, 0, 0, 0, 0, 0, 1],
        [0x3fff, 0x0fff, 0, 0, 0, 0, 0, 1],
        [0x4000, 0, 0, 0, 0, 0, 0, 0],
        [0xfbff, 0, 0, 0, 0, 0, 0, 0],
        [0xfdff, 1, 0, 0, 0, 0, 0, 0],
        [0xfebf, 0, 0, 0, 0, 0, 0, 0],
        [0xfec0, 0, 0, 0, 0, 0, 0, 0],
        [0xff02, 0, 0, 0, 0, 0, 0, 1],
    ] {
        assert!(!is_public(IpAddr::V6(private)), "{private:x?} was allowed");
    }
    for public in [
        [0x2000, 0, 0, 0, 0, 0, 0, 1],
        [0x2001, 0x0001, 0, 0, 0, 0, 0, 1],
        [0x2001, 0x0001, 0, 0, 0, 0, 0, 2],
        [0x2001, 0x0001, 0, 0, 0, 0, 0, 3],
        [0x2001, 0x0003, 0xffff, 0, 0, 0, 0, 1],
        [0x2001, 0x0004, 0x0112, 0, 0, 0, 0, 1],
        [0x2001, 0x0020, 0, 0, 0, 0, 0, 1],
        [0x2001, 0x002f, 0xffff, 0, 0, 0, 0, 1],
        [0x2001, 0x0030, 0, 0, 0, 0, 0, 1],
        [0x2001, 0x003f, 0xffff, 0, 0, 0, 0, 1],
        [0x2001, 0x0200, 0, 0, 0, 0, 0, 1],
        [0x2001, 0x0db7, 0, 0, 0, 0, 0, 1],
        [0x2001, 0x0db9, 0, 0, 0, 0, 0, 1],
        [0x3fff, 0x1000, 0, 0, 0, 0, 0, 1],
        [0x3ffe, 0xffff, 0, 0, 0, 0, 0, 1],
    ] {
        assert!(is_public(IpAddr::V6(public)), "{public:x?} was refused");
    }
}

#[test]
fn an_address_that_carries_a_v4_address_is_judged_by_it() {
    for (high, low, public) in [
        (0x0808, 0x0808, true),
        (0x0a00, 0x0001, false),
        (0x7f00, 0x0001, false),
        (0xa9fe, 0xa9fe, false),
        (0xc0a8, 0x0101, false),
    ] {
        let mapped = IpAddr::V6([0, 0, 0, 0, 0, 0xffff, high, low]);
        let translated = IpAddr::V6([0x64, 0xff9b, 0, 0, 0, 0, high, low]);
        let relayed = IpAddr::V6([0x2002, high, low, 0, 0, 0, 0, 1]);
        assert_eq!(is_public(mapped), public);
        assert_eq!(is_public(translated), public);
        assert_eq!(is_public(relayed), public);
    }
}

#[test]
fn one_private_answer_among_public_ones_is_enough() {
    let answer = Ok(vec![v4("8.8.8.8"), v4("10.0.0.7"), v4("127.0.0.1")]);
    assert_eq!(
        check_addresses("mixed.test", &answer),
        Err(BackendError::Transport {
            message: "mixed.test resolves to the non-public address 10.0.0.7; \
                      set url.allow_private_addresses to permit it"
                .to_owned()
        })
    );
}

#[test]
fn a_host_without_addresses_is_refused() {
    assert_eq!(
        check_addresses("none.test", &Ok(vec![])),
        Err(BackendError::Transport {
            message: "none.test resolved to no addresses".to_owned()
        })
    );
    assert_eq!(
        check_addresses("gone.test", &Err("no such host".to_owned())),
        Err(BackendError::Transport {
            message: "gone.test did not resolve: no such host".to_owned()
        })
    );
}

#[test]
fn a_url_without_a_host_is_malformed() {
    let c = cfg(UrlOptions::default());
    for url in ["nonsense", "http:///x", "http://user@/x"] {
        let e = guard(url, &c).unwrap_err();
        assert_eq!(
            e,
            BackendError::Transport {
                message: format!("malformed url {url:?}")
            }
        );
    }
}

fn public_answer() -> Event {
    Event::Resolved(Ok(vec![v4("8.8.8.8")]))
}

fn head(status: u16, location: Option<&str>, content_type: Option<&str>) -> Event {
    Event::Replied(Reply::Head {
        status,
        location: location.map(str::to_owned),
        content_type: content_type.map(str::to_owned),
    })
}

fn advance(step: Step<'_>, event: Event) -> Step<'_> {
    match step {
        Step::Wait(fetch, _) => {
            assert!(fetch.takes(&event), "{event:?}");
            fetch.advance(event)
        }
        over => panic!("{over:?}"),
    }
}

fn requested<'a>(step: &'a Step<'_>) -> Option<&'a str> {
    match step {
        Step::Wait(_, Action::Request { url, .. }) => Some(url),
        _ => None,
    }
}

fn refusal(step: Step<'_>) -> String {
    match step {
        Step::Fail(BackendError::Transport { message }) => message,
        other => panic!("{other:?}"),
    }
}

#[test]
fn a_fetch_resolves_then_requests_then_reads() {
    let c = cfg(UrlOptions::default());
    let step = Fetch::begin("https://x.test/a/r.csv", &c, StreamInfo::new());
    match &step {
        Step::Wait(_, Action::Resolve { host, port }) => {
            assert_eq!((host.as_str(), *port), ("x.test", 443));
        }
        other => panic!("{other:?}"),
    }
    let step = advance(step, public_answer());
    assert_eq!(requested(&step), Some("https://x.test/a/r.csv"));
    let step = advance(step, head(200, None, Some("text/csv; charset=utf-8")));
    assert!(matches!(step, Step::Wait(_, Action::Read { ceiling: 17 })));
    match advance(step, Event::Body(Ok(b"a,b".to_vec()))) {
        Step::Done(Acquired { bytes, info, mode }) => {
            assert_eq!(bytes, b"a,b");
            assert_eq!(mode, "url");
            assert_eq!(info.filename.as_deref(), Some("r.csv"));
            assert_eq!(info.mimetype.as_deref(), Some("text/csv"));
            assert_eq!(info.url.as_deref(), Some("https://x.test/a/r.csv"));
        }
        other => panic!("{other:?}"),
    }
}

#[test]
fn the_callers_hints_outrank_what_the_response_says() {
    let c = cfg(UrlOptions {
        allow_private_addresses: true,
        ..UrlOptions::default()
    });
    let info = StreamInfo::new()
        .with_filename("mine.txt")
        .with_mimetype("text/plain");
    let step = Fetch::begin("http://x.test/r.csv", &c, info);
    let step = advance(step, head(204, None, Some("text/csv")));
    match advance(step, Event::Body(Ok(vec![]))) {
        Step::Done(a) => {
            assert_eq!(a.info.filename.as_deref(), Some("mine.txt"));
            assert_eq!(a.info.mimetype.as_deref(), Some("text/plain"));
        }
        other => panic!("{other:?}"),
    }
}

#[test]
fn a_redirect_to_a_private_address_is_refused() {
    let c = cfg(UrlOptions::default());
    let step = Fetch::begin("https://x.test/", &c, StreamInfo::new());
    let step = advance(step, public_answer());
    let step = advance(
        step,
        head(302, Some("http://169.254.169.254/latest/"), None),
    );
    assert!(matches!(step, Step::Wait(_, Action::Resolve { .. })));
    let step = advance(step, Event::Resolved(Ok(vec![v4("169.254.169.254")])));
    assert!(refusal(step).contains("non-public address 169.254.169.254"));
}

#[test]
fn redirects_end_where_the_profile_says() {
    let c = cfg(UrlOptions {
        allow_private_addresses: true,
        max_redirects: 2,
        ..UrlOptions::default()
    });
    let mut step = Fetch::begin("http://x.test/0", &c, StreamInfo::new());
    let mut requests = 0;
    while requested(&step).is_some() {
        requests += 1;
        step = advance(step, head(301, Some(&format!("/{requests}")), None));
    }
    assert_eq!(requests, 3);
    assert_eq!(
        refusal(step),
        "http://x.test/0 exceeded max_redirects (2)"
    );
}

#[test]
fn every_failed_response_says_what_happened() {
    let c = cfg(UrlOptions {
        allow_private_addresses: true,
        ..UrlOptions::default()
    });
    let begin = || Fetch::begin("http://x.test/a", &c, StreamInfo::new());
    let said = |event| refusal(advance(begin(), event));
    assert_eq!(
        said(head(302, None, None)),
        "http://x.test/a returned 302 with no Location header"
    );
    assert_eq!(said(head(404, None, None)), "http://x.test/a returned HTTP 404");
    assert_eq!(said(head(199, None, None)), "http://x.test/a returned HTTP 199");
    assert_eq!(
        said(Event::Replied(Reply::Status {
            code: 307,
            error: "x".to_owned()
        })),
        "http://x.test/a redirected with status 307 but sent no Location header"
    );
    assert_eq!(
        said(Event::Replied(Reply::Status {
            code: 500,
            error: "http status: 500".to_owned()
        })),
        "fetching http://x.test/a: http status: 500"
    );
    assert_eq!(
        said(Event::Replied(Reply::Lost {
            error: "timed out".to_owned()
        })),
        "fetching http://x.test/a: timed out"
    );
}

#[test]
fn an_oversized_body_is_refused_rather_than_cut() {
    let c = cfg(UrlOptions {
        allow_private_addresses: true,
        ..UrlOptions::default()
    });
    let read = |body| {
        let step = Fetch::begin("http://x.test/a", &c, StreamInfo::new());
        let step = advance(step, head(200, None, None));
        advance(step, Event::Body(body))
    };
    assert!(matches!(read(Ok(vec![0; 16])), Step::Done(_)));
    assert_eq!(
        refusal(read(Ok(vec![0; 17]))),
        "http://x.test/a is larger than max_input_bytes (16)"
    );
    assert_eq!(
        refusal(read(Err("reset".to_owned()))),
        "reading http://x.test/a: reset"
    );
}

#[test]
fn a_fetch_takes_only_what_it_waits_for() {
    let c = cfg(UrlOptions::default());
    match Fetch::begin("https://x.test/", &c, StreamInfo::new()) {
        Step::Wait(fetch, _) => {
            assert_eq!(fetch.current(), "https://x.test/");
            assert!(fetch.takes(&public_answer()));
            assert!(!fetch.takes(&head(200, None, None)));
            assert!(!fetch.takes(&Event::Body(Ok(vec![]))));
        }
        other => panic!("{other:?}"),
    }
}

#[test]
fn a_fetch_that_is_redirected_on_and_on_still_ends() {
    let c = cfg(UrlOptions {
        max_redirects: 4,
        ..UrlOptions::default()
    });
    let mut step = Fetch::begin("https://x.test/", &c, StreamInfo::new());
    let mut events = 0;
    while let Step::Wait(fetch, action) = step {
        let event = match action {
            Action::Resolve { .. } => public_answer(),
            Action::Request { .. } => head(302, Some("/again"), None),
            Action::Read { .. } => Event::Body(Ok(vec![])),
        };
        events += 1;
        step = fetch.advance(event);
    }
    assert_eq!(events, 10);
    assert!(refusal(step).contains("exceeded max_redirects (4)"));
}
