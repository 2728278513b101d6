use base64::Engine as _;
use markdown_plugin::config::{ConvertOptions, Limits};
use markdown_plugin::error::BackendError;
use markdown_plugin::fetch::{Action, Step};
use markdown_plugin::source::{
    acquire, read_from_store, Acquired, ContentSource, ConvertArgs,
};
use markdown_plugin::stream::StreamInfo;
use markdown_plugin::{ProfileConfig, Sources};

fn args() -> ConvertArgs {
    ConvertArgs::default()
}

fn default_cfg() -> ProfileConfig {
    ProfileConfig::with_engine_options(ConvertOptions {
        limits: Limits {
            max_input_bytes: 1 << 20,
            max_output_bytes: 1 << 20,
            max_expanded_bytes: 1 << 20,
            timeout_ms: 30_000,
            max_depth: 3,
        },
    })
}

fn cfg_with(sources: Sources) -> ProfileConfig {
    ProfileConfig {
        sources,
        ..default_cfg()
    }
}

/// A content store that answers from a fixed map.
struct StubStore(Vec<(String, Vec<u8>)>);

impl ContentSource for StubStore {
    fn fetch_resource(&mut self, uri: &str) -> Result<Option<Vec<u8>>, String> {
        Ok(self
            .0
            .iter()
            .find(|(u, _)| u == uri)
            .map(|(_, b)| b.clone()))
    }
}

struct FailingStore;

impl ContentSource for FailingStore {
    fn fetch_resource(&mut self, _uri: &str) -> Result<Option<Vec<u8>>, String> {
        Err("store unavailable".to_owned())
    }
}

fn settled(step: Step<'_>) -> Result<Acquired, BackendError> {
    match step {
        Step::Done(acquired) => Ok(acquired),
        Step::Fail(e) => Err(e),
        waiting => panic!("{waiting:?}"),
    }
}

fn acquire_hostless(a: &ConvertArgs, c: &ProfileConfig) -> Result<Acquired, BackendError> {
    settled(acquire(a, c, &mut StubStore(Vec::new())))
}

#[test]
fn text_arrives_as_utf8_bytes() {
    let mut a = args();
    a.text = Some("hello".into());
    let got = acquire_hostless(&a, &default_cfg()).unwrap();
    assert_eq!(got.bytes, b"hello");
    assert_eq!(got.mode, "inline");
    assert_eq!(got.info.charset.as_deref(), Some("utf-8"));
}

#[test]
fn base64_content_decodes() {
    let mut a = args();
    a.content = Some("aGVsbG8=".into());
    assert_eq!(
        acquire_hostless(&a, &default_cfg()).unwrap().bytes,
        b"hello"
    );
}

#[test]
fn encoded_content_comes_back_whatever_the_bytes() {
    for n in 0..70u8 {
        let bytes: Vec<u8> = (0..n).map(|i| i.wrapping_mul(37)).collect();
        let mut a = args();
        a.content = Some(format!(
            " {}\n",
            base64::engine::general_purpose::STANDARD.encode(&bytes)
        ));
        assert_eq!(acquire_hostless(&a, &default_cfg()).unwrap().bytes, bytes);
    }
}

#[test]
fn bad_base64_is_an_error_not_a_panic() {
    let mut a = args();
    a.content = Some("!!!not base64!!!".into());
    let e = acquire_hostless(&a, &default_cfg()).unwrap_err();
    assert!(format!("{e:?}").contains("base64"), "{e:?}");
}

#[test]
fn base64_without_its_padding_or_with_stray_bits_is_refused() {
    for bad in ["aGVsbG8", "aGVsbG9=", "aGVs bG8=", "=", "a"] {
        let mut a = args();
        a.content = Some(bad.to_owned());
        assert!(acquire_hostless(&a, &default_cfg()).is_err(), "{bad}");
    }
}

#[test]
fn exactly_one_source_field_is_required() {
    let e = acquire_hostless(&args(), &default_cfg()).unwrap_err();
    assert!(format!("{e:?}").contains("required"), "{e:?}");

    let mut a = args();
    a.text = Some("x".into());
    a.content = Some("eA==".into());
    let e = acquire_hostless(&a, &default_cfg()).unwrap_err();
    assert!(format!("{e:?}").contains("exactly one"), "{e:?}");
}

#[test]
fn file_uris_are_refused_with_an_explanation() {
    for uri in ["file:///etc/passwd", "/etc/passwd", "./secret.txt"] {
        let mut a = args();
        a.uri = Some(uri.into());
        let e = acquire_hostless(&a, &default_cfg()).unwrap_err();
        let text = format!("{e:?}");
        assert!(text.contains("not supported"), "{uri}: {text}");
        assert!(text.contains("mcpg-resource"), "{uri}: {text}");
    }
}

#[test]
fn a_file_uri_needs_no_authority_to_be_refused() {
    let mut a = args();
    a.uri = Some(" file:/etc/passwd".into());
    let e = acquire_hostless(&a, &default_cfg()).unwrap_err();
    assert!(format!("{e:?}").contains("not supported"), "{e:?}");
}

#[test]
fn http_is_refused_unless_the_profile_enables_it() {
    let mut a = args();
    a.uri = Some("https://example.invalid/x.pdf".into());
    let e = acquire_hostless(&a, &default_cfg()).unwrap_err();
    let text = format!("{e:?}");
    assert!(text.contains("url"), "{text}");
    assert!(text.contains("not enabled"), "{text}");
    assert_eq!(
        e,
        BackendError::Transport {
            message: "the \"url\" source is not enabled for this profile".to_owned()
        }
    );
}

#[test]
fn an_enabled_url_begins_a_fetch() {
    let mut a = args();
    a.uri = Some("  https://example.test/x.pdf ".into());
    let cfg = cfg_with(Sources {
        url: true,
        ..Sources::default()
    });
    match acquire(&a, &cfg, &mut StubStore(Vec::new())) {
        Step::Wait(fetch, Action::Resolve { host, port }) => {
            assert_eq!(fetch.current(), "https://example.test/x.pdf");
            assert_eq!((host.as_str(), port), ("example.test", 443));
        }
        other => panic!("{other:?}"),
    }
}

#[test]
fn inline_can_be_switched_off() {
    let mut a = args();
    a.text = Some("x".into());
    let cfg = cfg_with(Sources {
        inline: false,
        ..Sources::default()
    });
    assert!(acquire_hostless(&a, &cfg).is_err());
}

#[test]
fn data_uris_decode_and_carry_their_mime() {
    let mut a = args();
    a.uri = Some("data:text/csv;base64,YSxiCjEsMgo=".into());
    let got = acquire_hostless(&a, &default_cfg()).unwrap();
    assert_eq!(got.bytes, b"a,b\n1,2\n");
    assert_eq!(got.info.mimetype.as_deref(), Some("text/csv"));
}

#[test]
fn a_plain_data_uri_needs_no_base64() {
    let mut a = args();
    a.uri = Some("data:text/plain,hello".into());
    assert_eq!(
        acquire_hostless(&a, &default_cfg()).unwrap().bytes,
        b"hello"
    );
}

#[test]
fn a_data_uri_can_be_malformed_in_two_ways() {
    let said = |uri: &str| {
        let mut a = args();
        a.uri = Some(uri.to_owned());
        match acquire_hostless(&a, &default_cfg()).unwrap_err() {
            BackendError::Transport { message } => message,
            other => panic!("{other:?}"),
        }
    };
    assert_eq!(said("data:text/plain"), "malformed data: URI (no comma)");
    assert!(said("data:;base64,***").starts_with("data: URI payload is not valid base64: "));
}

#[test]
fn a_declared_type_outranks_the_one_in_a_data_uri() {
    let mut a = args();
    a.uri = Some("data:text/csv,x".into());
    a.mimetype = Some("text/plain".into());
    let got = acquire_hostless(&a, &default_cfg()).unwrap();
    assert_eq!(got.info.mimetype.as_deref(), Some("text/plain"));
}

#[test]
fn an_unknown_scheme_names_what_is_accepted() {
    let mut a = args();
    a.uri = Some("ftp://example.invalid/x".into());
    let e = acquire_hostless(&a, &default_cfg()).unwrap_err();
    assert!(format!("{e:?}").contains("mcpg-resource"), "{e:?}");
    assert_eq!(
        e,
        BackendError::Transport {
            message: "unsupported uri scheme in \"ftp://example.invalid/x\" \u{2014} expected \
                      mcpg-resource://, data:, or https:// (when the profile enables the url \
                      source)"
                .to_owned()
        }
    );
}

#[test]
fn hints_reach_the_stream_info() {
    let mut a = args();
    a.text = Some("x".into());
    a.filename = Some("report.docx".into());
    a.mimetype = Some("text/plain; charset=utf-8".into());
    let got = acquire_hostless(&a, &default_cfg()).unwrap();
    assert_eq!(got.info.filename.as_deref(), Some("report.docx"));
    assert_eq!(got.info.extension.as_deref(), Some("docx"));
    assert_eq!(got.info.mimetype.as_deref(), Some("text/plain"));
}

#[test]
fn a_given_charset_is_kept() {
    let mut a = args();
    a.text = Some("x".into());
    a.charset = Some("latin1".into());
    let got = acquire_hostless(&a, &default_cfg()).unwrap();
    assert_eq!(got.info.charset.as_deref(), Some("latin1"));
}

#[test]
fn a_resource_uri_reads_from_the_content_store() {
    let mut store = StubStore(vec![(
        "mcpg-resource://hash:abc".to_owned(),
        b"a,b\n1,2\n".to_vec(),
    )]);
    let mut a = args();
    a.uri = Some("mcpg-resource://hash:abc".into());
    let got = settled(acquire(&a, &default_cfg(), &mut store)).unwrap();
    assert_eq!(got.bytes, b"a,b\n1,2\n");
    assert_eq!(got.mode, "resource");
    // The URI is threaded through so image enrichment can fetch it back.
    assert_eq!(got.info.url.as_deref(), Some("mcpg-resource://hash:abc"));
}

#[test]
fn an_unresolvable_resource_explains_why_it_might_be_gone() {
    let mut a = args();
    a.uri = Some("mcpg-resource://hash:gone".into());
    let e = settled(acquire(&a, &default_cfg(), &mut StubStore(Vec::new()))).unwrap_err();
    assert!(format!("{e:?}").contains("expired"), "{e:?}");
}

#[test]
fn a_store_outage_reads_differently_from_a_missing_resource() {
    let mut a = args();
    a.uri = Some("mcpg-resource://hash:abc".into());
    let e = settled(acquire(&a, &default_cfg(), &mut FailingStore)).unwrap_err();
    let text = format!("{e:?}");
    assert!(text.contains("content store"), "{text}");
    assert!(!text.contains("expired"), "{text}");
}

/// A content store that nobody may ask.
struct Untouched;

impl ContentSource for Untouched {
    fn fetch_resource(&mut self, uri: &str) -> Result<Option<Vec<u8>>, String> {
        panic!("asked for {uri}")
    }
}

#[test]
fn the_store_is_asked_only_for_what_the_call_names() {
    let stored = || Some("mcpg-resource://hash:abc".to_owned());
    let off = cfg_with(Sources {
        resource: false,
        ..Sources::default()
    });
    let mut a = args();
    a.uri = stored();
    assert!(settled(acquire(&a, &off, &mut Untouched)).is_err());
    // Two sources are one too many, and none is one too few.
    a.text = Some("x".into());
    assert!(settled(acquire(&a, &default_cfg(), &mut Untouched)).is_err());
    assert!(settled(acquire(&args(), &default_cfg(), &mut Untouched)).is_err());
    // Neither text nor a data: URI lies in the store.
    let mut a = args();
    a.text = stored();
    assert!(settled(acquire(&a, &default_cfg(), &mut Untouched)).is_ok());
    let mut a = args();
    a.uri = Some("data:,mcpg-resource://hash:abc".into());
    assert!(settled(acquire(&a, &default_cfg(), &mut Untouched)).is_ok());
}

/// A content store that counts its readers.
struct Counting(Vec<String>);

impl ContentSource for Counting {
    fn fetch_resource(&mut self, uri: &str) -> Result<Option<Vec<u8>>, String> {
        self.0.push(uri.to_owned());
        Ok(Some(b"x".to_vec()))
    }
}

#[test]
fn a_stored_resource_is_read_once() {
    let mut store = Counting(Vec::new());
    let mut a = args();
    a.uri = Some(" mcpg-resource://hash:abc ".into());
    assert!(settled(acquire(&a, &default_cfg(), &mut store)).is_ok());
    assert_eq!(store.0, vec!["mcpg-resource://hash:abc"]);
}

#[test]
fn white_space_around_encoded_content_does_not_matter() {
    for content in ["aGVsbG8=", "  aGVsbG8=", "aGVsbG8=\r\n", "\u{a0}\t aGVsbG8= \n\n"] {
        let mut a = args();
        a.content = Some(content.into());
        let got = acquire_hostless(&a, &default_cfg()).unwrap();
        assert_eq!(got.bytes, b"hello", "{content:?}");
        assert_eq!(got.mode, "inline");
    }
}

#[test]
fn the_resource_source_can_be_switched_off() {
    let mut a = args();
    a.uri = Some("mcpg-resource://hash:abc".into());
    let cfg = cfg_with(Sources {
        resource: false,
        ..Sources::default()
    });
    assert!(settled(acquire(&a, &cfg, &mut StubStore(Vec::new()))).is_err());
}

#[test]
fn each_reply_of_the_store_is_told_apart() {
    let uri = "mcpg-resource://hash:a";
    let read = |reply| read_from_store(uri, StreamInfo::new(), reply);
    assert_eq!(read(Ok(Some(vec![1, 2]))).unwrap().bytes, vec![1, 2]);
    assert_eq!(
        read(Ok(None)).unwrap_err(),
        BackendError::Transport {
            message: "mcpg-resource://hash:a did not resolve \u{2014} it may have expired or \
                      belong to another session"
                .to_owned()
        }
    );
    assert_eq!(
        read(Err("down".to_owned())).unwrap_err(),
        BackendError::Transport {
            message: "content store: down".to_owned()
        }
    );
}
