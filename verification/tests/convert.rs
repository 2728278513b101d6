use markdown_plugin::config::{
    AudioEnrichment, ConvertOptions, EnrichOptions, ImageEnrichment, Limits, LlmOptions,
    PdfEnrichment, Profile,
};
use markdown_plugin::convert::{
    check_size, finish, receive, to_backend_error, truncated, ConvertError, ConvertErrorKind,
    Converted, Parsed, Rendered, Request, WarningOut,
};
use markdown_plugin::document::{Block, Document, Image, ImageRef, Warning, WarningKind};
use markdown_plugin::enrich::{Enricher, EnrichmentCache};
use markdown_plugin::error::BackendError;
use markdown_plugin::json::Json;
use markdown_plugin::obs::{Measurement, Measurements};
use markdown_plugin::stream::StreamInfo;
use markdown_plugin::ProfileConfig;

struct Host;

impl Enricher for Host {
    fn describe(&mut self, _prompt: &str, _resource: Option<&str>) -> Result<String, String> {
        Ok("described".to_owned())
    }
    fn store(&mut self, _bytes: &[u8], _mime: &str) -> Result<String, String> {
        Ok("mcpg-resource://hash:stored".to_owned())
    }
}

fn profile(llm: LlmOptions) -> Profile<()> {
    let limits = Limits {
        max_input_bytes: 4,
        max_output_bytes: 1 << 20,
        max_expanded_bytes: 1 << 20,
        timeout_ms: 30_000,
        max_depth: 3,
    };
    Profile {
        name: "test".into(),
        engine: (),
        config: ProfileConfig {
            llm,
            ..ProfileConfig::with_engine_options(ConvertOptions { limits })
        },
    }
}

fn request<'a>(profile: &'a Profile<()>, info: &'a StreamInfo) -> Request<'a, ()> {
    Request {
        profile,
        bytes: b"a,b\n1,2\n",
        info,
        mode: "inline",
        now: None,
    }
}

fn parsed(document: Document) -> Parsed {
    Parsed {
        document,
        converter: "csv",
        detected_via: "extension",
    }
}

fn rendered(markdown: &str, warnings: Vec<Warning>) -> Rendered {
    Rendered {
        markdown: markdown.to_owned(),
        warnings,
    }
}

fn error(kind: ConvertErrorKind, code: &'static str, text: &str) -> ConvertError {
    ConvertError {
        kind,
        format: None,
        code,
        text: text.to_owned(),
    }
}

fn names(m: &Measurements) -> Vec<&'static str> {
    m.entries
        .iter()
        .map(|e| match e {
            Measurement::Counter { name, .. } => *name,
            Measurement::Histogram { name, .. } => *name,
        })
        .collect()
}

fn error_label(m: &Measurements) -> Option<&'static str> {
    m.entries.iter().find_map(|e| match e {
        Measurement::Counter { labels, .. } => {
            labels.iter().find(|(k, _)| *k == "error").map(|(_, v)| *v)
        }
        Measurement::Histogram { .. } => None,
    })
}

/// A conversion for which the engine yields `document` and then `out`.
fn convert(document: Document, out: Rendered, info: &StreamInfo) -> (Converted, Measurements) {
    let p = profile(LlmOptions::default());
    let req = request(&p, info);
    let mut m = Measurements::new();
    let got = receive::<_, Host>(&req, Ok(parsed(document)), None, &mut EnrichmentCache::new(), &mut m)
        .unwrap_or_else(|e| panic!("{e:?}"));
    let done = finish(&req, got, Ok(out), 1_000, &mut m).unwrap_or_else(|e| panic!("{e:?}"));
    (done, m)
}

#[test]
fn a_csv_converts_and_reports_its_format() {
    let info = StreamInfo::new().with_filename("x.csv");
    let (out, m) = convert(
        Document::default(),
        rendered("| a | b |\n| --- | --- |\n| 1 | 2 |\n", vec![]),
        &info,
    );
    assert_eq!(out.format, "csv");
    assert_eq!(out.detected_via, "extension");
    assert!(out.markdown.contains("| a | b |"));
    assert_eq!(names(&m).len(), 4);
}

#[test]
fn warnings_are_always_present_even_when_empty() {
    let (out, _) = convert(
        Document::default(),
        rendered("plain text", vec![]),
        &StreamInfo::new(),
    );
    assert!(out.warnings.is_empty());
    let json = out.to_json();
    assert!(
        json.pointer("/warnings").is_some(),
        "warnings must not be omitted"
    );
}

#[test]
fn a_resource_uri_is_recorded_for_the_enrichment_pass() {
    let info = StreamInfo::new()
        .with_filename("x.csv")
        .with_url("mcpg-resource://hash:abc");
    let p = profile(LlmOptions::default());
    let mut m = Measurements::new();
    let got = receive::<_, Host>(
        &request(&p, &info),
        Ok(parsed(Document::default())),
        None,
        &mut EnrichmentCache::new(),
        &mut m,
    );
    match got {
        Ok(parsed) => assert_eq!(
            parsed.document.metadata.get("source_uri"),
            Some("mcpg-resource://hash:abc")
        ),
        Err(e) => panic!("{e:?}"),
    }
    assert!(m.entries.is_empty());
}

#[test]
fn an_ordinary_url_is_not_recorded() {
    let info = StreamInfo::new().with_url("https://x.test/a");
    let p = profile(LlmOptions::default());
    let got = receive::<_, Host>(
        &request(&p, &info),
        Ok(parsed(Document::default())),
        None,
        &mut EnrichmentCache::new(),
        &mut Measurements::new(),
    );
    assert!(got.is_ok_and(|p| p.document.metadata.get("source_uri").is_none()));
}

#[test]
fn the_input_ceiling_is_enforced_here_too() {
    let p = profile(LlmOptions::default());
    let info = StreamInfo::new();
    let mut m = Measurements::new();
    let refused = error(
        ConvertErrorKind::LimitExceeded,
        "limit_exceeded",
        "max_input_bytes exceeded: 18 > 4",
    );
    let e = check_size(&request(&p, &info), Err(refused), &mut m).unwrap_err();
    assert_eq!(e.code, "limit_exceeded");
    assert_eq!(error_label(&m), Some("limit_exceeded"));
    assert!(check_size(&request(&p, &info), Ok(()), &mut Measurements::new()).is_ok());
}

#[test]
fn a_caught_panic_is_labelled_as_our_defect_not_the_callers_input() {
    let panic = to_backend_error(&error(
        ConvertErrorKind::ConverterPanic,
        "panic",
        "the pdf converter panicked",
    ));
    assert!(format!("{panic:?}").contains("defect"), "{panic:?}");

    let malformed = to_backend_error(&error(
        ConvertErrorKind::Other,
        "malformed",
        "malformed csv: bad row",
    ));
    assert!(
        !format!("{malformed:?}").contains("defect"),
        "{malformed:?}"
    );
    assert!(
        format!("{malformed:?}").contains("bad row"),
        "{malformed:?}"
    );
}

#[test]
fn a_conversion_timeout_maps_to_the_timeout_variant() {
    let e = error(
        ConvertErrorKind::LimitExceeded,
        "limit_exceeded",
        "timeout_ms exceeded: 40000 > 30000",
    );
    assert!(matches!(to_backend_error(&e), BackendError::Timeout { .. }));
    let other = error(
        ConvertErrorKind::LimitExceeded,
        "limit_exceeded",
        "max_depth exceeded: 4 > 3",
    );
    assert_eq!(
        to_backend_error(&other),
        BackendError::Transport {
            message: "max_depth exceeded: 4 > 3".to_owned()
        }
    );
}

#[test]
fn every_warning_reaches_the_caller() {
    let document = Document {
        warnings: vec![Warning::new(
            WarningKind::NoTextLayer,
            "no text".to_owned(),
        )],
        ..Document::default()
    };
    let late = vec![Warning::new(WarningKind::Truncated, "cut".to_owned())];
    let (out, m) = convert(document, rendered("x", late), &StreamInfo::new());
    assert!(
        out.warnings.iter().any(|w| w.kind == "no_text_layer"),
        "{:?}",
        out.warnings
    );
    assert_eq!(
        out.warnings,
        vec![
            WarningOut {
                kind: "no_text_layer".to_owned(),
                message: "no text".to_owned()
            },
            WarningOut {
                kind: "truncated".to_owned(),
                message: "cut".to_owned()
            },
        ]
    );
    match out.to_json().pointer("/warnings") {
        Some(Json::Array(a)) => assert!(!a.is_empty()),
        other => panic!("{other:?}"),
    }
    assert_eq!(
        names(&m)
            .iter()
            .filter(|n| **n == "mcpg_markdown_warnings_total")
            .count(),
        2
    );
    assert!(truncated(&out));
}

#[test]
fn a_result_is_truncated_only_where_a_warning_says_so() {
    let document = Document {
        warnings: vec![Warning::new(WarningKind::Degraded, "x".to_owned())],
        ..Document::default()
    };
    let (out, _) = convert(document, rendered("x", vec![]), &StreamInfo::new());
    assert!(!truncated(&out));
}

#[test]
fn the_result_payload_shape_is_stable() {
    let (out, _) = convert(
        Document::default(),
        rendered("hello", vec![]),
        &StreamInfo::new(),
    );
    let v = out.to_json();
    for key in ["markdown", "format", "detected_via", "warnings"] {
        assert!(
            v.pointer(&format!("/{key}")).is_some(),
            "missing {key} in {v:?}"
        );
    }
    assert!(v.pointer("/title").is_none());
}

#[test]
fn a_title_is_passed_on() {
    let document = Document {
        title: Some("Report".to_owned()),
        ..Document::default()
    };
    let (out, _) = convert(document, rendered("x", vec![]), &StreamInfo::new());
    assert_eq!(out.title.as_deref(), Some("Report"));
    assert_eq!(
        out.to_json().pointer("/title"),
        Some(&Json::Str("Report".to_owned()))
    );
}

#[test]
fn a_parser_failure_is_recorded_under_the_converter_that_failed() {
    let p = profile(LlmOptions::default());
    let info = StreamInfo::new();
    let mut m = Measurements::new();
    let e = ConvertError {
        format: Some("pdf"),
        ..error(ConvertErrorKind::ConverterPanic, "panic", "boom")
    };
    let got = receive::<_, Host>(
        &request(&p, &info),
        Err(e),
        None,
        &mut EnrichmentCache::new(),
        &mut m,
    );
    assert!(got.is_err());
    for entry in &m.entries {
        match entry {
            Measurement::Counter { labels, .. } => assert_eq!(labels[0], ("format", "pdf")),
            other => panic!("{other:?}"),
        }
    }
    assert_eq!(m.entries.len(), 2);
}

#[test]
fn a_failure_before_detection_is_recorded_under_no_converter() {
    let p = profile(LlmOptions::default());
    let info = StreamInfo::new();
    let mut m = Measurements::new();
    let got = receive::<_, Host>(
        &request(&p, &info),
        Err(error(ConvertErrorKind::ConverterPanic, "panic", "boom")),
        None,
        &mut EnrichmentCache::new(),
        &mut m,
    );
    assert!(got.is_err_and(|e| e.code == "panic"));
    match &m.entries[0] {
        Measurement::Counter { labels, .. } => assert_eq!(labels[0], ("format", "none")),
        other => panic!("{other:?}"),
    }
    assert_eq!(names(&m)[1], "mcpg_markdown_parser_panics_total");
}

#[test]
fn a_rendering_failure_is_recorded_under_its_converter() {
    let p = profile(LlmOptions::default());
    let info = StreamInfo::new();
    let mut m = Measurements::new();
    let e = finish(
        &request(&p, &info),
        parsed(Document::default()),
        Err(error(ConvertErrorKind::Other, "template", "bad template")),
        1,
        &mut m,
    )
    .unwrap_err();
    assert_eq!(e.text, "bad template");
    match &m.entries[0] {
        Measurement::Counter { labels, .. } => assert_eq!(labels[0], ("format", "csv")),
        other => panic!("{other:?}"),
    }
}

#[test]
fn enrichment_runs_where_there_is_a_host_and_is_measured() {
    let p = profile(LlmOptions {
        binding: Some("vision".to_owned()),
        enrich: EnrichOptions {
            images: ImageEnrichment::Caption,
            audio: AudioEnrichment::Off,
            pdf: PdfEnrichment::Off,
        },
        ..LlmOptions::default()
    });
    let info = StreamInfo::new();
    let document = || Document {
        blocks: vec![Block::Image(Image {
            alt: None,
            caption: None,
            source: ImageRef::Resource("mcpg-resource://hash:a".to_owned()),
        })],
        ..Document::default()
    };
    let mut m = Measurements::new();
    let mut cache = EnrichmentCache::new();
    let got = receive::<_, Host>(
        &request(&p, &info),
        Ok(parsed(document())),
        Some(&mut Host),
        &mut cache,
        &mut m,
    );
    match got {
        Ok(parsed) => match &parsed.document.blocks[0] {
            Block::Image(i) => assert_eq!(i.caption.as_deref(), Some("described")),
            other => panic!("{other:?}"),
        },
        Err(e) => panic!("{e:?}"),
    }
    assert_eq!(names(&m), vec!["mcpg_markdown_enrichment_calls_total"]);
    // Without a host nothing is asked and nothing is measured.
    let mut quiet = Measurements::new();
    let got = receive::<_, Host>(
        &request(&p, &info),
        Ok(parsed(document())),
        None,
        &mut cache,
        &mut quiet,
    );
    assert!(got.is_ok());
    assert!(quiet.entries.is_empty());
}

#[test]
fn a_warning_is_reported_by_kind_and_message() {
    let w = Warning::new(WarningKind::TypeMismatch, "pdf, not docx".to_owned());
    let out = WarningOut::from(&w);
    assert_eq!(out.kind, "type_mismatch");
    assert_eq!(out.message, "pdf, not docx");
}
