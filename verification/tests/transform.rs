use base64::Engine as _;
use markdown_plugin::config::{ConvertOptions, Limits};
use markdown_plugin::convert::{ConvertError, ConvertErrorKind, Converted, WarningOut};
use markdown_plugin::json::Json;
use markdown_plugin::state::MarkdownState;
use markdown_plugin::stream::StreamInfo;
use markdown_plugin::transform_entity::{
    decode, finish, looks_binary, prepare, resolve_profile, unreadable_config, Encoding, Phase,
    Prepared, TransformConfig, TransformResult,
};
use markdown_plugin::ProfileConfig;

fn profile_config() -> ProfileConfig {
    ProfileConfig::with_engine_options(ConvertOptions {
        limits: Limits {
            max_input_bytes: 1 << 20,
            max_output_bytes: 1 << 20,
            max_expanded_bytes: 1 << 20,
            timeout_ms: 30_000,
            max_depth: 3,
        },
    })
}

fn transform_with(names: &[&str]) -> MarkdownState<u32> {
    let mut state = MarkdownState::default();
    for (i, name) in names.iter().enumerate() {
        state
            .register(name, profile_config(), Ok(i as u32))
            .expect("registers");
    }
    state
}

fn one_profile() -> MarkdownState<u32> {
    transform_with(&["default"])
}

fn string(s: &str) -> Json {
    Json::Str(s.to_owned())
}

fn object(members: Vec<(&str, Json)>) -> Json {
    Json::Object(
        members
            .into_iter()
            .map(|(k, v)| (k.to_owned(), v))
            .collect(),
    )
}

fn converted(format: &str, markdown: &str) -> Converted {
    Converted {
        markdown: markdown.to_owned(),
        title: None,
        format: format.to_owned(),
        detected_via: "extension".to_owned(),
        warnings: vec![],
    }
}

/// What these tests use for an engine: a table for comma-separated values, and
/// text as it is.
fn engine(bytes: &[u8], info: &StreamInfo) -> Result<Converted, ConvertError> {
    let text = String::from_utf8_lossy(bytes).into_owned();
    match info.extension.as_deref() {
        Some("csv") => {
            let rows: Vec<String> = text
                .lines()
                .map(|l| format!("| {} |", l.replace(',', " | ")))
                .collect();
            Ok(converted("csv", &rows.join("\n")))
        }
        Some("docx") => Err(ConvertError {
            kind: ConvertErrorKind::Other,
            format: None,
            code: "malformed",
            text: "malformed docx: not an archive".to_owned(),
        }),
        _ => Ok(converted("text", &text)),
    }
}

fn run(
    state: &MarkdownState<u32>,
    value: Json,
    cfg: &TransformConfig,
    phase: Phase,
) -> TransformResult {
    match prepare(&value, cfg, phase, state) {
        Prepared::Answer(answer) => answer,
        Prepared::Convert { bytes, info, .. } => finish(value, cfg, engine(&bytes, &info)),
    }
}

fn transform_result(
    state: &MarkdownState<u32>,
    value: Json,
    cfg: TransformConfig,
) -> TransformResult {
    run(state, value, &cfg, Phase::Result)
}

fn result_value(r: TransformResult) -> Json {
    match r {
        TransformResult::Modified { value } => value,
        other => panic!("expected Modified, got {other:?}"),
    }
}

fn error_message(r: TransformResult) -> String {
    match r {
        TransformResult::Error { message } => message,
        other => panic!("expected Error, got {other:?}"),
    }
}

fn as_str(v: &Json) -> &str {
    match v {
        Json::Str(s) => s,
        other => panic!("{other:?}"),
    }
}

fn csv() -> TransformConfig {
    TransformConfig {
        filename: Some("x.csv".to_owned()),
        ..TransformConfig::default()
    }
}

fn at(pointer: &str) -> TransformConfig {
    TransformConfig {
        pointer: Some(pointer.to_owned()),
        ..TransformConfig::default()
    }
}

#[test]
fn a_text_payload_converts_in_place() {
    let t = one_profile();
    let out = result_value(transform_result(&t, string("a,b\n1,2\n"), csv()));
    assert!(as_str(&out).contains("| a | b |"), "{out:?}");
}

#[test]
fn a_pointer_replaces_only_its_own_field() {
    let t = one_profile();
    let payload = object(vec![
        ("meta", object(vec![("keep", Json::Bool(true))])),
        ("file", string("a,b\n1,2\n")),
    ]);
    let out = result_value(transform_result(
        &t,
        payload,
        TransformConfig {
            pointer: Some("/file".to_owned()),
            ..csv()
        },
    ));
    assert_eq!(out.pointer("/meta/keep"), Some(&Json::Bool(true)));
    assert!(as_str(out.pointer("/file").unwrap()).contains("| a | b |"));
}

#[test]
fn base64_office_bytes_are_detected_without_being_told() {
    let t = one_profile();
    let b64 = base64::engine::general_purpose::STANDARD.encode(b"PK\x03\x04not really");
    let value = string(&b64);
    let cfg = TransformConfig {
        filename: Some("x.docx".to_owned()),
        ..TransformConfig::default()
    };
    match prepare(&value, &cfg, Phase::Result, &t) {
        Prepared::Convert { bytes, info, .. } => {
            assert_eq!(bytes, b"PK\x03\x04not really");
            assert_eq!(info.charset, None);
        }
        Prepared::Answer(other) => panic!("{other:?}"),
    }
    let r = transform_result(&t, string(&b64), cfg);
    assert!(error_message(r).contains("docx"));
}

#[test]
fn prose_that_is_incidentally_valid_base64_stays_prose() {
    let t = one_profile();
    // "abcd" decodes cleanly as base64 but is plainly text.
    let out = result_value(transform_result(
        &t,
        string("abcd"),
        TransformConfig::default(),
    ));
    assert!(as_str(&out).contains("abcd"), "{out:?}");
}

#[test]
fn explicit_base64_encoding_is_honoured() {
    let t = one_profile();
    let b64 = base64::engine::general_purpose::STANDARD.encode("a,b\n1,2\n");
    let out = result_value(transform_result(
        &t,
        string(&b64),
        TransformConfig {
            encoding: Encoding::Base64,
            ..csv()
        },
    ));
    assert!(as_str(&out).contains("| a | b |"), "{out:?}");
}

#[test]
fn a_non_string_target_is_an_actionable_error() {
    let t = one_profile();
    let msg = error_message(transform_result(
        &t,
        object(vec![("n", Json::Number("5".to_owned()))]),
        at("/n"),
    ));
    assert!(msg.contains("a number"), "{msg}");
    assert_eq!(
        msg,
        "pointer \"/n\" targets a number, but the markdown transform needs a string \
         holding the document (base64 or text)"
    );
}

#[test]
fn every_kind_of_target_has_a_name() {
    let t = one_profile();
    for (value, name) in [
        (Json::Null, "null"),
        (Json::Bool(true), "a boolean"),
        (Json::Array(vec![]), "an array"),
        (object(vec![]), "an object"),
    ] {
        let msg = error_message(transform_result(&t, value, TransformConfig::default()));
        assert!(msg.contains(&format!("targets {name},")), "{msg}");
    }
}

#[test]
fn a_missing_pointer_is_an_error_not_a_silent_pass() {
    let t = one_profile();
    let msg = error_message(transform_result(&t, object(vec![]), at("/nope")));
    assert!(msg.contains("not found"), "{msg}");
}

#[test]
fn phase_gating_leaves_the_other_phase_untouched() {
    let t = one_profile();
    let cfg = TransformConfig {
        phase: Phase::Result,
        ..TransformConfig::default()
    };
    let r = run(&t, string("x"), &cfg, Phase::Arguments);
    assert!(matches!(r, TransformResult::Unchanged), "{r:?}");
    let r = run(&t, string("x"), &cfg, Phase::Result);
    assert!(matches!(r, TransformResult::Modified { .. }), "{r:?}");
}

#[test]
fn several_profiles_require_the_step_to_name_one() {
    let t = transform_with(&["a", "b"]);
    let msg = error_message(transform_result(
        &t,
        string("x"),
        TransformConfig::default(),
    ));
    assert!(msg.contains("name one"), "{msg}");
    assert!(msg.contains("(a, b)"), "{msg}");
    // Naming one works.
    let r = transform_result(
        &t,
        string("x"),
        TransformConfig {
            profile: Some("a".to_owned()),
            ..TransformConfig::default()
        },
    );
    assert!(matches!(r, TransformResult::Modified { .. }), "{r:?}");
}

#[test]
fn no_registered_profile_says_how_to_fix_it() {
    let t = transform_with(&[]);
    let msg = error_message(transform_result(
        &t,
        string("x"),
        TransformConfig::default(),
    ));
    assert!(msg.contains("no markdown profile"), "{msg}");
}

#[test]
fn an_unknown_profile_is_an_error() {
    let t = one_profile();
    let msg = error_message(transform_result(
        &t,
        string("x"),
        TransformConfig {
            profile: Some("ghost".to_owned()),
            ..TransformConfig::default()
        },
    ));
    assert!(msg.contains("ghost"), "{msg}");
}

#[test]
fn verbose_mode_returns_the_whole_result_object() {
    let t = one_profile();
    let out = result_value(transform_result(
        &t,
        string("a,b\n1,2\n"),
        TransformConfig {
            verbose: true,
            ..csv()
        },
    ));
    assert_eq!(out.pointer("/format"), Some(&string("csv")));
    assert!(out.pointer("/warnings").is_some());
}

#[test]
fn the_transform_shares_the_backend_profile_registry() {
    let mut shared = transform_with(&[]);
    shared
        .register("shared-check", profile_config(), Ok(9))
        .unwrap();
    let cfg = TransformConfig {
        profile: Some("shared-check".to_owned()),
        ..TransformConfig::default()
    };
    assert_eq!(resolve_profile(&cfg, &shared).unwrap().engine, 9);
    assert!(shared.profile("shared-check").is_ok());
}

#[test]
fn binary_detection_needs_a_signature_or_a_nul() {
    assert!(looks_binary(b"PK\x03\x04rest"));
    assert!(looks_binary(b"%PDF-1.4"));
    assert!(looks_binary(&[b'a', 0, b'b', b'c']));
    assert!(!looks_binary(b"plain text"));
    assert!(!looks_binary(b"ab"));
}

#[test]
fn the_compound_file_signature_is_binary_too() {
    assert!(looks_binary(&[0xD0, 0xCF, 0x11, 0xE0]));
    assert!(!looks_binary(&[0xD0, 0xCF, 0x11, 0xE1]));
    assert!(!looks_binary(b"%PDF"));
    assert!(!looks_binary(&[0, 0, 0]));
}

#[test]
fn each_encoding_reads_the_same_value_in_its_own_way() {
    assert_eq!(
        decode("YWJj", Encoding::Text),
        Ok((b"YWJj".to_vec(), true))
    );
    assert_eq!(
        decode(" YWJj\n", Encoding::Base64),
        Ok((b"abc".to_vec(), false))
    );
    assert_eq!(
        decode("YWJj", Encoding::Auto),
        Ok((b"YWJj".to_vec(), true))
    );
    let e = decode("!", Encoding::Base64).unwrap_err();
    assert!(e.starts_with("value is not valid base64: "), "{e}");
    assert_eq!(decode("!", Encoding::Auto), Ok((b"!".to_vec(), true)));
}

#[test]
fn a_failed_conversion_is_told_in_the_engines_words() {
    let cfg = TransformConfig::default();
    let e = ConvertError {
        kind: ConvertErrorKind::Other,
        format: None,
        code: "unsupported",
        text: "no converter".to_owned(),
    };
    assert_eq!(
        error_message(finish(string("x"), &cfg, Err(e))),
        "no converter"
    );
}

#[test]
fn an_unreadable_step_says_so() {
    assert_eq!(
        error_message(unreadable_config("unknown field `pointr`")),
        "markdown transform config: unknown field `pointr`"
    );
}

#[test]
fn a_place_that_is_gone_cannot_be_assigned() {
    let r = finish(object(vec![]), &at("/gone"), Ok(converted("text", "x")));
    assert_eq!(error_message(r), "pointer \"/gone\" not assignable");
}

#[test]
fn a_verbose_result_lists_its_warnings() {
    let mut c = converted("pdf", "body");
    c.title = Some("T".to_owned());
    c.warnings.push(WarningOut {
        kind: "truncated".to_owned(),
        message: "cut".to_owned(),
    });
    let v = c.to_json();
    assert_eq!(v.pointer("/warnings/0/kind"), Some(&string("truncated")));
    assert_eq!(v.pointer("/warnings/0/message"), Some(&string("cut")));
    assert_eq!(v.pointer("/title"), Some(&string("T")));
    assert_eq!(v.pointer("/detected_via"), Some(&string("extension")));
}
