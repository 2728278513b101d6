use markdown_plugin::backend_entity::{
    begin, input_schema, invalid_binding, output_schema, respond, unwritable, BindingSpec, Bindings,
    Candidate, Payload, KIND,
};
use markdown_plugin::config::{ConvertOptions, Limits};
use markdown_plugin::convert::{ConvertError, ConvertErrorKind, Converted, WarningOut};
use markdown_plugin::error::BackendError;
use markdown_plugin::fetch::Step;
use markdown_plugin::json::Json;
use markdown_plugin::source::{ContentSource, ConvertArgs};
use markdown_plugin::state::MarkdownState;
use markdown_plugin::transform_entity::{
    prepare, resolve_profile, Encoding, Phase, Prepared, TransformConfig,
};
use markdown_plugin::ProfileConfig;

struct NoStore;

impl ContentSource for NoStore {
    fn fetch_resource(&mut self, _uri: &str) -> Result<Option<Vec<u8>>, String> {
        Ok(None)
    }
}

fn config(max_depth: u32) -> ProfileConfig {
    ProfileConfig::with_engine_options(ConvertOptions {
        limits: Limits {
            max_input_bytes: 1 << 20,
            max_output_bytes: 1 << 20,
            max_expanded_bytes: 1 << 20,
            timeout_ms: 30_000,
            max_depth,
        },
    })
}

fn inline(max_depth: u32) -> BindingSpec<u32> {
    BindingSpec::Inline(Ok(Candidate {
        config: config(max_depth),
        engine: Ok(1),
    }))
}

fn members(v: &Json) -> Vec<&str> {
    match v {
        Json::Object(m) => m.iter().map(|(k, _)| k.as_str()).collect(),
        other => panic!("{other:?}"),
    }
}

#[test]
fn the_input_schema_offers_no_path_argument() {
    // The tool description is what a model reads. Advertising a `path` would
    // invite exactly the request the plugin cannot serve.
    let schema = input_schema();
    let keys = members(schema.pointer("/properties").unwrap());
    assert!(!keys.iter().any(|k| *k == "path"));
    assert_eq!(
        keys,
        vec!["content", "text", "uri", "filename", "mimetype", "charset"]
    );
    assert_eq!(
        schema.pointer("/additionalProperties"),
        Some(&Json::Bool(false))
    );
}

#[test]
fn the_output_schema_describes_the_result() {
    let schema = output_schema();
    assert_eq!(
        schema.pointer("/required/3"),
        Some(&Json::Str("warnings".to_owned()))
    );
    assert_eq!(
        schema.pointer("/properties/detected_via/enum/1"),
        Some(&Json::Str("extension".to_owned()))
    );
    assert_eq!(
        schema.pointer("/properties/warnings/items/required/0"),
        Some(&Json::Str("kind".to_owned()))
    );
    assert_eq!(
        members(schema.pointer("/properties").unwrap()),
        vec!["markdown", "title", "format", "detected_via", "warnings"]
    );
    assert_eq!(KIND, "markdown");
}

#[test]
fn a_binding_spec_may_carry_a_profile_inline() {
    let mut bindings = Bindings::new();
    let mut profiles = MarkdownState::default();
    bindings
        .register_profile(&mut profiles, "tool", inline(2))
        .unwrap();
    let p = bindings.profile_for(&profiles, "tool").unwrap();
    assert_eq!(p.name, "tool");
    assert_eq!(p.config.convert.limits.max_depth, 2);
}

#[test]
fn a_binding_spec_may_name_a_shared_profile() {
    let mut bindings = Bindings::new();
    let mut profiles = MarkdownState::default();
    // The binding may come before the profile it names.
    bindings
        .register_profile(
            &mut profiles,
            "tool",
            BindingSpec::Named("reports".to_owned()),
        )
        .unwrap();
    assert!(bindings.profile_for(&profiles, "tool").is_err());
    profiles.register("reports", config(5), Ok(7)).unwrap();
    let p = bindings.profile_for(&profiles, "tool").unwrap();
    assert_eq!((p.name.as_str(), p.engine), ("reports", 7));
}

#[test]
fn a_binding_nobody_registered_stands_for_the_profile_of_its_name() {
    let bindings = Bindings::new();
    let mut profiles = MarkdownState::default();
    profiles.register("plain", config(1), Ok(3)).unwrap();
    assert_eq!(bindings.profile_for(&profiles, "plain").unwrap().engine, 3);
    assert!(matches!(
        bindings.profile_for(&profiles, "ghost"),
        Err(BackendError::ProfileNotFound { .. })
    ));
}

#[test]
fn a_broken_inline_profile_registers_nothing() {
    let mut bindings = Bindings::new();
    let mut profiles: MarkdownState<u32> = MarkdownState::default();
    let e = bindings
        .register_profile(
            &mut profiles,
            "tool",
            BindingSpec::Inline(Err("unknown field `path`".to_owned())),
        )
        .unwrap_err();
    assert_eq!(
        e,
        BackendError::InvalidSpec {
            message: "markdown profile \"tool\": unknown field `path`".to_owned()
        }
    );
    assert!(bindings
        .register_profile(&mut profiles, "tool", inline(0))
        .is_err());
    assert!(profiles.profile_names().is_empty());
}

#[test]
fn an_unreadable_binding_says_which_one_it_is() {
    assert_eq!(
        invalid_binding("tool", "not an object"),
        BackendError::InvalidSpec {
            message: "markdown binding \"tool\": not an object".to_owned()
        }
    );
    assert_eq!(
        unwritable("too deep"),
        BackendError::Transport {
            message: "serialising the conversion result: too deep".to_owned()
        }
    );
}

#[test]
fn arguments_that_cannot_be_read_are_named_as_such() {
    let bindings = Bindings::new();
    let mut profiles = MarkdownState::default();
    match bindings.profile_for(&profiles, "tool") {
        Err(BackendError::ProfileNotFound { .. }) => {}
        Err(other) => panic!("{other:?}"),
        Ok(_) => panic!("found"),
    }
    profiles.register("tool", config(1), Ok(3)).unwrap();
    let profile = bindings.profile_for(&profiles, "tool").unwrap();
    let unreadable = Payload::Unreadable("expected value".to_owned());
    assert_eq!(
        begin(profile, unreadable, &mut NoStore).unwrap_err(),
        BackendError::Transport {
            message: "markdown arguments: expected value".to_owned()
        }
    );
}

#[test]
fn a_call_acquires_its_document() {
    let bindings = Bindings::new();
    let mut profiles = MarkdownState::default();
    profiles.register("tool", config(1), Ok(3)).unwrap();
    let profile = bindings.profile_for(&profiles, "tool").unwrap();
    assert_eq!(profile.engine, 3);
    let mut args = ConvertArgs::default();
    args.text = Some("hello".to_owned());
    match begin(profile, Payload::Read(args), &mut NoStore).unwrap() {
        Step::Done(acquired) => assert_eq!(acquired.bytes, b"hello"),
        other => panic!("{other:?}"),
    }
    // An empty payload names no source.
    match begin(profile, Payload::Empty, &mut NoStore).unwrap() {
        Step::Fail(e) => assert!(format!("{e:?}").contains("required"), "{e:?}"),
        other => panic!("{other:?}"),
    }
}

#[test]
fn an_empty_payload_sets_nothing() {
    let args = Payload::Empty.arguments().unwrap();
    for field in [
        args.content, args.text, args.uri, args.filename, args.mimetype, args.charset,
    ] {
        assert_eq!(field, None);
    }
}

fn converted(kinds: &[&str]) -> Converted {
    Converted {
        markdown: "x".to_owned(),
        title: None,
        format: "text".to_owned(),
        detected_via: "content".to_owned(),
        warnings: kinds
            .iter()
            .map(|k| WarningOut {
                kind: k.to_string(),
                message: String::new(),
            })
            .collect(),
    }
}

#[test]
fn a_response_says_whether_it_was_cut_short() {
    let truncated = |kinds: &[&str]| match respond(Ok(converted(kinds))) {
        Ok(r) => r.truncated,
        Err(e) => panic!("{e:?}"),
    };
    assert!(truncated(&["degraded", "truncated"]));
    assert!(!truncated(&["degraded"]));
    assert!(!truncated(&[]));
}

#[test]
fn a_failed_conversion_is_mapped_onto_the_taxonomy() {
    let e = ConvertError {
        kind: ConvertErrorKind::ConverterPanic,
        format: None,
        code: "panic",
        text: "pdf panicked".to_owned(),
    };
    match respond(Err(e)) {
        Err(e) => assert_eq!(
            e,
            BackendError::Transport {
                message: "pdf panicked \u{2014} this is a defect; please report the input shape"
                    .to_owned()
            }
        ),
        Ok(_) => panic!("answered"),
    }
}

#[test]
fn a_tool_call_and_a_step_hand_the_engine_the_same() {
    let mut bindings = Bindings::new();
    let mut profiles = MarkdownState::default();
    bindings
        .register_profile(&mut profiles, "tool", inline(2))
        .unwrap();
    for (text, encoding) in [("a,b\n1,2\n", Encoding::Text), ("YSxi", Encoding::Base64)] {
        let mut args = ConvertArgs::default();
        args.filename = Some("x.csv".to_owned());
        args.mimetype = Some("text/csv; header=present".to_owned());
        match encoding {
            Encoding::Base64 => args.content = Some(text.to_owned()),
            _ => args.text = Some(text.to_owned()),
        }
        let profile = bindings.profile_for(&profiles, "tool").unwrap();
        let called = match begin(profile, Payload::Read(args), &mut NoStore).unwrap() {
            Step::Done(acquired) => acquired,
            other => panic!("{other:?}"),
        };
        let cfg = TransformConfig {
            encoding,
            filename: Some("x.csv".to_owned()),
            mimetype: Some("text/csv; header=present".to_owned()),
            ..TransformConfig::default()
        };
        let value = Json::Str(text.to_owned());
        match prepare(&value, &cfg, Phase::Result, &profiles) {
            Prepared::Convert {
                profile,
                bytes,
                info,
            } => {
                assert_eq!(profile.name, "tool");
                assert_eq!(bytes, called.bytes);
                assert_eq!(info, called.info);
            }
            Prepared::Answer(other) => panic!("{other:?}"),
        }
        assert_eq!(
            resolve_profile(&cfg, &profiles).unwrap().name,
            bindings.profile_for(&profiles, "tool").unwrap().name
        );
    }
}
