use markdown_plugin::config::{
    AudioEnrichment, ConvertOptions, EnrichOptions, ImageEnrichment, Limits, LlmOptions,
    PdfEnrichment,
};
use markdown_plugin::error::BackendError;
use markdown_plugin::state::{invalid_spec, validate, MarkdownState};
use markdown_plugin::{ProfileConfig, Sources};

/// What these tests use for an engine.
type Engine = u32;

fn state() -> MarkdownState<Engine> {
    MarkdownState::default()
}

fn limits() -> Limits {
    Limits {
        max_input_bytes: 20 * 1024 * 1024,
        max_output_bytes: 4 * 1024 * 1024,
        max_expanded_bytes: 200 * 1024 * 1024,
        timeout_ms: 30_000,
        max_depth: 3,
    }
}

fn with_limits(limits: Limits) -> ProfileConfig {
    ProfileConfig::with_engine_options(ConvertOptions { limits })
}

fn defaults() -> ProfileConfig {
    with_limits(limits())
}

fn with_llm(llm: LlmOptions) -> ProfileConfig {
    ProfileConfig { llm, ..defaults() }
}

fn captions() -> EnrichOptions {
    EnrichOptions {
        images: ImageEnrichment::Caption,
        audio: AudioEnrichment::Off,
        pdf: PdfEnrichment::Off,
    }
}

fn register(config: ProfileConfig) -> Result<(), BackendError> {
    state().register("default", config, Ok(1))
}

#[test]
fn an_empty_spec_registers_the_defaults() {
    assert!(register(defaults()).is_ok());
}

#[test]
fn a_registered_profile_is_retrievable() {
    let mut s = state();
    s.register("default", defaults(), Ok(1)).unwrap();
    assert!(s.profile("default").is_ok());
    assert_eq!(s.profile_names(), vec!["default"]);
}

#[test]
fn an_unknown_profile_names_the_ones_that_exist() {
    let mut s = state();
    s.register("a", defaults(), Ok(1)).unwrap();
    let e = s.profile("b").unwrap_err();
    let text = format!("{e:?}");
    assert!(text.contains('b'), "{text}");
    assert!(text.contains("registered markdown profiles: a"), "{text}");
}

#[test]
fn a_broken_template_fails_at_registration_not_at_call_time() {
    let mut s = state();
    let e = s
        .register("default", defaults(), Err("unexpected end".to_owned()))
        .unwrap_err();
    assert!(matches!(e, BackendError::InvalidSpec { .. }), "{e:?}");
    assert!(s.profile_names().is_empty());
}

#[test]
fn an_unknown_format_name_fails_at_registration() {
    let e = state()
        .register("default", defaults(), Err("no converter nonesuch".to_owned()))
        .unwrap_err();
    assert!(format!("{e:?}").contains("nonesuch"), "{e:?}");
}

#[test]
fn disabling_every_source_is_rejected() {
    let e = register(ProfileConfig {
        sources: Sources {
            inline: false,
            resource: false,
            url: false,
        },
        ..defaults()
    })
    .unwrap_err();
    assert!(format!("{e:?}").contains("never convert"), "{e:?}");
}

#[test]
fn zero_limits_are_rejected() {
    for (field, l) in [
        (
            "max_input_bytes",
            Limits {
                max_input_bytes: 0,
                ..limits()
            },
        ),
        (
            "max_output_bytes",
            Limits {
                max_output_bytes: 0,
                ..limits()
            },
        ),
        (
            "max_expanded_bytes",
            Limits {
                max_expanded_bytes: 0,
                ..limits()
            },
        ),
        (
            "timeout_ms",
            Limits {
                timeout_ms: 0,
                ..limits()
            },
        ),
    ] {
        let e = register(with_limits(l)).unwrap_err();
        assert!(format!("{e:?}").contains(field), "{field}: {e:?}");
    }
    let e = register(with_limits(Limits {
        max_depth: 0,
        ..limits()
    }))
    .unwrap_err();
    assert!(format!("{e:?}").contains("max_depth"), "{e:?}");
}

#[test]
fn an_expansion_ceiling_below_the_input_ceiling_is_rejected() {
    let e = register(with_limits(Limits {
        max_input_bytes: 1000,
        max_expanded_bytes: 100,
        ..limits()
    }))
    .unwrap_err();
    assert!(format!("{e:?}").contains("expand to less"), "{e:?}");
    assert_eq!(
        e,
        BackendError::InvalidSpec {
            message: "markdown profile \"default\": limits.max_expanded_bytes (100) is below \
                      max_input_bytes (1000); an archive can never expand to less than itself"
                .to_owned()
        }
    );
}

#[test]
fn enrichment_without_a_binding_is_rejected_rather_than_ignored() {
    let e = register(with_llm(LlmOptions {
        enrich: captions(),
        ..LlmOptions::default()
    }))
    .unwrap_err();
    assert!(format!("{e:?}").contains("silently never run"), "{e:?}");
}

#[test]
fn a_binding_with_nothing_to_enrich_is_rejected() {
    let e = register(with_llm(LlmOptions {
        binding: Some("vision".to_owned()),
        ..LlmOptions::default()
    }))
    .unwrap_err();
    assert!(format!("{e:?}").contains("never be"), "{e:?}");
}

#[test]
fn a_valid_enrichment_profile_registers() {
    assert!(register(with_llm(LlmOptions {
        binding: Some("vision".to_owned()),
        enrich: captions(),
        ..LlmOptions::default()
    }))
    .is_ok());
}

#[test]
fn zero_enrichment_calls_contradicts_enabling_enrichment() {
    let e = register(with_llm(LlmOptions {
        binding: Some("vision".to_owned()),
        enrich: captions(),
        max_calls_per_document: 0,
        ..LlmOptions::default()
    }))
    .unwrap_err();
    assert!(format!("{e:?}").contains("max_calls_per_document"), "{e:?}");
}

#[test]
fn the_sole_profile_is_only_implied_when_it_is_unambiguous() {
    let mut s = state();
    assert!(s.sole_profile().is_none());
    s.register("only", defaults(), Ok(1)).unwrap();
    assert!(s.sole_profile().is_some());
    s.register("second", defaults(), Ok(1)).unwrap();
    assert!(
        s.sole_profile().is_none(),
        "guessing between profiles would silently apply the wrong template"
    );
}

#[test]
fn re_registering_a_name_replaces_it() {
    let mut s = state();
    let depth = |max_depth| {
        with_limits(Limits {
            max_depth,
            ..limits()
        })
    };
    s.register("p", depth(1), Ok(1)).unwrap();
    s.register("p", depth(2), Ok(7)).unwrap();
    assert_eq!(s.profile("p").unwrap().config.convert.limits.max_depth, 2);
    assert_eq!(s.profile("p").unwrap().engine, 7);
    assert_eq!(s.profile_names().len(), 1);
}

#[test]
fn names_come_in_order() {
    let mut s = state();
    for name in ["delta", "alpha", "é", "Beta", "alph", "charlie", "alpha"] {
        s.register(name, defaults(), Ok(1)).unwrap();
    }
    let mut sorted: Vec<String> = ["delta", "alpha", "é", "Beta", "alph", "charlie"]
        .iter()
        .map(|n| n.to_string())
        .collect();
    sorted.sort();
    assert_eq!(s.profile_names(), sorted);
    match s.profile("nope").unwrap_err() {
        BackendError::ProfileNotFound { backend_name } => assert_eq!(
            backend_name,
            "nope (registered markdown profiles: Beta, alph, alpha, charlie, delta, é)"
        ),
        other => panic!("{other:?}"),
    }
    for name in &sorted {
        assert_eq!(s.profile(name).unwrap().name, *name);
    }
}

#[test]
fn a_refused_registration_leaves_the_registry_alone() {
    let mut s = state();
    s.register("p", defaults(), Ok(1)).unwrap();
    let broken = with_limits(Limits {
        timeout_ms: 0,
        ..limits()
    });
    assert!(s.register("p", broken, Ok(2)).is_err());
    assert_eq!(s.profile("p").unwrap().engine, 1);
}

#[test]
fn an_unreadable_profile_says_which_one_it_is() {
    assert_eq!(
        invalid_spec("a\"b", "unknown field `sourcs`"),
        BackendError::InvalidSpec {
            message: "markdown profile \"a\\\"b\": unknown field `sourcs`".to_owned()
        }
    );
    assert!(validate("x", &defaults()).is_ok());
}

#[test]
fn an_error_describes_itself_as_its_debug_form_does() {
    for e in [
        BackendError::InvalidSpec {
            message: "a \"quoted\" word\n".to_owned(),
        },
        BackendError::Transport {
            message: "plain".to_owned(),
        },
        BackendError::Timeout { timeout_ms: 1205 },
        BackendError::ProfileNotFound {
            backend_name: "ghost".to_owned(),
        },
    ] {
        assert_eq!(e.describe(), format!("{e:?}"));
    }
}
