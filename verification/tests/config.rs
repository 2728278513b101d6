use markdown_plugin::config::{
    AudioEnrichment, ConvertOptions, EnrichOptions, ImageEnrichment, Limits, LlmOptions,
    PdfEnrichment, UrlOptions,
};
use markdown_plugin::{ProfileConfig, Sources};

fn limits() -> Limits {
    Limits {
        max_input_bytes: 20 * 1024 * 1024,
        max_output_bytes: 4 * 1024 * 1024,
        max_expanded_bytes: 200 * 1024 * 1024,
        timeout_ms: 30_000,
        max_depth: 3,
    }
}

#[test]
fn defaults_accept_inline_and_resource_but_not_url() {
    let p = ProfileConfig::with_engine_options(ConvertOptions { limits: limits() });
    assert!(p.sources.inline);
    assert!(p.sources.resource);
    assert!(!p.sources.url, "url must be opt-in");
    assert_eq!(p.sources, Sources::default());
}

#[test]
fn private_addresses_are_refused_by_default() {
    let u = UrlOptions::default();
    assert!(!u.allow_private_addresses);
    assert_eq!(u.max_redirects, 3);
}

#[test]
fn enrichment_is_off_unless_asked_for() {
    let l = LlmOptions::default();
    assert!(l.binding.is_none());
    assert!(!l.enrich.images.is_on());
    assert!(!l.enrich.audio.is_on());
    assert!(l.cache);
}

#[test]
fn a_fetch_has_twenty_seconds_and_a_document_eight_calls() {
    assert_eq!(UrlOptions::default().timeout_ms, 20_000);
    assert!(UrlOptions::default().allow_hosts.is_empty());
    assert_eq!(LlmOptions::default().max_calls_per_document, 8);
}

#[test]
fn engine_options_are_kept_as_given() {
    let p = ProfileConfig::with_engine_options(ConvertOptions { limits: limits() });
    assert_eq!(p.convert.limits, limits());
    assert_eq!(p.url, UrlOptions::default());
    assert_eq!(p.llm, LlmOptions::default());
}

#[test]
fn every_kind_of_enrichment_knows_whether_it_is_on() {
    assert!(!ImageEnrichment::Off.is_on());
    for on in [
        ImageEnrichment::Caption,
        ImageEnrichment::Ocr,
        ImageEnrichment::CaptionAndOcr,
    ] {
        assert!(on.is_on());
    }
    assert!(AudioEnrichment::Transcribe.is_on());
    assert!(!AudioEnrichment::Off.is_on());
    assert!(PdfEnrichment::Ocr.is_on());
    assert!(!PdfEnrichment::Off.is_on());
    let off = EnrichOptions::default();
    assert!(!off.images.is_on() && !off.audio.is_on() && !off.pdf.is_on());
}

#[test]
fn image_enrichment_has_a_name() {
    assert_eq!(ImageEnrichment::Off.as_str(), "off");
    assert_eq!(ImageEnrichment::Caption.as_str(), "caption");
    assert_eq!(ImageEnrichment::Ocr.as_str(), "ocr");
    assert_eq!(ImageEnrichment::CaptionAndOcr.as_str(), "caption+ocr");
}
