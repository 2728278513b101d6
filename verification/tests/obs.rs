use markdown_plugin::document::{Warning, WarningKind};
use markdown_plugin::enrich::EnrichReport;
use markdown_plugin::obs::{
    record_enrichment, record_failure, record_success, record_warnings, Measurement, Measurements,
    Sample, Success, CONVERSIONS, DURATION, ENRICHMENT, INPUT_BYTES, OUTPUT_BYTES, PANICS,
    WARNINGS,
};

fn success<'a>(
    converter: &'static str,
    mode: &'static str,
    warnings: &'a Vec<Warning>,
) -> Success<'a> {
    Success {
        converter,
        mode,
        detected_via: "content",
        input_bytes: 100,
        output_bytes: 50,
        nanoseconds: 250_000_000,
        warnings,
    }
}

fn counters(m: &Measurements) -> Vec<(&'static str, u64, Vec<(&'static str, &'static str)>)> {
    m.entries
        .iter()
        .filter_map(|e| match e {
            Measurement::Counter { name, value, labels } => Some((*name, *value, labels.clone())),
            Measurement::Histogram { .. } => None,
        })
        .collect()
}

fn histograms(m: &Measurements) -> Vec<(&'static str, Sample)> {
    m.entries
        .iter()
        .filter_map(|e| match e {
            Measurement::Histogram { name, sample, .. } => Some((*name, *sample)),
            Measurement::Counter { .. } => None,
        })
        .collect()
}

#[test]
fn a_success_records_a_conversion_and_three_histograms() {
    let mut r = Measurements::new();
    record_success(&mut r, success("docx", "resource", &vec![]));
    assert_eq!(counters(&r).len(), 1);
    let names: Vec<&str> = histograms(&r).iter().map(|(n, _)| *n).collect();
    assert!(names.contains(&DURATION));
    assert!(names.contains(&INPUT_BYTES));
    assert!(names.contains(&OUTPUT_BYTES));
    assert_eq!(
        histograms(&r),
        vec![
            (DURATION, Sample::Nanoseconds(250_000_000)),
            (INPUT_BYTES, Sample::Bytes(100)),
            (OUTPUT_BYTES, Sample::Bytes(50)),
        ]
    );
    assert_eq!(
        counters(&r)[0],
        (
            CONVERSIONS,
            1,
            vec![
                ("format", "docx"),
                ("source", "resource"),
                ("detected_via", "content"),
                ("outcome", "success"),
            ]
        )
    );
}

#[test]
fn every_warning_is_counted_by_kind() {
    let mut r = Measurements::new();
    record_warnings(
        &mut r,
        "pdf",
        &vec![
            Warning::new(WarningKind::NoTextLayer, "a".to_owned()),
            Warning::new(WarningKind::Truncated, "b".to_owned()),
        ],
    );
    let kinds: Vec<&str> = counters(&r)
        .iter()
        .filter(|(n, _, _)| *n == WARNINGS)
        .map(|(_, _, l)| {
            l.iter()
                .find(|(k, _)| *k == "kind")
                .map(|(_, v)| *v)
                .unwrap_or_default()
        })
        .collect();
    assert_eq!(kinds, vec!["no_text_layer", "truncated"]);
}

#[test]
fn a_caught_panic_gets_its_own_series() {
    let mut r = Measurements::new();
    record_failure(&mut r, "pdf", "inline", "panic");
    assert!(
        counters(&r).iter().any(|(n, _, _)| *n == PANICS),
        "a caught parser panic must be alertable on its own"
    );
}

#[test]
fn an_ordinary_failure_does_not_touch_the_panic_series() {
    let mut r = Measurements::new();
    record_failure(&mut r, "pdf", "inline", "malformed");
    assert!(!counters(&r).iter().any(|(n, _, _)| *n == PANICS));
    assert_eq!(
        counters(&r)[0].2,
        vec![
            ("format", "pdf"),
            ("source", "inline"),
            ("outcome", "error"),
            ("error", "malformed"),
        ]
    );
}

#[test]
fn label_values_never_come_from_caller_input() {
    let mut r = Measurements::new();
    record_success(&mut r, success("csv", "url", &vec![]));
    for (_, _, labels) in counters(&r).iter() {
        for (k, v) in labels {
            assert!(!v.contains('/'), "{k}={v} looks like a path");
            assert!(v.len() < 32, "{k}={v} is suspiciously long");
        }
    }
}

#[test]
fn enrichment_outcomes_are_counted_only_when_non_zero() {
    let mut r = Measurements::new();
    record_enrichment(
        &mut r,
        &EnrichReport {
            attempted: 3,
            succeeded: 2,
            failed: 1,
            cached: 0,
            skipped_over_budget: 0,
        },
    );
    assert_eq!(counters(&r).len(), 2);
    assert_eq!(
        counters(&r),
        vec![
            (ENRICHMENT, 2, vec![("outcome", "success")]),
            (ENRICHMENT, 1, vec![("outcome", "error")]),
        ]
    );
}

#[test]
fn cached_and_skipped_calls_are_outcomes_too() {
    let mut r = Measurements::new();
    record_enrichment(
        &mut r,
        &EnrichReport {
            attempted: 0,
            succeeded: 0,
            failed: 0,
            cached: 4,
            skipped_over_budget: 5,
        },
    );
    assert_eq!(
        counters(&r),
        vec![
            (ENRICHMENT, 4, vec![("outcome", "cached")]),
            (ENRICHMENT, 5, vec![("outcome", "over_budget")]),
        ]
    );
}
