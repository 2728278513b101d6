//! Measurements.
//!
//! Label sets are closed: converter names, warning kinds, error codes and
//! source modes are all `&'static str` from fixed enumerations, so no
//! caller-supplied string can inflate cardinality.
//!
//! What is measured is written down here in order; sending it is for whoever
//! holds a sink.

use vstd::prelude::*;

use crate::document;
use crate::document::{Warning, WarningView};
use crate::enrich::EnrichReport;
use crate::text;

verus! {

pub const CONVERSIONS: &'static str = "mcpg_markdown_conversions_total";

pub const DURATION: &'static str = "mcpg_markdown_duration_seconds";

pub const INPUT_BYTES: &'static str = "mcpg_markdown_input_bytes";

pub const OUTPUT_BYTES: &'static str = "mcpg_markdown_output_bytes";

pub const WARNINGS: &'static str = "mcpg_markdown_warnings_total";

pub const ENRICHMENT: &'static str = "mcpg_markdown_enrichment_calls_total";

pub const PANICS: &'static str = "mcpg_markdown_parser_panics_total";

/// What a histogram is fed with.
#[derive(Debug, Clone, Copy, PartialEq, Eq, Structural)]
pub enum Sample {
    Nanoseconds(u64),
    Bytes(usize),
}

/// One measurement.
#[derive(Debug)]
pub enum Measurement {
    Counter {
        name: &'static str,
        value: u64,
        labels: Vec<(&'static str, &'static str)>,
    },
    Histogram {
        name: &'static str,
        sample: Sample,
        labels: Vec<(&'static str, &'static str)>,
    },
}

/// Measurements in the order in which they were taken.
#[derive(Debug)]
pub struct Measurements {
    pub entries: Vec<Measurement>,
}

/// What a [`Measurement`] says.
#[verifier::ext_equal]
pub enum MeasurementView {
    Counter { name: Seq<char>, value: u64, labels: Seq<(Seq<char>, Seq<char>)> },
    Histogram { name: Seq<char>, sample: Sample, labels: Seq<(Seq<char>, Seq<char>)> },
}

pub open spec fn labels_of(v: Seq<(&'static str, &'static str)>) -> Seq<(Seq<char>, Seq<char>)> {
    v.map_values(|l: (&'static str, &'static str)| (l.0@, l.1@))
}

impl Measurement {
    pub open spec fn view(&self) -> MeasurementView {
        match self {
            Measurement::Counter { name, value, labels } => MeasurementView::Counter {
                name: name@,
                value: *value,
                labels: labels_of(labels@),
            },
            Measurement::Histogram { name, sample, labels } => MeasurementView::Histogram {
                name: name@,
                sample: *sample,
                labels: labels_of(labels@),
            },
        }
    }
}

impl Measurements {
    pub open spec fn view(&self) -> Seq<MeasurementView> {
        self.entries@.map_values(|m: Measurement| m@)
    }

    pub fn new() -> (r: Self)
        ensures
            r@ == Seq::<MeasurementView>::empty(),
    {
        let r = Measurements { entries: Vec::new() };
        assert(r@ =~= Seq::<MeasurementView>::empty());
        r
    }

    fn note(&mut self, m: Measurement)
        ensures
            final(self)@ == old(self)@.push(m@),
    {
        self.entries.push(m);
        assert(self@ =~= old(self)@.push(m@));
    }
}

/// What one completed conversion measured.
pub struct Success<'a> {
    pub converter: &'static str,
    pub mode: &'static str,
    pub detected_via: &'static str,
    pub input_bytes: usize,
    pub output_bytes: usize,
    pub nanoseconds: u64,
    pub warnings: &'a Vec<Warning>,
}

/// A counter with these labels.
pub open spec fn counted(
    name: Seq<char>,
    value: u64,
    labels: Seq<(Seq<char>, Seq<char>)>,
) -> MeasurementView {
    MeasurementView::Counter { name, value, labels }
}

/// What warnings leave: one count each, by kind.
pub open spec fn warning_series(converter: Seq<char>, warnings: Seq<WarningView>) -> Seq<
    MeasurementView,
> {
    warnings.map_values(
        |w: WarningView|
            counted(WARNINGS@, 1, seq![("format"@, converter), ("kind"@, w.kind)]),
    )
}

/// What a completed conversion leaves.
pub open spec fn completion(
    converter: Seq<char>,
    mode: Seq<char>,
    detected_via: Seq<char>,
    input_bytes: usize,
    output_bytes: usize,
    nanoseconds: u64,
    warnings: Seq<WarningView>,
) -> Seq<MeasurementView> {
    let format = seq![("format"@, converter)];
    seq![
        counted(
            CONVERSIONS@,
            1,
            seq![
                ("format"@, converter),
                ("source"@, mode),
                ("detected_via"@, detected_via),
                ("outcome"@, "success"@),
            ],
        ),
        MeasurementView::Histogram {
            name: DURATION@,
            sample: Sample::Nanoseconds(nanoseconds),
            labels: format,
        },
        MeasurementView::Histogram {
            name: INPUT_BYTES@,
            sample: Sample::Bytes(input_bytes),
            labels: format,
        },
        MeasurementView::Histogram {
            name: OUTPUT_BYTES@,
            sample: Sample::Bytes(output_bytes),
            labels: format,
        },
    ] + warning_series(converter, warnings)
}

/// What a completed conversion leaves.
pub open spec fn success_series(s: Success<'_>) -> Seq<MeasurementView> {
    completion(
        s.converter@,
        s.mode@,
        s.detected_via@,
        s.input_bytes,
        s.output_bytes,
        s.nanoseconds,
        document::warnings_of(s.warnings@),
    )
}

/// What a failed conversion leaves. A caught parser panic is never expected,
/// so it gets a series of its own.
pub open spec fn failure_series(format: Seq<char>, mode: Seq<char>, code: Seq<char>) -> Seq<
    MeasurementView,
> {
    let failure = seq![
        counted(
            CONVERSIONS@,
            1,
            seq![
                ("format"@, format),
                ("source"@, mode),
                ("outcome"@, "error"@),
                ("error"@, code),
            ],
        ),
    ];
    if code == "panic"@ {
        failure.push(counted(PANICS@, 1, seq![("format"@, format)]))
    } else {
        failure
    }
}

/// What one outcome of enrichment leaves: nothing, where it did not occur.
pub open spec fn outcome_series(outcome: Seq<char>, n: u32) -> Seq<MeasurementView> {
    if n > 0 {
        seq![counted(ENRICHMENT@, n as u64, seq![("outcome"@, outcome)])]
    } else {
        Seq::empty()
    }
}

/// What an enrichment pass leaves.
pub open spec fn enrichment_series(report: EnrichReport) -> Seq<MeasurementView> {
    outcome_series("success"@, report.succeeded) + outcome_series("error"@, report.failed)
        + outcome_series("cached"@, report.cached) + outcome_series(
        "over_budget"@,
        report.skipped_over_budget,
    )
}

fn counter_of(
    name: &'static str,
    value: u64,
    labels: Vec<(&'static str, &'static str)>,
) -> (r: Measurement)
    ensures
        r@ == counted(name@, value, labels_of(labels@)),
{
    Measurement::Counter { name, value, labels }
}

/// Record one completed conversion.
pub fn record_success(m: &mut Measurements, s: Success<'_>)
    ensures
        final(m)@ == old(m)@ + success_series(s),
{
    let format = s.converter;
    let labels = vec![
        ("format", format),
        ("source", s.mode),
        ("detected_via", s.detected_via),
        ("outcome", "success"),
    ];
    assert(labels_of(labels@) =~= seq![
        ("format"@, format@),
        ("source"@, s.mode@),
        ("detected_via"@, s.detected_via@),
        ("outcome"@, "success"@),
    ]);
    m.note(counter_of(CONVERSIONS, 1, labels));
    m.histogram(DURATION, Sample::Nanoseconds(s.nanoseconds), format);
    m.histogram(INPUT_BYTES, Sample::Bytes(s.input_bytes), format);
    m.histogram(OUTPUT_BYTES, Sample::Bytes(s.output_bytes), format);
    record_warnings(m, format, s.warnings);
    assert(m@ =~= old(m)@ + success_series(s));
}

impl Measurements {
    fn histogram(&mut self, name: &'static str, sample: Sample, format: &'static str)
        ensures
            final(self)@ == old(self)@.push(
                MeasurementView::Histogram {
                    name: name@,
                    sample,
                    labels: seq![("format"@, format@)],
                },
            ),
    {
        let labels = vec![("format", format)];
        assert(labels_of(labels@) =~= seq![("format"@, format@)]);
        self.note(Measurement::Histogram { name, sample, labels });
    }
}

/// Record a failed conversion. `format` is the converter that failed where one
/// was chosen, and `"none"` when detection found nothing to try.
pub fn record_failure(
    m: &mut Measurements,
    format: &'static str,
    mode: &'static str,
    code: &'static str,
)
    ensures
        final(m)@ == old(m)@ + failure_series(format@, mode@, code@),
{
    let labels = vec![
        ("format", format),
        ("source", mode),
        ("outcome", "error"),
        ("error", code),
    ];
    assert(labels_of(labels@) =~= seq![
        ("format"@, format@),
        ("source"@, mode@),
        ("outcome"@, "error"@),
        ("error"@, code@),
    ]);
    m.note(counter_of(CONVERSIONS, 1, labels));
    // An alert can then fire on any non-zero value rather than on a rate
    // change.
    if text::same(code, "panic") {
        let labels = vec![("format", format)];
        assert(labels_of(labels@) =~= seq![("format"@, format@)]);
        m.note(counter_of(PANICS, 1, labels));
    }
    assert(m@ =~= old(m)@ + failure_series(format@, mode@, code@));
}

/// Record each warning by its kind.
pub fn record_warnings(m: &mut Measurements, converter: &'static str, warnings: &Vec<Warning>)
    ensures
        final(m)@ == old(m)@ + warning_series(converter@, document::warnings_of(warnings@)),
{
    let ghost all = document::warnings_of(warnings@);
    let ghost series = warning_series(converter@, all);
    let mut i: usize = 0;
    assert(m@ =~= old(m)@ + series.take(0));
    while i < warnings.len()
        invariant
            i <= warnings@.len(),
            all == document::warnings_of(warnings@),
            series == warning_series(converter@, all),
            m@ == old(m)@ + series.take(i as int),
        decreases warnings@.len() - i,
    {
        let labels = vec![("format", converter), ("kind", warnings[i].kind.as_str())];
        assert(labels_of(labels@) =~= seq![
            ("format"@, converter@),
            ("kind"@, all[i as int].kind),
        ]);
        m.note(counter_of(WARNINGS, 1, labels));
        assert(series.take(i + 1) =~= series.take(i as int).push(series[i as int]));
        i = i + 1;
        assert(m@ =~= old(m)@ + series.take(i as int));
    }
    assert(series.take(i as int) =~= series);
}

fn record_outcome(m: &mut Measurements, outcome: &'static str, n: u32)
    ensures
        final(m)@ == old(m)@ + outcome_series(outcome@, n),
{
    if n > 0 {
        let labels = vec![("outcome", outcome)];
        assert(labels_of(labels@) =~= seq![("outcome"@, outcome@)]);
        m.note(counter_of(ENRICHMENT, n as u64, labels));
    }
    assert(m@ =~= old(m)@ + outcome_series(outcome@, n));
}

/// Record what an enrichment pass did.
pub fn record_enrichment(m: &mut Measurements, report: &EnrichReport)
    ensures
        final(m)@ == old(m)@ + enrichment_series(*report),
{
    record_outcome(m, "success", report.succeeded);
    record_outcome(m, "error", report.failed);
    record_outcome(m, "cached", report.cached);
    record_outcome(m, "over_budget", report.skipped_over_budget);
    assert(m@ =~= old(m)@ + enrichment_series(*report));
}

/// The name under which a measurement counts.
pub open spec fn name_of(m: MeasurementView) -> Seq<char> {
    match m {
        MeasurementView::Counter { name, .. } => name,
        MeasurementView::Histogram { name, .. } => name,
    }
}

pub open spec fn label_values(m: MeasurementView) -> Seq<(Seq<char>, Seq<char>)> {
    match m {
        MeasurementView::Counter { labels, .. } => labels,
        MeasurementView::Histogram { labels, .. } => labels,
    }
}

/// A caught panic, and nothing else, touches the panic series.
pub proof fn only_a_panic_touches_its_series(format: Seq<char>, mode: Seq<char>, code: Seq<char>)
    ensures
        (exists|i: int|
            0 <= i < failure_series(format, mode, code).len() && name_of(
                #[trigger] failure_series(format, mode, code)[i],
            ) == PANICS@) <==> code == "panic"@,
{
    reveal_strlit("mcpg_markdown_conversions_total");
    reveal_strlit("mcpg_markdown_parser_panics_total");
    let series = failure_series(format, mode, code);
    assert(CONVERSIONS@.len() != PANICS@.len());
    if code == "panic"@ {
        assert(name_of(series[1]) == PANICS@);
    }
}

/// One for an outcome that occurred.
pub open spec fn occurred(n: u32) -> nat {
    if n > 0 {
        1
    } else {
        0
    }
}

/// An outcome of enrichment is counted exactly where it occurred.
pub proof fn only_outcomes_that_occurred_are_counted(report: EnrichReport)
    ensures
        enrichment_series(report).len() == occurred(report.succeeded) + occurred(report.failed)
            + occurred(report.cached) + occurred(report.skipped_over_budget),
        forall|i: int|
            0 <= i < enrichment_series(report).len() ==> {
                &&& #[trigger] enrichment_series(report)[i] is Counter
                &&& enrichment_series(report)[i]->value > 0
            },
{
}

/// Every label of a completed conversion carries the converter, the source
/// mode, the detection signal, the outcome, or the kind of one of its
/// warnings, and nothing else.
pub proof fn labels_are_closed(s: Success<'_>, i: int, k: int)
    requires
        0 <= i < success_series(s).len(),
        0 <= k < label_values(success_series(s)[i]).len(),
    ensures
        ({
            let value = label_values(success_series(s)[i])[k].1;
            ||| value == s.converter@
            ||| value == s.mode@
            ||| value == s.detected_via@
            ||| value == "success"@
            ||| exists|j: int|
                0 <= j < s.warnings@.len() && value == (#[trigger] s.warnings@[j]).kind.label()
        }),
{
    if i >= 4 {
        let all = document::warnings_of(s.warnings@);
        assert(success_series(s)[i] == warning_series(s.converter@, all)[i - 4]);
        assert(all[i - 4].kind == s.warnings@[i - 4].kind.label());
    }
}

/// Every label of a failed conversion carries the converter, the source mode,
/// the outcome or the engine's code, and nothing else.
pub proof fn failure_labels_are_closed(
    format: Seq<char>,
    mode: Seq<char>,
    code: Seq<char>,
    i: int,
    k: int,
)
    requires
        0 <= i < failure_series(format, mode, code).len(),
        0 <= k < label_values(failure_series(format, mode, code)[i]).len(),
    ensures
        ({
            let value = label_values(failure_series(format, mode, code)[i])[k].1;
            value == format || value == mode || value == "error"@ || value == code
        }),
{
}

/// Every label of an enrichment pass is one of four outcomes.
pub proof fn enrichment_labels_are_closed(report: EnrichReport, i: int, k: int)
    requires
        0 <= i < enrichment_series(report).len(),
        0 <= k < label_values(enrichment_series(report)[i]).len(),
    ensures
        ({
            let value = label_values(enrichment_series(report)[i])[k].1;
            ||| value == "success"@
            ||| value == "error"@
            ||| value == "cached"@
            ||| value == "over_budget"@
        }),
{
    let a = outcome_series("success"@, report.succeeded);
    let b = outcome_series("error"@, report.failed);
    let c = outcome_series("cached"@, report.cached);
    let d = outcome_series("over_budget"@, report.skipped_over_budget);
    let m = enrichment_series(report)[i];
    if i < a.len() {
        assert(m == a[i]);
    } else if i < a.len() + b.len() {
        assert(m == b[i - a.len()]);
    } else if i < a.len() + b.len() + c.len() {
        assert(m == c[i - a.len() - b.len()]);
    } else {
        assert(m == d[i - a.len() - b.len() - c.len()]);
    }
}

} // verus!
