//! What is measured, under which names and labels.

use vstd::prelude::*;

use crate::document::WarningView;
use crate::enrich::EnrichReport;
use crate::obs;
use crate::obs::{MeasurementView, Sample};

verus! {

/// A conversion that succeeds is counted once, with its converter, its source,
/// the signal that chose the converter and the outcome. Its duration and both
/// its sizes are recorded, and each of its warnings is counted by its kind.
pub proof fn a_success_is_measured_whole(
    converter: Seq<char>,
    mode: Seq<char>,
    detected_via: Seq<char>,
    input_bytes: usize,
    output_bytes: usize,
    nanoseconds: u64,
    warnings: Seq<WarningView>,
)
    ensures
        ({
            let series = obs::completion(
                converter,
                mode,
                detected_via,
                input_bytes,
                output_bytes,
                nanoseconds,
                warnings,
            );
            &&& series.len() == 4 + warnings.len()
            &&& series[0] == (MeasurementView::Counter {
                name: "mcpg_markdown_conversions_total"@,
                value: 1,
                labels: seq![
                    ("format"@, converter),
                    ("source"@, mode),
                    ("detected_via"@, detected_via),
                    ("outcome"@, "success"@),
                ],
            })
            &&& series[1] == (MeasurementView::Histogram {
                name: "mcpg_markdown_duration_seconds"@,
                sample: Sample::Nanoseconds(nanoseconds),
                labels: seq![("format"@, converter)],
            })
            &&& series[2] == (MeasurementView::Histogram {
                name: "mcpg_markdown_input_bytes"@,
                sample: Sample::Bytes(input_bytes),
                labels: seq![("format"@, converter)],
            })
            &&& series[3] == (MeasurementView::Histogram {
                name: "mcpg_markdown_output_bytes"@,
                sample: Sample::Bytes(output_bytes),
                labels: seq![("format"@, converter)],
            })
            &&& forall|i: int|
                0 <= i < warnings.len() ==> #[trigger] series[4 + i] == (MeasurementView::Counter {
                    name: "mcpg_markdown_warnings_total"@,
                    value: 1,
                    labels: seq![("format"@, converter), ("kind"@, warnings[i].kind)],
                })
        }),
{
}

/// A conversion that fails is counted once, with the code of its error, and
/// once more where a parser panicked.
pub proof fn a_failure_is_counted_by_its_code(
    format: Seq<char>,
    mode: Seq<char>,
    code: Seq<char>,
)
    ensures
        ({
            let series = obs::failure_series(format, mode, code);
            &&& series.len() == if code == "panic"@ {
                2
            } else {
                1int
            }
            &&& series[0] == (MeasurementView::Counter {
                name: "mcpg_markdown_conversions_total"@,
                value: 1,
                labels: seq![
                    ("format"@, format),
                    ("source"@, mode),
                    ("outcome"@, "error"@),
                    ("error"@, code),
                ],
            })
            &&& code == "panic"@ ==> series[1] == (MeasurementView::Counter {
                name: "mcpg_markdown_parser_panics_total"@,
                value: 1,
                labels: seq![("format"@, format)],
            })
        }),
{
}

/// The calls of a pass that came to this.
pub open spec fn calls(outcome: Seq<char>, n: u32) -> MeasurementView {
    MeasurementView::Counter {
        name: "mcpg_markdown_enrichment_calls_total"@,
        value: n as u64,
        labels: seq![("outcome"@, outcome)],
    }
}

/// What a pass reports is counted by its outcome: each number that is not zero
/// once, under its own outcome, and nothing else.
pub proof fn a_pass_is_counted_by_its_outcomes(report: EnrichReport)
    ensures
        ({
            let series = obs::enrichment_series(report);
            &&& report.succeeded > 0 ==> series.contains(calls("success"@, report.succeeded))
            &&& report.failed > 0 ==> series.contains(calls("error"@, report.failed))
            &&& report.cached > 0 ==> series.contains(calls("cached"@, report.cached))
            &&& report.skipped_over_budget > 0 ==> series.contains(
                calls("over_budget"@, report.skipped_over_budget),
            )
            &&& forall|i: int|
                0 <= i < series.len() ==> {
                    ||| #[trigger] series[i] == calls("success"@, report.succeeded)
                        && report.succeeded > 0
                    ||| series[i] == calls("error"@, report.failed) && report.failed > 0
                    ||| series[i] == calls("cached"@, report.cached) && report.cached > 0
                    ||| series[i] == calls("over_budget"@, report.skipped_over_budget)
                        && report.skipped_over_budget > 0
                }
        }),
{
    let a = obs::outcome_series("success"@, report.succeeded);
    let b = obs::outcome_series("error"@, report.failed);
    let c = obs::outcome_series("cached"@, report.cached);
    let d = obs::outcome_series("over_budget"@, report.skipped_over_budget);
    let series = obs::enrichment_series(report);
    assert(series =~= a + b + c + d);
    if report.succeeded > 0 {
        assert(series[0] == calls("success"@, report.succeeded));
    }
    if report.failed > 0 {
        assert(series[a.len() as int] == calls("error"@, report.failed));
    }
    if report.cached > 0 {
        assert(series[(a + b).len() as int] == calls("cached"@, report.cached));
    }
    if report.skipped_over_budget > 0 {
        assert(series[(a + b + c).len() as int] == calls(
            "over_budget"@,
            report.skipped_over_budget,
        ));
    }
}

} // verus!
