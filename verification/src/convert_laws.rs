//! What a conversion makes of a document, and what its caller is told.

use vstd::prelude::*;

use crate::convert;
use crate::convert::{ConvertError, ConvertedView, Parsed, Rendered};
use crate::document::{DocumentView, WarningKind, WarningView};
use crate::enrich::EnrichReport;
use crate::error::ErrorView;
use crate::obs;
use crate::obs::MeasurementView;
use crate::stream::StreamInfoView;
use crate::text_laws;

verus! {

/// The result of a conversion is the Markdown as it was rendered, the title of
/// the document, the converter and the signal that chose it, and every warning
/// of the parser before every warning of the renderer, each in its order.
pub proof fn a_result_holds_all_that_was_made(parsed: Parsed, out: Rendered)
    ensures
        ({
            let c = convert::completed(parsed, out);
            let early = parsed.document.warnings@;
            let late = out.warnings@;
            &&& c.markdown == out.markdown@
            &&& match parsed.document.title {
                Some(t) => c.title == Some(t@),
                None => c.title is None,
            }
            &&& c.format == parsed.converter@
            &&& c.detected_via == parsed.detected_via@
            &&& c.warnings.len() == early.len() + late.len()
            &&& forall|i: int|
                0 <= i < early.len() ==> #[trigger] c.warnings[i] == (WarningView {
                    kind: early[i].kind.label(),
                    message: early[i].message@,
                })
            &&& forall|i: int|
                0 <= i < late.len() ==> #[trigger] c.warnings[early.len() + i] == (WarningView {
                    kind: late[i].kind.label(),
                    message: late[i].message@,
                })
        }),
{
}

/// A warning is known by its kind's label.
pub proof fn a_kind_has_its_label(kind: WarningKind)
    ensures
        match kind {
            WarningKind::Truncated => kind.label() == "truncated"@,
            WarningKind::NoTextLayer => kind.label() == "no_text_layer"@,
            WarningKind::TypeMismatch => kind.label() == "type_mismatch"@,
            WarningKind::HeuristicApplied => kind.label() == "heuristic_applied"@,
            WarningKind::Degraded => kind.label() == "degraded"@,
            WarningKind::EnrichmentFailed => kind.label() == "enrichment_failed"@,
            WarningKind::Engine(label) => kind.label() == label@,
        },
{
}

/// A document from the content store carries its URI in its metadata, and
/// enrichment reads it there; from anywhere else nothing is added, and
/// enrichment stores its own copy. The rest of the document is as it was.
pub proof fn a_stored_document_knows_its_uri(
    doc: DocumentView,
    bytes: Seq<u8>,
    info: StreamInfoView,
)
    ensures
        ({
            let out = convert::traced(doc, info);
            let origin = convert::origin(bytes, info);
            let stored = info.url is Some && info.url->0.len() >= 16 && info.url->0.take(16)
                == "mcpg-resource://"@;
            &&& out.title == doc.title
            &&& out.blocks == doc.blocks
            &&& out.warnings == doc.warnings
            &&& stored ==> {
                &&& out.metadata == doc.metadata.insert("source_uri"@, info.url->0)
                &&& origin.uri == info.url
            }
            &&& !stored ==> {
                &&& out.metadata == doc.metadata
                &&& origin.uri is None
            }
            &&& origin.bytes == bytes
            &&& origin.mime == match info.mimetype {
                Some(m) => m,
                None => "application/octet-stream"@,
            }
        }),
{
    reveal_strlit("mcpg-resource://");
    if let Some(url) = info.url {
        if url.len() >= 16 && url.take(16) == "mcpg-resource://"@ {
            assert("mcpg-resource://"@.is_prefix_of(url));
        }
        if "mcpg-resource://"@.is_prefix_of(url) {
            assert(url.take(16) =~= "mcpg-resource://"@);
        }
    }
}

/// A refusal for want of time is a timeout; every other one carries the
/// engine's own words, with a plea to report it where a parser panicked.
pub proof fn a_refusal_is_told_in_its_own_words(e: ConvertError)
    ensures
        ({
            let timed_out = e.kind is LimitExceeded && exists|i: int|
                0 <= i <= e.text@.len() - 10 && #[trigger] e.text@.subrange(i, i + 10)
                    == "timeout_ms"@;
            convert::told_of(e) == if timed_out {
                ErrorView::Timeout { timeout_ms: 0 }
            } else if e.kind is ConverterPanic {
                ErrorView::Transport {
                    message: e.text@ + " — this is a defect; please report the input shape"@,
                }
            } else {
                ErrorView::Transport { message: e.text@ }
            }
        }),
{
    reveal_strlit("timeout_ms");
    text_laws::a_pattern_is_found_where_it_stands(e.text@, "timeout_ms"@);
}

/// A result is marked as cut short exactly where one of its warnings says so.
pub proof fn only_a_truncation_marks_a_result(c: ConvertedView)
    ensures
        convert::cut_short(c) <==> c.warnings.map_values(|w: WarningView| w.kind).contains(
            "truncated"@,
        ),
{
    let kinds = c.warnings.map_values(|w: WarningView| w.kind);
    if convert::cut_short(c) {
        let i = choose|i: int|
            0 <= i < c.warnings.len() && (#[trigger] c.warnings[i]).kind == "truncated"@;
        assert(kinds[i] == "truncated"@);
    }
    if kinds.contains("truncated"@) {
        let i = choose|i: int| 0 <= i < kinds.len() && kinds[i] == "truncated"@;
        assert(c.warnings[i].kind == "truncated"@);
    }
}

/// A pass is counted where it asked something or knew an answer already, and
/// only there.
pub proof fn an_idle_pass_is_not_counted(report: EnrichReport)
    ensures
        report.attempted == 0 && report.cached == 0 ==> convert::pass_series(report) == Seq::<
            MeasurementView,
        >::empty(),
        report.attempted > 0 || report.cached > 0 ==> convert::pass_series(report)
            == obs::enrichment_series(report),
{
}

/// What is measured of a conversion are the sizes of what came in and of the
/// Markdown in bytes, and every warning that its caller gets.
pub proof fn a_conversion_is_measured_by_what_it_took_and_made(
    parsed: Parsed,
    out: Rendered,
    mode: Seq<char>,
    input_bytes: usize,
    nanoseconds: u64,
)
    requires
        vstd::utf8::encode_utf8(out.markdown@).len() <= usize::MAX,
    ensures
        convert::completion_series(parsed, out, mode, input_bytes as nat, nanoseconds)
            == obs::completion(
            parsed.converter@,
            mode,
            parsed.detected_via@,
            input_bytes,
            vstd::utf8::encode_utf8(out.markdown@).len() as usize,
            nanoseconds,
            convert::completed(parsed, out).warnings,
        ),
{
}

/// A failure before a converter was chosen is told under the name `none`.
pub proof fn a_failure_names_its_converter(e: ConvertError)
    ensures
        e.format is None ==> e.converter() == "none"@,
        e.format matches Some(f) ==> e.converter() == f@,
{
}

} // verus!
