//! The conversion path both entities share.
//!
//! Detection, parsing and rendering happen in the engine; this adds what needs
//! a host or a policy decision: threading the source URI into the document so
//! enrichment can find it, running the enrichment pass, and recording what
//! happened. Whoever drives a conversion calls the engine three times and
//! hands each outcome to [`check_size`], [`receive`] and [`finish`] in turn.

use vstd::prelude::*;

use crate::config::Profile;
use crate::document;
use crate::document::{Document, DocumentView, Warning, WarningView};
use crate::enrich;
use crate::enrich::{Enricher, EnrichReport, EnrichmentCache, SourceView};
use crate::error::{BackendError, ErrorView};
use crate::obs;
use crate::obs::{MeasurementView, Measurements, Success};
use crate::stream::{StreamInfo, StreamInfoView};
use crate::text;

verus! {

/// A finished conversion, in the shape the tool returns it.
#[derive(Debug)]
pub struct Converted {
    pub markdown: String,
    pub title: Option<String>,
    /// Which converter ran. Useful when a caller is surprised by the output.
    pub format: String,
    /// Which detection signal chose it: `content`, `extension` or `declared`.
    pub detected_via: String,
    /// Every degradation. Present and empty rather than omitted, so a consumer
    /// can tell "nothing went wrong" from "this field does not exist".
    pub warnings: Vec<WarningOut>,
}

/// One degradation, in the shape the tool returns it.
#[derive(Debug, PartialEq, Eq)]
pub struct WarningOut {
    pub kind: String,
    pub message: String,
}

/// What a [`Converted`] says.
pub struct ConvertedView {
    pub markdown: Seq<char>,
    pub title: Option<Seq<char>>,
    pub format: Seq<char>,
    pub detected_via: Seq<char>,
    pub warnings: Seq<WarningView>,
}

impl WarningOut {
    pub open spec fn view(&self) -> WarningView {
        WarningView { kind: self.kind@, message: self.message@ }
    }
}

/// What each of a list of reported warnings says.
pub open spec fn reported(v: Seq<WarningOut>) -> Seq<WarningView> {
    v.map_values(|w: WarningOut| w@)
}

impl Converted {
    pub open spec fn view(&self) -> ConvertedView {
        ConvertedView {
            markdown: self.markdown@,
            title: text::text_of(self.title),
            format: self.format@,
            detected_via: self.detected_via@,
            warnings: reported(self.warnings@),
        }
    }
}

impl vstd::std_specs::convert::FromSpecImpl<&Warning> for WarningOut {
    open spec fn obeys_from_spec() -> bool {
        false
    }

    open spec fn from_spec(w: &Warning) -> Self {
        arbitrary()
    }
}

impl From<&Warning> for WarningOut {
    fn from(w: &Warning) -> (r: Self)
        ensures
            r@ == w@,
    {
        WarningOut { kind: w.kind.as_str().to_owned(), message: w.message.clone() }
    }
}

/// Why the engine refused, as far as the rules here tell reasons apart.
#[derive(Debug, Clone, Copy, PartialEq, Eq, Structural)]
pub enum ConvertErrorKind {
    /// A ceiling of the profile was exceeded.
    LimitExceeded,
    /// A parser panicked, and the engine caught it.
    ConverterPanic,
    Other,
}

/// A refusal of the engine.
#[derive(Debug)]
pub struct ConvertError {
    pub kind: ConvertErrorKind,
    /// The converter that failed, where one was chosen. A metric label.
    pub format: Option<&'static str>,
    /// The engine's code for it. A metric label.
    pub code: &'static str,
    /// The refusal in words.
    pub text: String,
}

impl ConvertError {
    /// The converter that failed, or `none` where none was chosen.
    pub open spec fn converter(self) -> Seq<char> {
        match self.format {
            Some(f) => f@,
            None => "none"@,
        }
    }
}

/// One conversion request.
pub struct Request<'a, G> {
    pub profile: &'a Profile<G>,
    pub bytes: &'a [u8],
    pub info: &'a StreamInfo,
    /// How the bytes were acquired. A metric label, so it is `&'static str`.
    pub mode: &'static str,
    /// Timestamp for a document template. Supplied by the caller rather than
    /// read from a clock, so output stays reproducible.
    pub now: Option<&'a str>,
}

/// What parsing yields.
pub struct Parsed {
    pub document: Document,
    /// Which converter ran.
    pub converter: &'static str,
    /// Which detection signal chose it.
    pub detected_via: &'static str,
}

/// What rendering yields.
pub struct Rendered {
    pub markdown: String,
    pub warnings: Vec<Warning>,
}

/// The URI of what lies in the content store.
pub open spec fn stored_at(info: StreamInfoView) -> Option<Seq<char>> {
    match info.url {
        Some(url) if "mcpg-resource://"@.is_prefix_of(url) => Some(url),
        _ => None,
    }
}

/// The document with a note of where it came from, which is what lets the
/// enrichment pass fetch it back.
pub open spec fn traced(doc: DocumentView, info: StreamInfoView) -> DocumentView {
    match stored_at(info) {
        Some(uri) => DocumentView { metadata: doc.metadata.insert("source_uri"@, uri), ..doc },
        None => doc,
    }
}

/// The original bytes, for the passes that need them.
pub open spec fn origin(bytes: Seq<u8>, info: StreamInfoView) -> SourceView {
    SourceView {
        bytes,
        mime: match info.mimetype {
            Some(mime) => mime,
            None => "application/octet-stream"@,
        },
        uri: stored_at(info),
    }
}

/// What an enrichment pass leaves, where it did anything.
pub open spec fn pass_series(report: EnrichReport) -> Seq<MeasurementView> {
    if report.attempted > 0 || report.cached > 0 {
        obs::enrichment_series(report)
    } else {
        Seq::empty()
    }
}

/// Takes the engine's judgement of the input's size. A refusal is recorded,
/// under no converter, because none was chosen.
pub fn check_size<G>(
    req: &Request<'_, G>,
    size: Result<(), ConvertError>,
    metrics: &mut Measurements,
) -> (r: Result<(), ConvertError>)
    ensures
        r == size,
        size is Ok ==> final(metrics)@ == old(metrics)@,
        size matches Err(e) ==> final(metrics)@ == old(metrics)@ + obs::failure_series(
            "none"@,
            req.mode@,
            e.code@,
        ),
{
    if let Err(e) = &size {
        obs::record_failure(metrics, "none", req.mode, e.code);
    }
    size
}

/// Takes the outcome of parsing, and enriches the document where there is a
/// host to ask. There is none for the transform entity, which holds no host
/// handle and must stay synchronous and cheap.
///
/// The host is asked what enriching that document calls for, and nothing else.
pub fn receive<G, E: Enricher>(
    req: &Request<'_, G>,
    parsed: Result<Parsed, ConvertError>,
    enricher: Option<&mut E>,
    cache: &mut EnrichmentCache,
    metrics: &mut Measurements,
) -> (r: Result<Parsed, ConvertError>)
    ensures
        match parsed {
            Err(e) => {
                &&& r == Err::<Parsed, ConvertError>(e)
                &&& final(cache)@ == old(cache)@
                &&& final(metrics)@ == old(metrics)@ + obs::failure_series(
                    e.converter(),
                    req.mode@,
                    e.code@,
                )
                &&& match enricher {
                    None => true,
                    Some(host) => final(host).exchanges() == host.exchanges(),
                }
            },
            Ok(p) => {
                &&& r is Ok
                &&& r->Ok_0.converter == p.converter
                &&& r->Ok_0.detected_via == p.detected_via
                &&& match enricher {
                    None => {
                        &&& r->Ok_0.document@ == traced(p.document@, req.info@)
                        &&& final(cache)@ == old(cache)@
                        &&& final(metrics)@ == old(metrics)@
                    },
                    Some(host) => {
                        let doc = traced(p.document@, req.info@);
                        let llm = req.profile.config.llm;
                        let source = Some(origin(req.bytes@, req.info@));
                        let log = enrich::since(host.exchanges(), final(host).exchanges());
                        let report = enrich::enriched(doc, llm, old(cache)@, source, log).1.report;
                        &&& host.exchanges().is_prefix_of(final(host).exchanges())
                        &&& enrich::passes(
                            doc,
                            llm,
                            old(cache)@,
                            source,
                            log,
                            (r->Ok_0.document@, final(cache)@, report),
                        )
                        &&& final(metrics)@ == old(metrics)@ + pass_series(report)
                    },
                }
            },
        },
{
    let Parsed { mut document, converter, detected_via } = match parsed {
        Ok(p) => p,
        Err(e) => {
            let format = match e.format {
                Some(f) => f,
                None => "none",
            };
            obs::record_failure(metrics, format, req.mode, e.code);
            return Err(e);
        },
    };
    let uri = match &req.info.url {
        Some(url) => {
            if text::starts_with(url.as_str(), "mcpg-resource://") {
                Some(url.as_str())
            } else {
                None
            }
        },
        None => None,
    };
    if let Some(u) = uri {
        document.metadata.set("source_uri", u);
    }
    if let Some(host) = enricher {
        // The OCR pass needs the original bytes: a scanned PDF that arrived
        // inline has nothing in the content store for a model to read.
        let mime = match &req.info.mimetype {
            Some(m) => m.as_str(),
            None => "application/octet-stream",
        };
        let source = enrich::Source { bytes: req.bytes, mime, uri };
        let report = enrich::enrich(
            &mut document,
            &req.profile.config.llm,
            host,
            cache,
            Some(source),
        );
        if report.ran() || report.cached > 0 {
            obs::record_enrichment(metrics, &report);
        }
        proof {
            reveal(enrich::passes);
        }
        assert(metrics@ =~= old(metrics)@ + pass_series(report));
    }
    Ok(Parsed { document, converter, detected_via })
}

/// What a conversion comes to. Every warning is there: first those of the
/// document, then those of rendering it.
pub open spec fn completed(parsed: Parsed, out: Rendered) -> ConvertedView {
    ConvertedView {
        markdown: out.markdown@,
        title: text::text_of(parsed.document.title),
        format: parsed.converter@,
        detected_via: parsed.detected_via@,
        warnings: document::warnings_of(parsed.document.warnings@) + document::warnings_of(
            out.warnings@,
        ),
    }
}

/// What a completed conversion leaves.
pub open spec fn completion_series(
    parsed: Parsed,
    out: Rendered,
    mode: Seq<char>,
    input_bytes: nat,
    nanoseconds: u64,
) -> Seq<MeasurementView> {
    obs::completion(
        parsed.converter@,
        mode,
        parsed.detected_via@,
        input_bytes as usize,
        vstd::utf8::encode_utf8(out.markdown@).len() as usize,
        nanoseconds,
        completed(parsed, out).warnings,
    )
}

fn report_all(warnings: &Vec<Warning>) -> (r: Vec<WarningOut>)
    ensures
        reported(r@) == document::warnings_of(warnings@),
{
    let mut r: Vec<WarningOut> = Vec::new();
    let mut i: usize = 0;
    let ghost all = document::warnings_of(warnings@);
    assert(reported(r@) =~= all.take(0));
    while i < warnings.len()
        invariant
            i <= warnings@.len(),
            all == document::warnings_of(warnings@),
            reported(r@) == all.take(i as int),
        decreases warnings@.len() - i,
    {
        let out = WarningOut::from(&warnings[i]);
        assert(out@ == all[i as int]);
        r.push(out);
        assert(reported(r@) =~= all.take(i as int).push(out@));
        assert(reported(r@) =~= all.take(i + 1));
        i = i + 1;
    }
    assert(all.take(i as int) =~= all);
    r
}

/// Takes the outcome of rendering, records it, and puts the result together.
pub fn finish<G>(
    req: &Request<'_, G>,
    parsed: Parsed,
    rendered: Result<Rendered, ConvertError>,
    nanoseconds: u64,
    metrics: &mut Measurements,
) -> (r: Result<Converted, ConvertError>)
    ensures
        match rendered {
            Err(e) => {
                &&& r == Err::<Converted, ConvertError>(e)
                &&& final(metrics)@ == old(metrics)@ + obs::failure_series(
                    parsed.converter@,
                    req.mode@,
                    e.code@,
                )
            },
            Ok(out) => {
                &&& r is Ok
                &&& r->Ok_0@ == completed(parsed, out)
                &&& final(metrics)@ == old(metrics)@ + completion_series(
                    parsed,
                    out,
                    req.mode@,
                    req.bytes@.len(),
                    nanoseconds,
                )
            },
        },
{
    let Rendered { markdown, warnings: mut late } = match rendered {
        Ok(out) => out,
        Err(e) => {
            obs::record_failure(metrics, parsed.converter, req.mode, e.code);
            return Err(e);
        },
    };
    let ghost early = document::warnings_of(parsed.document.warnings@);
    let ghost after = document::warnings_of(late@);
    let Parsed { document, converter, detected_via } = parsed;
    let Document { title, warnings: mut warnings, .. } = document;
    warnings.append(&mut late);
    assert(document::warnings_of(warnings@) =~= early + after);
    obs::record_success(
        metrics,
        Success {
            converter,
            mode: req.mode,
            detected_via,
            input_bytes: req.bytes.len(),
            output_bytes: markdown.as_str().len(),
            nanoseconds,
            warnings: &warnings,
        },
    );
    let reports = report_all(&warnings);
    Ok(
        Converted {
            markdown,
            title,
            format: converter.to_owned(),
            detected_via: detected_via.to_owned(),
            warnings: reports,
        },
    )
}

/// What a caller is told of an engine error.
pub open spec fn told_of(e: ConvertError) -> ErrorView {
    match e.kind {
        ConvertErrorKind::LimitExceeded if text::has(e.text@, "timeout_ms"@) => ErrorView::Timeout {
            timeout_ms: 0,
        },
        ConvertErrorKind::ConverterPanic => ErrorView::Transport {
            message: e.text@ + " — this is a defect; please report the input shape"@,
        },
        _ => ErrorView::Transport { message: e.text@ },
    }
}

/// Map an engine error onto the protocol's taxonomy.
///
/// The taxonomy carries no request-versus-defect distinction, so the split
/// lives in the message: a caught parser panic says so explicitly, because it
/// is the one case that is a defect here rather than the caller's input.
#[must_use]
pub fn to_backend_error(e: &ConvertError) -> (r: BackendError)
    ensures
        r@ == told_of(*e),
{
    match e.kind {
        ConvertErrorKind::LimitExceeded => {
            if text::contains(e.text.as_str(), "timeout_ms") {
                BackendError::Timeout { timeout_ms: 0 }
            } else {
                BackendError::Transport { message: e.text.clone() }
            }
        },
        ConvertErrorKind::ConverterPanic => BackendError::Transport {
            message: text::concat2(
                e.text.as_str(),
                " — this is a defect; please report the input shape",
            ),
        },
        ConvertErrorKind::Other => BackendError::Transport { message: e.text.clone() },
    }
}

/// Whether a conversion lost its end.
pub open spec fn cut_short(c: ConvertedView) -> bool {
    exists|i: int| 0 <= i < c.warnings.len() && (#[trigger] c.warnings[i]).kind == "truncated"@
}

/// Whether the caller is told that the result was truncated.
pub fn truncated(converted: &Converted) -> (r: bool)
    ensures
        r == cut_short(converted@),
{
    let mut i: usize = 0;
    while i < converted.warnings.len()
        invariant
            i <= converted.warnings@.len(),
            forall|j: int|
                0 <= j < i ==> (#[trigger] converted@.warnings[j]).kind != "truncated"@,
        decreases converted.warnings@.len() - i,
    {
        assert(converted@.warnings[i as int] == converted.warnings@[i as int]@);
        if text::same(converted.warnings[i].kind.as_str(), "truncated") {
            return true;
        }
        i = i + 1;
    }
    false
}

/// Every warning reaches the caller, and every one is counted by its kind.
pub proof fn every_warning_reaches_the_caller(
    parsed: Parsed,
    out: Rendered,
    mode: Seq<char>,
    input_bytes: nat,
    nanoseconds: u64,
    w: Warning,
)
    requires
        parsed.document.warnings@.contains(w) || out.warnings@.contains(w),
    ensures
        completed(parsed, out).warnings.contains(w@),
        completion_series(parsed, out, mode, input_bytes, nanoseconds).contains(
            obs::counted(
                obs::WARNINGS@,
                1,
                seq![("format"@, parsed.converter@), ("kind"@, w.kind.label())],
            ),
        ),
{
    let early = document::warnings_of(parsed.document.warnings@);
    let late = document::warnings_of(out.warnings@);
    let all = early + late;
    let k = if parsed.document.warnings@.contains(w) {
        let i = choose|i: int|
            0 <= i < parsed.document.warnings@.len() && parsed.document.warnings@[i] == w;
        assert(early[i] == w@);
        i
    } else {
        let i = choose|i: int| 0 <= i < out.warnings@.len() && out.warnings@[i] == w;
        assert(late[i] == w@);
        early.len() + i
    };
    assert(all[k] == w@);
    let series = completion_series(parsed, out, mode, input_bytes, nanoseconds);
    assert(series[4 + k] == obs::warning_series(parsed.converter@, all)[k]);
}

/// A caught panic is told apart from the caller's own mistake: only its text
/// is extended, and every other refusal passes its text on as it is, or is a
/// timeout.
pub proof fn only_a_panic_is_called_a_defect(e: ConvertError)
    ensures
        e.kind == ConvertErrorKind::ConverterPanic <==> told_of(e) == (ErrorView::Transport {
            message: e.text@ + " — this is a defect; please report the input shape"@,
        }),
{
    let suffix = " — this is a defect; please report the input shape"@;
    reveal_strlit(" — this is a defect; please report the input shape");
    assert((e.text@ + suffix).len() != e.text@.len());
}

} // verus!
