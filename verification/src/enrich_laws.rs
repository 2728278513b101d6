//! What holds of every enrichment pass, whatever the host replies.

use vstd::prelude::*;

use crate::config::{AudioEnrichment, LlmOptions, PdfEnrichment};
use crate::document::{
    BlockView, DocumentView, ImageRefView, ImageView, WarningKind, WarningView,
};
use crate::enrich;
use crate::enrich::{EnrichReport, Exchange, Ledger, SourceView};

verus! {

/// Without a binding, or with nothing to enrich, a pass asks nothing and leaves
/// the document as it is; only a missing binding leaves a warning.
pub proof fn nothing_runs_unless_asked_for(
    doc: DocumentView,
    opts: LlmOptions,
    cache: Map<Seq<char>, Seq<char>>,
    source: Option<SourceView>,
    log: Seq<Exchange>,
)
    requires
        opts.binding is None || !opts.enrich.wanted(),
    ensures
        ({
            let (out, l) = enrich::enriched(doc, opts, cache, source, log);
            &&& l == enrich::opened(cache)
            &&& out == DocumentView { warnings: out.warnings, ..doc }
            &&& out.warnings == if opts.enrich.wanted() {
                doc.warnings.push(enrich::unbound())
            } else {
                doc.warnings
            }
        }),
{
}

/// An exhausted call budget leaves a warning.
pub proof fn an_exhausted_budget_is_reported(
    doc: DocumentView,
    opts: LlmOptions,
    cache: Map<Seq<char>, Seq<char>>,
    source: Option<SourceView>,
    log: Seq<Exchange>,
)
    requires
        enrich::enriched(doc, opts, cache, source, log).1.report.skipped_over_budget > 0,
    ensures
        ({
            let (out, l) = enrich::enriched(doc, opts, cache, source, log);
            out.warnings.len() > 0 && out.warnings.last() == enrich::spent(l.report, opts)[0]
        }),
{
}

/// A question that the cache holds the reply to is not asked; and after a
/// success the cache holds it.
pub proof fn a_question_is_asked_once(
    l: Ledger,
    opts: LlmOptions,
    log: Seq<Exchange>,
    prompt: Seq<char>,
    resource: Option<Seq<char>>,
)
    requires
        opts.cache,
        enrich::consulted(l, opts, log, prompt, resource).1 is Some,
    ensures
        ({
            let (l1, told) = enrich::consulted(l, opts, log, prompt, resource);
            let (l2, again) = enrich::consulted(l1, opts, log, prompt, resource);
            &&& again == told
            &&& l2.at == l1.at
            &&& l2.report.attempted == l1.report.attempted
            &&& l2.cache == l1.cache
        }),
{
}

/// How many of the exchanges put a question to the model.
pub open spec fn questions(log: Seq<Exchange>) -> nat
    decreases log.len(),
{
    if log.len() == 0 {
        0
    } else {
        questions(log.drop_last()) + if log.last() is Described {
            1nat
        } else {
            0nat
        }
    }
}

/// Whether an exchange put this question to the model.
spec fn put(x: Exchange, key: Seq<char>) -> bool {
    x matches Exchange::Described { prompt, resource, .. } && enrich::key_of(prompt, resource) == key
}

/// Of the first `at` exchanges, what was answered is in the ledger's cache as
/// it was said, and was not asked again.
spec fn asked_once(l: Ledger, log: Seq<Exchange>) -> bool {
    &&& forall|i: int, key: Seq<char>|
        0 <= i < l.at && #[trigger] put(log[i], key) && log[i].reply() is Ok
            ==> l.cache.contains_key(key) && log[i].reply() == Ok::<Seq<char>, Seq<char>>(
            l.cache[key],
        )
    &&& forall|i: int, j: int, key: Seq<char>|
        0 <= i < j < l.at && #[trigger] put(log[i], key) && #[trigger] put(log[j], key)
            ==> log[i].reply() is Err
}

/// How many of the exchanges brought words of the model.
pub open spec fn answers(log: Seq<Exchange>) -> nat
    decreases log.len(),
{
    if log.len() == 0 {
        0
    } else {
        answers(log.drop_last()) + if log.last() is Described && log.last().reply() is Ok {
            1nat
        } else {
            0nat
        }
    }
}

/// How many of the exchanges failed.
pub open spec fn failures(log: Seq<Exchange>) -> nat
    decreases log.len(),
{
    if log.len() == 0 {
        0
    } else {
        failures(log.drop_last()) + if log.last().reply() is Err {
            1nat
        } else {
            0nat
        }
    }
}

/// What a reader is told of an exchange that failed.
pub open spec fn complaint(x: Exchange) -> WarningView {
    WarningView {
        kind: "enrichment_failed"@,
        message: match x {
            Exchange::Described { resource: Some(uri), reply: Err(e), .. } => "enrichment for "@
                + uri + " failed: "@ + e,
            Exchange::Described { resource: None, reply: Err(e), .. } =>
                "enrichment for the document failed: "@ + e,
            Exchange::Stored { reply: Err(e), .. } => "could not store the PDF for OCR: "@ + e,
            _ => Seq::empty(),
        },
    }
}

/// The report counts what came of the first `at` exchanges, as far as a count
/// goes, and each that failed is told of.
spec fn tallied(l: Ledger, log: Seq<Exchange>) -> bool {
    let n = u32::MAX as nat;
    &&& l.report.succeeded == if answers(log.take(l.at)) < n {
        answers(log.take(l.at))
    } else {
        n
    }
    &&& l.report.failed == if failures(log.take(l.at)) < n {
        failures(log.take(l.at))
    } else {
        n
    }
    &&& forall|i: int|
        0 <= i < l.at && (#[trigger] log[i]).reply() is Err ==> l.warnings.contains(
            complaint(log[i]),
        )
}

/// A ledger that is within the budget, counts every question once, and asks
/// none again that was answered.
spec fn in_order(l: Ledger, opts: LlmOptions, log: Seq<Exchange>) -> bool {
    &&& l.report.attempted <= opts.max_calls_per_document
    &&& l.sound ==> 0 <= l.at <= log.len() && questions(log.take(l.at)) == l.report.attempted
    &&& l.sound && opts.cache ==> asked_once(l, log)
    &&& l.sound ==> tallied(l, log)
    &&& l.report.skipped_over_budget > 0 ==> l.report.attempted == opts.max_calls_per_document
}

proof fn lemma_one_more(log: Seq<Exchange>, at: int)
    requires
        0 <= at < log.len(),
    ensures
        questions(log.take(at + 1)) == questions(log.take(at)) + if log[at] is Described {
            1nat
        } else {
            0nat
        },
        answers(log.take(at + 1)) == answers(log.take(at)) + if log[at] is Described
            && log[at].reply() is Ok {
            1nat
        } else {
            0nat
        },
        failures(log.take(at + 1)) == failures(log.take(at)) + if log[at].reply() is Err {
            1nat
        } else {
            0nat
        },
{
    assert(log.take(at + 1).drop_last() =~= log.take(at));
    assert(log.take(at + 1).last() == log[at]);
}

proof fn lemma_consulted_in_order(
    l: Ledger,
    opts: LlmOptions,
    log: Seq<Exchange>,
    prompt: Seq<char>,
    resource: Option<Seq<char>>,
)
    requires
        in_order(l, opts, log),
        l.report.attempted < opts.max_calls_per_document,
    ensures
        in_order(enrich::consulted(l, opts, log, prompt, resource).0, opts, log),
{
    let l1 = enrich::consulted(l, opts, log, prompt, resource).0;
    if l1.sound && 0 <= l.at < log.len() {
        lemma_one_more(log, l.at);
        if l1.at == l.at + 1 {
            lemma_still_noted(l, l1, log);
        }
    }
}

/// A warning more takes none away, and a failure is told of at once.
proof fn lemma_still_noted(l: Ledger, l1: Ledger, log: Seq<Exchange>)
    requires
        tallied(l, log),
        l1.at == l.at + 1 || l1.at == l.at,
        l1.warnings == l.warnings || l1.warnings == l.warnings.push(l1.warnings.last())
            && l1.warnings.len() > 0,
        l1.at == l.at + 1 && log[l.at].reply() is Err ==> l1.warnings.len() == l.warnings.len() + 1
            && match log[l.at] {
            Exchange::Described { resource, reply, .. } => l1.warnings.last()
                == enrich::failure_warning(resource, reply->Err_0),
            Exchange::Stored { reply, .. } => l1.warnings.last() == WarningView {
                kind: WarningKind::EnrichmentFailed.label(),
                message: "could not store the PDF for OCR: "@ + reply->Err_0,
            },
        },
    ensures
        forall|i: int|
            0 <= i < l1.at && (#[trigger] log[i]).reply() is Err ==> l1.warnings.contains(
                complaint(log[i]),
            ),
{
    reveal_strlit("enrichment for ");
    reveal_strlit("the document");
    reveal_strlit(" failed: ");
    reveal_strlit("enrichment for the document failed: ");
    assert("enrichment for "@ + "the document"@ + " failed: "@
        =~= "enrichment for the document failed: "@);
    assert forall|i: int|
        0 <= i < l1.at && (#[trigger] log[i]).reply() is Err implies l1.warnings.contains(
        complaint(log[i]),
    ) by {
        if i < l.at {
            let k = choose|k: int|
                0 <= k < l.warnings.len() && l.warnings[k] == complaint(log[i]);
            assert(l1.warnings[k] == l.warnings[k]);
        } else {
            assert(l1.warnings[l1.warnings.len() - 1] == complaint(log[i]));
        }
    }
}

proof fn lemma_image_in_order(image: ImageView, l: Ledger, opts: LlmOptions, log: Seq<Exchange>)
    requires
        in_order(l, opts, log),
    ensures
        in_order(enrich::image_enriched(image, l, opts, log).1, opts, log),
{
    if let ImageRefView::Resource(uri) = image.source {
        if image.caption is None && l.report.attempted < opts.max_calls_per_document {
            let prompt = enrich::prompt_or(opts.image_prompt, enrich::DEFAULT_IMAGE_PROMPT);
            let l1 = if opts.enrich.images.captions() {
                lemma_consulted_in_order(l, opts, log, prompt, Some(uri));
                enrich::consulted(l, opts, log, prompt, Some(uri)).0
            } else {
                l
            };
            if l1.report.attempted < opts.max_calls_per_document {
                lemma_consulted_in_order(l1, opts, log, enrich::DEFAULT_OCR_PROMPT@, Some(uri));
            }
        }
    }
}

proof fn lemma_block_in_order(block: BlockView, l: Ledger, opts: LlmOptions, log: Seq<Exchange>)
    requires
        in_order(l, opts, log),
    ensures
        in_order(enrich::block_enriched(block, l, opts, log).1, opts, log),
    decreases block,
{
    match block {
        BlockView::Image(image) => {
            lemma_image_in_order(image, l, opts, log);
        },
        BlockView::Quote(inner) => {
            lemma_blocks_in_order(inner, l, opts, log);
        },
        BlockView::List { ordered, items } => {
            lemma_items_in_order(items, l, opts, log);
        },
        BlockView::Embedded { name, doc } => {
            lemma_blocks_in_order(doc.blocks, l, opts, log);
        },
        _ => {},
    }
}

proof fn lemma_blocks_in_order(
    blocks: Seq<BlockView>,
    l: Ledger,
    opts: LlmOptions,
    log: Seq<Exchange>,
)
    requires
        in_order(l, opts, log),
    ensures
        in_order(enrich::blocks_enriched(blocks, l, opts, log).1, opts, log),
    decreases blocks,
{
    if blocks.len() > 0 {
        lemma_blocks_in_order(blocks.drop_last(), l, opts, log);
        let l1 = enrich::blocks_enriched(blocks.drop_last(), l, opts, log).1;
        lemma_block_in_order(blocks.last(), l1, opts, log);
    }
}

proof fn lemma_items_in_order(
    items: Seq<Seq<BlockView>>,
    l: Ledger,
    opts: LlmOptions,
    log: Seq<Exchange>,
)
    requires
        in_order(l, opts, log),
    ensures
        in_order(enrich::items_enriched(items, l, opts, log).1, opts, log),
    decreases items,
{
    if items.len() > 0 {
        lemma_items_in_order(items.drop_last(), l, opts, log);
        let l1 = enrich::items_enriched(items.drop_last(), l, opts, log).1;
        lemma_blocks_in_order(items.last(), l1, opts, log);
    }
}

proof fn lemma_audio_in_order(doc: DocumentView, l: Ledger, opts: LlmOptions, log: Seq<Exchange>)
    requires
        in_order(l, opts, log),
    ensures
        in_order(enrich::audio_enriched(doc, l, opts, log).1, opts, log),
{
    if let Some(uri) = enrich::audio_uri(doc.metadata) {
        if l.report.attempted < opts.max_calls_per_document {
            lemma_consulted_in_order(
                l,
                opts,
                log,
                enrich::prompt_or(opts.audio_prompt, enrich::DEFAULT_AUDIO_PROMPT),
                Some(uri),
            );
        }
    }
}

proof fn lemma_pdf_in_order(
    doc: DocumentView,
    l: Ledger,
    opts: LlmOptions,
    log: Seq<Exchange>,
    source: SourceView,
)
    requires
        in_order(l, opts, log),
    ensures
        in_order(enrich::pdf_enriched(doc, l, opts, log, source).1, opts, log),
{
    if enrich::scanned_pages(doc.metadata) is Some && l.report.attempted
        < opts.max_calls_per_document {
        let (l1, uri) = enrich::deposited(l, log, source);
        if l1.sound && source.uri is None {
            lemma_one_more(log, l.at);
            lemma_still_noted(l, l1, log);
        }
        assert(in_order(l1, opts, log));
        if uri is Some {
            lemma_consulted_in_order(
                l1,
                opts,
                log,
                enrich::prompt_or(opts.pdf_prompt, enrich::DEFAULT_PDF_OCR_PROMPT),
                uri,
            );
            let l2 = enrich::consulted(
                l1,
                opts,
                log,
                enrich::prompt_or(opts.pdf_prompt, enrich::DEFAULT_PDF_OCR_PROMPT),
                uri,
            ).0;
            let l3 = enrich::pdf_enriched(doc, l, opts, log, source).1;
            if l3.sound {
                lemma_still_noted(l2, l3, log);
            }
        }
    }
}

/// A pass puts no more questions to the model than the profile allows for one
/// document, and the report counts each of them.
pub proof fn the_budget_is_kept(
    doc: DocumentView,
    opts: LlmOptions,
    cache: Map<Seq<char>, Seq<char>>,
    source: Option<SourceView>,
    log: Seq<Exchange>,
)
    requires
        enrich::enriched(doc, opts, cache, source, log).1.sound,
        enrich::enriched(doc, opts, cache, source, log).1.at == log.len(),
    ensures
        ({
            let report = enrich::enriched(doc, opts, cache, source, log).1.report;
            &&& report.attempted <= opts.max_calls_per_document
            &&& questions(log) == report.attempted
        }),
{
    lemma_pass_in_order(doc, opts, cache, source, log);
    assert(log.take(log.len() as int) =~= log);
}

proof fn lemma_pass_in_order(
    doc: DocumentView,
    opts: LlmOptions,
    cache: Map<Seq<char>, Seq<char>>,
    source: Option<SourceView>,
    log: Seq<Exchange>,
)
    ensures
        in_order(enrich::enriched(doc, opts, cache, source, log).1, opts, log),
{
    let l0 = enrich::opened(cache);
    assert(log.take(0) =~= Seq::empty());
    assert(in_order(l0, opts, log));
    lemma_blocks_in_order(doc.blocks, l0, opts, log);
    if opts.binding is Some && opts.enrich.wanted() {
        let images = opts.enrich.images.captions() || opts.enrich.images.reads();
        let (blocks, lb) = enrich::blocks_enriched(doc.blocks, l0, opts, log);
        let (doc1, l1) = if images {
            (DocumentView { blocks, ..doc }, lb)
        } else {
            (doc, l0)
        };
        lemma_audio_in_order(doc1, l1, opts, log);
        let (doc2, l2) = if opts.enrich.audio == AudioEnrichment::Transcribe {
            enrich::audio_enriched(doc1, l1, opts, log)
        } else {
            (doc1, l1)
        };
        if source is Some {
            lemma_pdf_in_order(doc2, l2, opts, log, source->0);
        }
    }
}

/// The report counts what came of the exchanges: every question, every reply
/// and every failure, as far as a count goes; and whatever failed, the reader
/// is told what it was about and why it failed. A question is left out only
/// where every call that the profile allows was made.
pub proof fn the_report_counts_what_came_of_the_exchanges(
    doc: DocumentView,
    opts: LlmOptions,
    cache: Map<Seq<char>, Seq<char>>,
    source: Option<SourceView>,
    log: Seq<Exchange>,
    made: (DocumentView, Map<Seq<char>, Seq<char>>, EnrichReport),
)
    requires
        enrich::passes(doc, opts, cache, source, log, made),
    ensures
        made.2.attempted == questions(log),
        answers(log) < u32::MAX ==> made.2.succeeded == answers(log),
        failures(log) < u32::MAX ==> made.2.failed == failures(log),
        made.2.skipped_over_budget > 0 ==> made.2.attempted == opts.max_calls_per_document,
        forall|i: int|
            0 <= i < log.len() && (#[trigger] log[i]).reply() is Err ==> made.0.warnings.contains(
                complaint(log[i]),
            ),
{
    reveal(enrich::passes);
    lemma_pass_in_order(doc, opts, cache, source, log);
    let l = enrich::enriched(doc, opts, cache, source, log).1;
    assert(log.take(log.len() as int) =~= log);
    assert forall|i: int|
        0 <= i < log.len() && (#[trigger] log[i]).reply() is Err implies made.0.warnings.contains(
        complaint(log[i]),
    ) by {
        assert(l.warnings.contains(complaint(log[i])));
        let k = choose|k: int| 0 <= k < l.warnings.len() && l.warnings[k] == complaint(log[i]);
        let tail = enrich::spent(l.report, opts);
        let n = made.0.warnings.len() - tail.len() - l.warnings.len();
        assert(made.0.warnings[n + k] == l.warnings[k]);
    }
}

/// With caching on, what the model said to a question is kept under the key of
/// that question, as it was said.
pub proof fn what_was_said_is_kept(
    doc: DocumentView,
    opts: LlmOptions,
    cache: Map<Seq<char>, Seq<char>>,
    source: Option<SourceView>,
    log: Seq<Exchange>,
    made: (DocumentView, Map<Seq<char>, Seq<char>>, EnrichReport),
    i: int,
)
    requires
        opts.cache,
        enrich::passes(doc, opts, cache, source, log, made),
        0 <= i < log.len(),
        log[i] is Described,
        log[i].reply() is Ok,
    ensures
        ({
            let key = enrich::key_of(log[i]->prompt, log[i]->resource);
            made.1.contains_key(key) && log[i].reply() == Ok::<Seq<char>, Seq<char>>(made.1[key])
        }),
{
    reveal(enrich::passes);
    lemma_pass_in_order(doc, opts, cache, source, log);
    assert(put(log[i], enrich::key_of(log[i]->prompt, log[i]->resource)));
}

/// With caching on, a pass asks no question again that was answered: of two
/// exchanges that put the same one, the earlier failed.
pub proof fn no_answered_question_is_asked_again(
    doc: DocumentView,
    opts: LlmOptions,
    cache: Map<Seq<char>, Seq<char>>,
    source: Option<SourceView>,
    log: Seq<Exchange>,
    made: (DocumentView, Map<Seq<char>, Seq<char>>, EnrichReport),
    i: int,
    j: int,
)
    requires
        opts.cache,
        enrich::passes(doc, opts, cache, source, log, made),
        0 <= i < j < log.len(),
        log[i] is Described,
        log[j] is Described,
        log[i]->prompt == log[j]->prompt,
        log[i]->resource == log[j]->resource,
    ensures
        log[i].reply() is Err,
{
    reveal(enrich::passes);
    lemma_pass_in_order(doc, opts, cache, source, log);
    let key = enrich::key_of(log[i]->prompt, log[i]->resource);
    assert(put(log[i], key) && put(log[j], key));
}

/// `b` is `a` but for captions that `a` lacked on stored images.
pub open spec fn gains_captions(a: BlockView, b: BlockView) -> bool
    decreases a,
{
    match a {
        BlockView::Image(x) => {
            ||| b == a
            ||| b is Image && x.caption is None && x.source is Resource && b->Image_0
                == (ImageView { caption: b->Image_0.caption, ..x })
        },
        BlockView::Quote(p) => b is Quote && all_gain_captions(p, b->Quote_0),
        BlockView::List { ordered, items } => {
            &&& b is List
            &&& b->List_ordered == ordered
            &&& b->List_items.len() == items.len()
            &&& forall|i: int|
                #![trigger items[i]]
                0 <= i < items.len() ==> all_gain_captions(items[i], b->List_items[i])
        },
        BlockView::Embedded { name, doc } => {
            &&& b is Embedded
            &&& b->Embedded_name == name
            &&& *b->doc == (DocumentView { blocks: b->doc.blocks, ..*doc })
            &&& all_gain_captions(doc.blocks, b->doc.blocks)
        },
        _ => b == a,
    }
}

/// The same, block by block.
pub open spec fn all_gain_captions(a: Seq<BlockView>, b: Seq<BlockView>) -> bool
    decreases a,
{
    &&& b.len() == a.len()
    &&& forall|i: int| #![trigger a[i]] 0 <= i < a.len() ==> gains_captions(a[i], b[i])
}

proof fn lemma_block_gains(block: BlockView, l: Ledger, opts: LlmOptions, log: Seq<Exchange>)
    ensures
        gains_captions(block, enrich::block_enriched(block, l, opts, log).0),
    decreases block,
{
    match block {
        BlockView::Quote(inner) => {
            lemma_blocks_gain(inner, l, opts, log);
        },
        BlockView::List { ordered, items } => {
            lemma_items_gain(items, l, opts, log);
        },
        BlockView::Embedded { name, doc } => {
            lemma_blocks_gain(doc.blocks, l, opts, log);
        },
        _ => {},
    }
}

proof fn lemma_blocks_gain(
    blocks: Seq<BlockView>,
    l: Ledger,
    opts: LlmOptions,
    log: Seq<Exchange>,
)
    ensures
        all_gain_captions(blocks, enrich::blocks_enriched(blocks, l, opts, log).0),
    decreases blocks,
{
    if blocks.len() > 0 {
        let (before, l1) = enrich::blocks_enriched(blocks.drop_last(), l, opts, log);
        lemma_blocks_gain(blocks.drop_last(), l, opts, log);
        lemma_block_gains(blocks.last(), l1, opts, log);
        let out = enrich::blocks_enriched(blocks, l, opts, log).0;
        assert forall|i: int| #![trigger blocks[i]] 0 <= i < blocks.len() implies gains_captions(
            blocks[i],
            out[i],
        ) by {
            if i < blocks.len() - 1 {
                assert(blocks.drop_last()[i] == blocks[i]);
            }
        }
    }
}

proof fn lemma_items_gain(
    items: Seq<Seq<BlockView>>,
    l: Ledger,
    opts: LlmOptions,
    log: Seq<Exchange>,
)
    ensures
        ({
            let out = enrich::items_enriched(items, l, opts, log).0;
            &&& out.len() == items.len()
            &&& forall|i: int|
                #![trigger items[i]]
                0 <= i < items.len() ==> all_gain_captions(items[i], out[i])
        }),
    decreases items,
{
    if items.len() > 0 {
        let (before, l1) = enrich::items_enriched(items.drop_last(), l, opts, log);
        lemma_items_gain(items.drop_last(), l, opts, log);
        lemma_blocks_gain(items.last(), l1, opts, log);
        let out = enrich::items_enriched(items, l, opts, log).0;
        assert forall|i: int| #![trigger items[i]] 0 <= i < items.len() implies all_gain_captions(
            items[i],
            out[i],
        ) by {
            if i < items.len() - 1 {
                assert(items.drop_last()[i] == items[i]);
            }
        }
    }
}

proof fn lemma_placeholder(blocks: Seq<BlockView>, from: int)
    requires
        0 <= from,
    ensures
        enrich::placeholder_from(blocks, from) matches Some(i) ==> from <= i < blocks.len()
            && blocks[i] == BlockView::Paragraph(enrich::PLACEHOLDER@),
    decreases blocks.len() - from,
{
    if from < blocks.len() && blocks[from] != BlockView::Paragraph(enrich::PLACEHOLDER@) {
        lemma_placeholder(blocks, from + 1);
    }
}

/// Enrichment only adds. The title, the metadata and the warnings stay; each
/// block stays, but for captions that stored images lacked and for a paragraph
/// that stood in for a transcript; whatever else is new comes after them.
pub proof fn enrichment_only_adds(
    doc: DocumentView,
    opts: LlmOptions,
    cache: Map<Seq<char>, Seq<char>>,
    source: Option<SourceView>,
    log: Seq<Exchange>,
)
    ensures
        ({
            let out = enrich::enriched(doc, opts, cache, source, log).0;
            &&& out.title == doc.title
            &&& out.metadata == doc.metadata
            &&& doc.warnings.is_prefix_of(out.warnings)
            &&& doc.blocks.len() <= out.blocks.len()
            &&& forall|i: int|
                #![trigger doc.blocks[i]]
                0 <= i < doc.blocks.len() ==> {
                    ||| gains_captions(doc.blocks[i], out.blocks[i])
                    ||| doc.blocks[i] == BlockView::Paragraph(enrich::PLACEHOLDER@)
                        && out.blocks[i] is Paragraph
                }
        }),
{
    let out = enrich::enriched(doc, opts, cache, source, log).0;
    let l0 = enrich::opened(cache);
    lemma_unchanged(doc.blocks);
    if opts.binding is Some && opts.enrich.wanted() {
        let images = opts.enrich.images.captions() || opts.enrich.images.reads();
        lemma_blocks_gain(doc.blocks, l0, opts, log);
        let (blocks, lb) = enrich::blocks_enriched(doc.blocks, l0, opts, log);
        let (doc1, l1) = if images {
            (DocumentView { blocks, ..doc }, lb)
        } else {
            (doc, l0)
        };
        assert(all_gain_captions(doc.blocks, doc1.blocks));
        lemma_placeholder(doc1.blocks, 0);
        let (doc2, l2) = if opts.enrich.audio == AudioEnrichment::Transcribe {
            enrich::audio_enriched(doc1, l1, opts, log)
        } else {
            (doc1, l1)
        };
        assert forall|i: int| #![trigger doc.blocks[i]] 0 <= i < doc.blocks.len() implies {
            ||| gains_captions(doc.blocks[i], out.blocks[i])
            ||| doc.blocks[i] == BlockView::Paragraph(enrich::PLACEHOLDER@)
                && out.blocks[i] is Paragraph
        } by {
            assert(gains_captions(doc.blocks[i], doc1.blocks[i]));
            assert(out.blocks[i] == doc2.blocks[i]);
            if doc2.blocks[i] != doc1.blocks[i] {
                assert(doc1.blocks[i] == BlockView::Paragraph(enrich::PLACEHOLDER@));
                assert(doc.blocks[i] == doc1.blocks[i]);
            }
        }
    }
}

proof fn lemma_same(block: BlockView)
    ensures
        gains_captions(block, block),
    decreases block,
{
    match block {
        BlockView::Quote(inner) => {
            lemma_unchanged(inner);
        },
        BlockView::List { ordered, items } => {
            assert forall|i: int|
                #![trigger items[i]]
                0 <= i < items.len() implies all_gain_captions(items[i], items[i]) by {
                lemma_unchanged(items[i]);
            }
        },
        BlockView::Embedded { name, doc } => {
            lemma_unchanged(doc.blocks);
        },
        _ => {},
    }
}

proof fn lemma_unchanged(blocks: Seq<BlockView>)
    ensures
        all_gain_captions(blocks, blocks),
    decreases blocks,
{
    assert forall|i: int| #![trigger blocks[i]] 0 <= i < blocks.len() implies gains_captions(
        blocks[i],
        blocks[i],
    ) by {
        lemma_same(blocks[i]);
    }
}

proof fn lemma_block_was_sound(block: BlockView, l: Ledger, opts: LlmOptions, log: Seq<Exchange>)
    requires
        enrich::block_enriched(block, l, opts, log).1.sound,
    ensures
        l.sound,
    decreases block,
{
    match block {
        BlockView::Quote(inner) => {
            lemma_blocks_were_sound(inner, l, opts, log);
        },
        BlockView::List { ordered, items } => {
            lemma_items_were_sound(items, l, opts, log);
        },
        BlockView::Embedded { name, doc } => {
            lemma_blocks_were_sound(doc.blocks, l, opts, log);
        },
        _ => {},
    }
}

proof fn lemma_blocks_were_sound(
    blocks: Seq<BlockView>,
    l: Ledger,
    opts: LlmOptions,
    log: Seq<Exchange>,
)
    requires
        enrich::blocks_enriched(blocks, l, opts, log).1.sound,
    ensures
        l.sound,
    decreases blocks,
{
    if blocks.len() > 0 {
        let l1 = enrich::blocks_enriched(blocks.drop_last(), l, opts, log).1;
        lemma_block_was_sound(blocks.last(), l1, opts, log);
        lemma_blocks_were_sound(blocks.drop_last(), l, opts, log);
    }
}

proof fn lemma_items_were_sound(
    items: Seq<Seq<BlockView>>,
    l: Ledger,
    opts: LlmOptions,
    log: Seq<Exchange>,
)
    requires
        enrich::items_enriched(items, l, opts, log).1.sound,
    ensures
        l.sound,
    decreases items,
{
    if items.len() > 0 {
        let l1 = enrich::items_enriched(items.drop_last(), l, opts, log).1;
        lemma_blocks_were_sound(items.last(), l1, opts, log);
        lemma_items_were_sound(items.drop_last(), l, opts, log);
    }
}

/// Every reply is a failure.
pub open spec fn host_is_down(log: Seq<Exchange>) -> bool {
    forall|i: int| 0 <= i < log.len() ==> (#[trigger] log[i]).reply() is Err
}

/// Every warning says that an enrichment failed.
pub open spec fn only_failures(warnings: Seq<WarningView>) -> bool {
    forall|i: int|
        0 <= i < warnings.len() ==> (#[trigger] warnings[i]).kind
            == WarningKind::EnrichmentFailed.label()
}

/// A ledger that knows no reply.
spec fn ignorant(l: Ledger, opts: LlmOptions) -> bool {
    &&& opts.cache ==> l.cache == Map::<Seq<char>, Seq<char>>::empty()
    &&& only_failures(l.warnings)
}

proof fn lemma_image_unharmed(image: ImageView, l: Ledger, opts: LlmOptions, log: Seq<Exchange>)
    requires
        host_is_down(log),
        ignorant(l, opts),
        enrich::image_enriched(image, l, opts, log).1.sound,
    ensures
        l.sound,
        enrich::image_enriched(image, l, opts, log).0 == image,
        ignorant(enrich::image_enriched(image, l, opts, log).1, opts),
{
}

proof fn lemma_block_unharmed(block: BlockView, l: Ledger, opts: LlmOptions, log: Seq<Exchange>)
    requires
        host_is_down(log),
        ignorant(l, opts),
        enrich::block_enriched(block, l, opts, log).1.sound,
    ensures
        l.sound,
        enrich::block_enriched(block, l, opts, log).0 == block,
        ignorant(enrich::block_enriched(block, l, opts, log).1, opts),
    decreases block,
{
    match block {
        BlockView::Image(image) => {
            lemma_image_unharmed(image, l, opts, log);
        },
        BlockView::Quote(inner) => {
            lemma_blocks_unharmed(inner, l, opts, log);
        },
        BlockView::List { ordered, items } => {
            lemma_items_unharmed(items, l, opts, log);
        },
        BlockView::Embedded { name, doc } => {
            lemma_blocks_unharmed(doc.blocks, l, opts, log);
        },
        _ => {},
    }
}

proof fn lemma_blocks_unharmed(
    blocks: Seq<BlockView>,
    l: Ledger,
    opts: LlmOptions,
    log: Seq<Exchange>,
)
    requires
        host_is_down(log),
        ignorant(l, opts),
        enrich::blocks_enriched(blocks, l, opts, log).1.sound,
    ensures
        l.sound,
        enrich::blocks_enriched(blocks, l, opts, log).0 == blocks,
        ignorant(enrich::blocks_enriched(blocks, l, opts, log).1, opts),
    decreases blocks,
{
    if blocks.len() > 0 {
        let (before, l1) = enrich::blocks_enriched(blocks.drop_last(), l, opts, log);
        lemma_block_was_sound(blocks.last(), l1, opts, log);
        lemma_blocks_unharmed(blocks.drop_last(), l, opts, log);
        lemma_block_unharmed(blocks.last(), l1, opts, log);
        assert(blocks =~= blocks.drop_last().push(blocks.last()));
    }
}

proof fn lemma_items_unharmed(
    items: Seq<Seq<BlockView>>,
    l: Ledger,
    opts: LlmOptions,
    log: Seq<Exchange>,
)
    requires
        host_is_down(log),
        ignorant(l, opts),
        enrich::items_enriched(items, l, opts, log).1.sound,
    ensures
        l.sound,
        enrich::items_enriched(items, l, opts, log).0 == items,
        ignorant(enrich::items_enriched(items, l, opts, log).1, opts),
    decreases items,
{
    if items.len() > 0 {
        let (before, l1) = enrich::items_enriched(items.drop_last(), l, opts, log);
        lemma_blocks_were_sound(items.last(), l1, opts, log);
        lemma_items_unharmed(items.drop_last(), l, opts, log);
        lemma_blocks_unharmed(items.last(), l1, opts, log);
        assert(items =~= items.drop_last().push(items.last()));
    }
}

/// Neither a reply nor a success more than before.
spec fn none_the_wiser(l: Ledger, l1: Ledger) -> bool {
    &&& l.sound
    &&& l1.cache == l.cache
    &&& l1.report.succeeded == l.report.succeeded
}

proof fn lemma_block_learns_nothing(
    block: BlockView,
    l: Ledger,
    opts: LlmOptions,
    log: Seq<Exchange>,
)
    requires
        host_is_down(log),
        enrich::block_enriched(block, l, opts, log).1.sound,
    ensures
        none_the_wiser(l, enrich::block_enriched(block, l, opts, log).1),
    decreases block,
{
    match block {
        BlockView::Quote(inner) => {
            lemma_blocks_learn_nothing(inner, l, opts, log);
        },
        BlockView::List { ordered, items } => {
            lemma_items_learn_nothing(items, l, opts, log);
        },
        BlockView::Embedded { name, doc } => {
            lemma_blocks_learn_nothing(doc.blocks, l, opts, log);
        },
        _ => {},
    }
}

proof fn lemma_blocks_learn_nothing(
    blocks: Seq<BlockView>,
    l: Ledger,
    opts: LlmOptions,
    log: Seq<Exchange>,
)
    requires
        host_is_down(log),
        enrich::blocks_enriched(blocks, l, opts, log).1.sound,
    ensures
        none_the_wiser(l, enrich::blocks_enriched(blocks, l, opts, log).1),
    decreases blocks,
{
    if blocks.len() > 0 {
        let (before, l1) = enrich::blocks_enriched(blocks.drop_last(), l, opts, log);
        lemma_block_learns_nothing(blocks.last(), l1, opts, log);
        lemma_blocks_learn_nothing(blocks.drop_last(), l, opts, log);
    }
}

proof fn lemma_items_learn_nothing(
    items: Seq<Seq<BlockView>>,
    l: Ledger,
    opts: LlmOptions,
    log: Seq<Exchange>,
)
    requires
        host_is_down(log),
        enrich::items_enriched(items, l, opts, log).1.sound,
    ensures
        none_the_wiser(l, enrich::items_enriched(items, l, opts, log).1),
    decreases items,
{
    if items.len() > 0 {
        let (before, l1) = enrich::items_enriched(items.drop_last(), l, opts, log);
        lemma_blocks_learn_nothing(items.last(), l1, opts, log);
        lemma_items_learn_nothing(items.drop_last(), l, opts, log);
    }
}

/// Where every dispatch fails, no failure is cached and no reply is lost:
/// whatever the cache held, it is kept as it was.
pub proof fn a_failing_host_leaves_the_cache(
    doc: DocumentView,
    opts: LlmOptions,
    cache: Map<Seq<char>, Seq<char>>,
    source: Option<SourceView>,
    log: Seq<Exchange>,
)
    requires
        host_is_down(log),
        enrich::enriched(doc, opts, cache, source, log).1.sound,
    ensures
        enrich::enriched(doc, opts, cache, source, log).1.cache == cache,
        enrich::enriched(doc, opts, cache, source, log).1.report.succeeded == 0,
{
    let l0 = enrich::opened(cache);
    if opts.binding is Some && opts.enrich.wanted() {
        let images = opts.enrich.images.captions() || opts.enrich.images.reads();
        let (blocks, lb) = enrich::blocks_enriched(doc.blocks, l0, opts, log);
        let (doc1, l1) = if images {
            (DocumentView { blocks, ..doc }, lb)
        } else {
            (doc, l0)
        };
        let (doc2, l2) = if opts.enrich.audio == AudioEnrichment::Transcribe {
            enrich::audio_enriched(doc1, l1, opts, log)
        } else {
            (doc1, l1)
        };
        assert(none_the_wiser(l2, enrich::enriched(doc, opts, cache, source, log).1));
        assert(none_the_wiser(l1, l2));
        if images {
            lemma_blocks_learn_nothing(doc.blocks, l0, opts, log);
        }
    }
}

/// Where every dispatch fails and no reply is cached, the document comes back
/// as the converter produced it, plus warnings that enrichment failed.
pub proof fn a_failing_host_leaves_the_document(
    doc: DocumentView,
    opts: LlmOptions,
    cache: Map<Seq<char>, Seq<char>>,
    source: Option<SourceView>,
    log: Seq<Exchange>,
)
    requires
        host_is_down(log),
        opts.cache ==> cache == Map::<Seq<char>, Seq<char>>::empty(),
        enrich::enriched(doc, opts, cache, source, log).1.sound,
    ensures
        ({
            let out = enrich::enriched(doc, opts, cache, source, log).0;
            &&& out == DocumentView { warnings: out.warnings, ..doc }
            &&& doc.warnings.is_prefix_of(out.warnings)
            &&& only_failures(out.warnings.skip(doc.warnings.len() as int))
        }),
{
    let l0 = enrich::opened(cache);
    if opts.binding is Some && opts.enrich.wanted() {
        let images = opts.enrich.images.captions() || opts.enrich.images.reads();
        let (blocks, lb) = enrich::blocks_enriched(doc.blocks, l0, opts, log);
        let (doc1, l1) = if images {
            (DocumentView { blocks, ..doc }, lb)
        } else {
            (doc, l0)
        };
        let (doc2, l2) = if opts.enrich.audio == AudioEnrichment::Transcribe {
            enrich::audio_enriched(doc1, l1, opts, log)
        } else {
            (doc1, l1)
        };
        assert(l2.sound);
        assert(l1.sound);
        if images {
            lemma_blocks_unharmed(doc.blocks, l0, opts, log);
        }
        assert(doc1 == doc && ignorant(l1, opts));
        assert(doc2 == doc && ignorant(l2, opts));
        if opts.enrich.pdf == PdfEnrichment::Ocr && source is Some {
            let (doc3, l3) = enrich::pdf_enriched(doc2, l2, opts, log, source->0);
            assert(doc3 == doc && ignorant(l3, opts));
        }
        let (out, l) = enrich::enriched(doc, opts, cache, source, log);
        let added = l.warnings + enrich::spent(l.report, opts);
        assert(out.warnings =~= doc.warnings + added);
        assert(out.warnings.skip(doc.warnings.len() as int) =~= added);
    }
}

/// Every exchange between two ledgers is a wanted one.
spec fn between(
    l: Ledger,
    l1: Ledger,
    log: Seq<Exchange>,
    wanted: spec_fn(Exchange) -> bool,
) -> bool {
    &&& l.sound
    &&& l.at <= l1.at
    &&& forall|j: int| l.at <= j < l1.at ==> #[trigger] wanted(log[j])
}

/// The ledger holds at least the replies of a cache, where caching is on.
spec fn holds(l: Ledger, opts: LlmOptions, cache: Map<Seq<char>, Seq<char>>) -> bool {
    opts.cache ==> forall|k: Seq<char>| #[trigger]
        cache.contains_key(k) ==> l.cache.contains_key(k)
}

/// A question that the profile has asked of an image, and that a cache holds
/// no reply to.
spec fn open_for(
    x: Exchange,
    opts: LlmOptions,
    cache: Map<Seq<char>, Seq<char>>,
    uri: Seq<char>,
) -> bool {
    &&& x matches Exchange::Described { prompt, resource, .. }
    &&& resource == Some(uri)
    &&& opts.max_calls_per_document > 0
    &&& enrich::asked_of_images(opts, prompt)
    &&& !enrich::known(opts, cache, prompt, resource)
}

proof fn lemma_image_shows(
    image: ImageView,
    l: Ledger,
    opts: LlmOptions,
    log: Seq<Exchange>,
    cache: Map<Seq<char>, Seq<char>>,
    wanted: spec_fn(Exchange) -> bool,
)
    requires
        enrich::image_enriched(image, l, opts, log).1.sound,
        holds(l, opts, cache),
        forall|x: Exchange, uri: Seq<char>|
            #![trigger wanted(x), enrich::awaits(BlockView::Image(image), uri)]
            enrich::awaits(BlockView::Image(image), uri) && open_for(x, opts, cache, uri)
                ==> wanted(x),
    ensures
        between(l, enrich::image_enriched(image, l, opts, log).1, log, wanted),
        holds(enrich::image_enriched(image, l, opts, log).1, opts, cache),
{
    if let ImageRefView::Resource(uri) = image.source {
        if image.caption is None {
            assert(enrich::awaits(BlockView::Image(image), uri));
            let l2 = enrich::image_enriched(image, l, opts, log).1;
            assert forall|j: int| l.at <= j < l2.at implies #[trigger] wanted(log[j]) by {
                assert(open_for(log[j], opts, cache, uri));
            }
        }
    }
}

proof fn lemma_block_shows(
    block: BlockView,
    l: Ledger,
    opts: LlmOptions,
    log: Seq<Exchange>,
    cache: Map<Seq<char>, Seq<char>>,
    wanted: spec_fn(Exchange) -> bool,
)
    requires
        enrich::block_enriched(block, l, opts, log).1.sound,
        holds(l, opts, cache),
        forall|x: Exchange, uri: Seq<char>|
            #![trigger wanted(x), enrich::awaits(block, uri)]
            enrich::awaits(block, uri) && open_for(x, opts, cache, uri) ==> wanted(x),
    ensures
        between(l, enrich::block_enriched(block, l, opts, log).1, log, wanted),
        holds(enrich::block_enriched(block, l, opts, log).1, opts, cache),
    decreases block,
{
    match block {
        BlockView::Image(image) => {
            lemma_image_shows(image, l, opts, log, cache, wanted);
        },
        BlockView::Quote(inner) => {
            assert forall|x: Exchange, uri: Seq<char>|
                #![trigger wanted(x), enrich::any_awaits(inner, uri)]
                enrich::any_awaits(inner, uri) && open_for(x, opts, cache, uri) implies wanted(
                x,
            ) by {
                assert(enrich::awaits(block, uri));
            }
            lemma_blocks_show(inner, l, opts, log, cache, wanted);
        },
        BlockView::List { ordered, items } => {
            assert forall|x: Exchange, uri: Seq<char>, i: int|
                #![trigger wanted(x), enrich::any_awaits(items[i], uri)]
                0 <= i < items.len() && enrich::any_awaits(items[i], uri) && open_for(
                    x,
                    opts,
                    cache,
                    uri,
                ) implies wanted(x) by {
                assert(enrich::awaits(block, uri));
            }
            lemma_items_show(items, l, opts, log, cache, wanted);
        },
        BlockView::Embedded { name, doc } => {
            assert forall|x: Exchange, uri: Seq<char>|
                #![trigger wanted(x), enrich::any_awaits(doc.blocks, uri)]
                enrich::any_awaits(doc.blocks, uri) && open_for(
                    x,
                    opts,
                    cache,
                    uri,
                ) implies wanted(x) by {
                assert(enrich::awaits(block, uri));
            }
            lemma_blocks_show(doc.blocks, l, opts, log, cache, wanted);
        },
        _ => {},
    }
}

proof fn lemma_blocks_show(
    blocks: Seq<BlockView>,
    l: Ledger,
    opts: LlmOptions,
    log: Seq<Exchange>,
    cache: Map<Seq<char>, Seq<char>>,
    wanted: spec_fn(Exchange) -> bool,
)
    requires
        enrich::blocks_enriched(blocks, l, opts, log).1.sound,
        holds(l, opts, cache),
        forall|x: Exchange, uri: Seq<char>|
            #![trigger wanted(x), enrich::any_awaits(blocks, uri)]
            enrich::any_awaits(blocks, uri) && open_for(x, opts, cache, uri) ==> wanted(x),
    ensures
        between(l, enrich::blocks_enriched(blocks, l, opts, log).1, log, wanted),
        holds(enrich::blocks_enriched(blocks, l, opts, log).1, opts, cache),
    decreases blocks,
{
    if blocks.len() > 0 {
        let l1 = enrich::blocks_enriched(blocks.drop_last(), l, opts, log).1;
        lemma_block_was_sound(blocks.last(), l1, opts, log);
        assert forall|x: Exchange, uri: Seq<char>|
            #![trigger wanted(x), enrich::any_awaits(blocks.drop_last(), uri)]
            enrich::any_awaits(blocks.drop_last(), uri) && open_for(
                x,
                opts,
                cache,
                uri,
            ) implies wanted(x) by {
            let i = choose|i: int|
                #![trigger blocks.drop_last()[i]]
                0 <= i < blocks.drop_last().len() && enrich::awaits(blocks.drop_last()[i], uri);
            assert(blocks[i] == blocks.drop_last()[i]);
            assert(enrich::any_awaits(blocks, uri));
        }
        assert forall|x: Exchange, uri: Seq<char>|
            #![trigger wanted(x), enrich::awaits(blocks.last(), uri)]
            enrich::awaits(blocks.last(), uri) && open_for(x, opts, cache, uri) implies wanted(
            x,
        ) by {
            assert(blocks[blocks.len() - 1] == blocks.last());
            assert(enrich::any_awaits(blocks, uri));
        }
        lemma_blocks_show(blocks.drop_last(), l, opts, log, cache, wanted);
        lemma_block_shows(blocks.last(), l1, opts, log, cache, wanted);
    }
}

proof fn lemma_items_show(
    items: Seq<Seq<BlockView>>,
    l: Ledger,
    opts: LlmOptions,
    log: Seq<Exchange>,
    cache: Map<Seq<char>, Seq<char>>,
    wanted: spec_fn(Exchange) -> bool,
)
    requires
        enrich::items_enriched(items, l, opts, log).1.sound,
        holds(l, opts, cache),
        forall|x: Exchange, uri: Seq<char>, i: int|
            #![trigger wanted(x), enrich::any_awaits(items[i], uri)]
            0 <= i < items.len() && enrich::any_awaits(items[i], uri) && open_for(
                x,
                opts,
                cache,
                uri,
            ) ==> wanted(x),
    ensures
        between(l, enrich::items_enriched(items, l, opts, log).1, log, wanted),
        holds(enrich::items_enriched(items, l, opts, log).1, opts, cache),
    decreases items,
{
    if items.len() > 0 {
        let l1 = enrich::items_enriched(items.drop_last(), l, opts, log).1;
        lemma_blocks_were_sound(items.last(), l1, opts, log);
        assert forall|x: Exchange, uri: Seq<char>, i: int|
            #![trigger wanted(x), enrich::any_awaits(items.drop_last()[i], uri)]
            0 <= i < items.drop_last().len() && enrich::any_awaits(items.drop_last()[i], uri)
                && open_for(x, opts, cache, uri) implies wanted(x) by {
            assert(items[i] == items.drop_last()[i]);
            assert(enrich::any_awaits(items[i], uri));
        }
        assert forall|x: Exchange, uri: Seq<char>|
            #![trigger wanted(x), enrich::any_awaits(items.last(), uri)]
            enrich::any_awaits(items.last(), uri) && open_for(x, opts, cache, uri) implies wanted(
            x,
        ) by {
            assert(enrich::any_awaits(items[items.len() - 1], uri));
        }
        lemma_items_show(items.drop_last(), l, opts, log, cache, wanted);
        lemma_blocks_show(items.last(), l1, opts, log, cache, wanted);
    }
}

/// Whether a pass had to make an exchange: to ask what the document and the
/// profile call for and the cache does not hold, to put the source in the
/// content store, or to ask about the copy put there.
pub open spec fn called_for(
    doc: DocumentView,
    opts: LlmOptions,
    cache: Map<Seq<char>, Seq<char>>,
    source: Option<SourceView>,
    log: Seq<Exchange>,
    x: Exchange,
) -> bool {
    match x {
        Exchange::Described { prompt, resource, .. } => {
            &&& resource is Some
            &&& {
                ||| enrich::asks(doc, opts, cache, source, prompt, resource->0)
                ||| enrich::deposits(doc, opts, source) && prompt == enrich::prompt_or(
                    opts.pdf_prompt,
                    enrich::DEFAULT_PDF_OCR_PROMPT,
                ) && exists|j: int|
                    0 <= j < log.len() && #[trigger] log[j] is Stored && log[j].reply() == Ok::<
                        Seq<char>,
                        Seq<char>,
                    >(resource->0)
            }
        },
        Exchange::Stored { bytes, mime, .. } => {
            &&& enrich::deposits(doc, opts, source)
            &&& bytes == source->0.bytes
            &&& mime == source->0.mime
        },
    }
}

/// The host is asked only what was called for. An image that the document only
/// links to is never among it for being linked.
pub proof fn only_what_is_called_for_is_asked(
    doc: DocumentView,
    opts: LlmOptions,
    cache: Map<Seq<char>, Seq<char>>,
    source: Option<SourceView>,
    log: Seq<Exchange>,
    made: (DocumentView, Map<Seq<char>, Seq<char>>, EnrichReport),
    i: int,
)
    requires
        enrich::passes(doc, opts, cache, source, log, made),
        0 <= i < log.len(),
    ensures
        called_for(doc, opts, cache, source, log, log[i]),
{
    reveal(enrich::passes);
    let wanted = |x: Exchange| called_for(doc, opts, cache, source, log, x);
    let l0 = enrich::opened(cache);
    let images = opts.enrich.images.captions() || opts.enrich.images.reads();
    let (blocks, lb) = enrich::blocks_enriched(doc.blocks, l0, opts, log);
    let (doc1, l1) = if images {
        (DocumentView { blocks, ..doc }, lb)
    } else {
        (doc, l0)
    };
    let (doc2, l2) = if opts.enrich.audio == AudioEnrichment::Transcribe {
        enrich::audio_enriched(doc1, l1, opts, log)
    } else {
        (doc1, l1)
    };
    assert(l2.sound);
    assert(l1.sound);
    if images {
        assert forall|x: Exchange, uri: Seq<char>|
            #![trigger wanted(x), enrich::any_awaits(doc.blocks, uri)]
            enrich::any_awaits(doc.blocks, uri) && open_for(x, opts, cache, uri) implies wanted(
            x,
        ) by {
            assert(enrich::asks(doc, opts, cache, source, x->Described_prompt, uri));
        }
        lemma_blocks_show(doc.blocks, l0, opts, log, cache, wanted);
        enrich::lemma_placeholder_stays(doc.blocks, l0, opts, log);
    }
    assert(between(l0, l1, log, wanted));
    assert(holds(l1, opts, cache));
    lemma_audio_asks(doc, doc1, l1, opts, log, cache, source);
    assert(between(l1, l2, log, wanted));
    assert(holds(l2, opts, cache));
    assert(doc2.metadata == doc.metadata);
    if opts.enrich.pdf == PdfEnrichment::Ocr && source is Some {
        lemma_pdf_asks(doc, doc2, l2, opts, log, cache, source->0);
        let l3 = enrich::pdf_enriched(doc2, l2, opts, log, source->0).1;
        assert(between(l2, l3, log, wanted));
    }
    assert(wanted(log[i]));
}

proof fn lemma_audio_asks(
    doc: DocumentView,
    doc1: DocumentView,
    l: Ledger,
    opts: LlmOptions,
    log: Seq<Exchange>,
    cache: Map<Seq<char>, Seq<char>>,
    source: Option<SourceView>,
)
    requires
        opts.binding is Some,
        doc1.metadata == doc.metadata,
        enrich::placeholder_from(doc1.blocks, 0) == enrich::placeholder_from(doc.blocks, 0),
        holds(l, opts, cache),
        l.sound,
    ensures
        ({
            let (doc2, l2) = enrich::audio_enriched(doc1, l, opts, log);
            &&& doc2.metadata == doc.metadata
            &&& holds(l2, opts, cache)
            &&& opts.enrich.audio == AudioEnrichment::Transcribe && l2.sound ==> between(
                l,
                l2,
                log,
                |x: Exchange| called_for(doc, opts, cache, source, log, x),
            )
        }),
{
}

proof fn lemma_pdf_asks(
    doc: DocumentView,
    doc2: DocumentView,
    l: Ledger,
    opts: LlmOptions,
    log: Seq<Exchange>,
    cache: Map<Seq<char>, Seq<char>>,
    source: SourceView,
)
    requires
        opts.binding is Some,
        opts.enrich.pdf == PdfEnrichment::Ocr,
        doc2.metadata == doc.metadata,
        holds(l, opts, cache),
        l.sound,
        0 <= l.at,
        enrich::pdf_enriched(doc2, l, opts, log, source).1.sound,
    ensures
        between(
            l,
            enrich::pdf_enriched(doc2, l, opts, log, source).1,
            log,
            |x: Exchange| called_for(doc, opts, cache, Some(source), log, x),
        ),
{
    let wanted = |x: Exchange| called_for(doc, opts, cache, Some(source), log, x);
    if enrich::scanned_pages(doc2.metadata) is Some && l.report.attempted
        < opts.max_calls_per_document {
        let (ls, uri) = enrich::deposited(l, log, source);
        assert(ls.sound);
        if source.uri is None {
            assert(wanted(log[l.at]));
            if uri is Some {
                assert(log[l.at].reply() == Ok::<Seq<char>, Seq<char>>(uri->0));
            }
        }
    }
}

/// What a pass promises whatever the host does: it stays within the budget,
/// it does nothing unless asked to, and what the document said before it still
/// says.
pub proof fn a_pass_keeps_to_its_bounds(
    doc: DocumentView,
    opts: LlmOptions,
    cache: Map<Seq<char>, Seq<char>>,
    source: Option<SourceView>,
    log: Seq<Exchange>,
    made: (DocumentView, Map<Seq<char>, Seq<char>>, EnrichReport),
)
    requires
        enrich::passes(doc, opts, cache, source, log, made),
    ensures
        questions(log) == made.2.attempted,
        made.2.attempted <= opts.max_calls_per_document,
        opts.binding is None || !opts.enrich.wanted() ==> {
            &&& made.0 == (DocumentView { warnings: made.0.warnings, ..doc })
            &&& made.1 == cache
            &&& made.2 == enrich::blank_report()
            &&& log.len() == 0
        },
        made.0.title == doc.title,
        made.0.metadata == doc.metadata,
        doc.warnings.is_prefix_of(made.0.warnings),
        doc.blocks.len() <= made.0.blocks.len(),
{
    reveal(enrich::passes);
    the_budget_is_kept(doc, opts, cache, source, log);
    enrichment_only_adds(doc, opts, cache, source, log);
}

/// The source is put in the content store at most once, and not at all where
/// it is there already.
pub proof fn at_most_one_copy_is_stored(
    doc: DocumentView,
    opts: LlmOptions,
    cache: Map<Seq<char>, Seq<char>>,
    source: Option<SourceView>,
    log: Seq<Exchange>,
    i: int,
    j: int,
)
    requires
        enrich::enriched(doc, opts, cache, source, log).1.sound,
        enrich::enriched(doc, opts, cache, source, log).1.at == log.len(),
        0 <= i < log.len(),
        0 <= j < log.len(),
        log[i] is Stored,
        log[j] is Stored,
    ensures
        i == j,
        source is Some,
        source->0.uri is None,
        log[i]->bytes == source->0.bytes,
        log[i]->mime == source->0.mime,
{
    let asked = |x: Exchange| x is Described;
    let l0 = enrich::opened(cache);
    let images = opts.enrich.images.captions() || opts.enrich.images.reads();
    let (blocks, lb) = enrich::blocks_enriched(doc.blocks, l0, opts, log);
    let (doc1, l1) = if images {
        (DocumentView { blocks, ..doc }, lb)
    } else {
        (doc, l0)
    };
    let (doc2, l2) = if opts.enrich.audio == AudioEnrichment::Transcribe {
        enrich::audio_enriched(doc1, l1, opts, log)
    } else {
        (doc1, l1)
    };
    assert(l2.sound);
    assert(l1.sound);
    if images {
        lemma_blocks_show(doc.blocks, l0, opts, log, cache, asked);
    }
    assert(between(l0, l1, log, asked));
    assert(between(l1, l2, log, asked));
    assert forall|k: int| 0 <= k < log.len() && #[trigger] log[k] is Stored implies k == l2.at
        && source is Some && source->0.uri is None && log[k]->bytes == source->0.bytes
        && log[k]->mime == source->0.mime by {
        assert(!asked(log[k]));
        if l0.at <= k < l1.at {
            assert(asked(log[k]));
        }
        if l1.at <= k < l2.at {
            assert(asked(log[k]));
        }
        assert(k >= l2.at);
        if source is Some && opts.enrich.pdf == PdfEnrichment::Ocr {
            let (ls, uri) = enrich::deposited(l2, log, source->0);
            assert(k == l2.at || k == l2.at + 1);
        }
    }
}

/// What a model read from scanned pages stands under a heading that says so,
/// after all that the document itself said, and a warning says so too.
pub proof fn a_reading_is_labelled(
    doc: DocumentView,
    opts: LlmOptions,
    cache: Map<Seq<char>, Seq<char>>,
    source: Option<SourceView>,
    log: Seq<Exchange>,
)
    requires
        enrich::enriched(doc, opts, cache, source, log).0.blocks.len() != doc.blocks.len(),
    ensures
        ({
            let out = enrich::enriched(doc, opts, cache, source, log).0;
            let n = doc.blocks.len() as int;
            &&& out.blocks.len() == n + 2
            &&& out.blocks[n] is Heading
            &&& " (transcribed)"@.is_suffix_of(out.blocks[n]->Heading_text)
            &&& out.blocks[n + 1] is Raw
            &&& out.warnings.len() > doc.warnings.len()
            &&& out.warnings[doc.warnings.len() as int].kind == WarningKind::Degraded.label()
        }),
{
    let l0 = enrich::opened(cache);
    let images = opts.enrich.images.captions() || opts.enrich.images.reads();
    lemma_blocks_gain(doc.blocks, l0, opts, log);
    let (blocks, lb) = enrich::blocks_enriched(doc.blocks, l0, opts, log);
    let (doc1, l1) = if images {
        (DocumentView { blocks, ..doc }, lb)
    } else {
        (doc, l0)
    };
    let (doc2, l2) = if opts.enrich.audio == AudioEnrichment::Transcribe {
        enrich::audio_enriched(doc1, l1, opts, log)
    } else {
        (doc1, l1)
    };
    lemma_placeholder(doc1.blocks, 0);
    assert(doc2.blocks.len() == doc.blocks.len());
    assert(doc2.warnings == doc.warnings);
    let out = enrich::enriched(doc, opts, cache, source, log).0;
    let heading = out.blocks[doc.blocks.len() as int]->Heading_text;
    let tail = " (transcribed)"@;
    assert(heading.skip(heading.len() - tail.len()) =~= tail);
}

/// What a ledger can only gain: no reply is forgotten or replaced, and no count
/// goes back.
spec fn grown(l: Ledger, l1: Ledger) -> bool {
    &&& forall|k: Seq<char>| #[trigger]
        l.cache.contains_key(k) ==> l1.cache.contains_key(k) && l1.cache[k] == l.cache[k]
    &&& l.report.attempted <= l1.report.attempted
    &&& l.report.failed <= l1.report.failed
    &&& l.report.skipped_over_budget <= l1.report.skipped_over_budget
}

proof fn lemma_block_grows(block: BlockView, l: Ledger, opts: LlmOptions, log: Seq<Exchange>)
    requires
        opts.cache,
    ensures
        grown(l, enrich::block_enriched(block, l, opts, log).1),
    decreases block,
{
    match block {
        BlockView::Quote(inner) => {
            lemma_blocks_grow(inner, l, opts, log);
        },
        BlockView::List { ordered, items } => {
            lemma_items_grow(items, l, opts, log);
        },
        BlockView::Embedded { name, doc } => {
            lemma_blocks_grow(doc.blocks, l, opts, log);
        },
        _ => {},
    }
}

proof fn lemma_blocks_grow(
    blocks: Seq<BlockView>,
    l: Ledger,
    opts: LlmOptions,
    log: Seq<Exchange>,
)
    requires
        opts.cache,
    ensures
        grown(l, enrich::blocks_enriched(blocks, l, opts, log).1),
    decreases blocks,
{
    if blocks.len() > 0 {
        let (before, l1) = enrich::blocks_enriched(blocks.drop_last(), l, opts, log);
        lemma_blocks_grow(blocks.drop_last(), l, opts, log);
        lemma_block_grows(blocks.last(), l1, opts, log);
    }
}

proof fn lemma_items_grow(
    items: Seq<Seq<BlockView>>,
    l: Ledger,
    opts: LlmOptions,
    log: Seq<Exchange>,
)
    requires
        opts.cache,
    ensures
        grown(l, enrich::items_enriched(items, l, opts, log).1),
    decreases items,
{
    if items.len() > 0 {
        let (before, l1) = enrich::items_enriched(items.drop_last(), l, opts, log);
        lemma_items_grow(items.drop_last(), l, opts, log);
        lemma_blocks_grow(items.last(), l1, opts, log);
    }
}

proof fn lemma_audio_grows(doc: DocumentView, l: Ledger, opts: LlmOptions, log: Seq<Exchange>)
    requires
        opts.cache,
    ensures
        grown(l, enrich::audio_enriched(doc, l, opts, log).1),
        enrich::audio_enriched(doc, l, opts, log).0.metadata == doc.metadata,
{
}

proof fn lemma_pdf_grows(
    doc: DocumentView,
    l: Ledger,
    opts: LlmOptions,
    log: Seq<Exchange>,
    source: SourceView,
)
    requires
        opts.cache,
    ensures
        grown(l, enrich::pdf_enriched(doc, l, opts, log, source).1),
{
}

/// Whether every question of a pass was answered: none failed, and the budget
/// left none out. A pass that both captions and reads an image may spend its
/// last call on the caption, so there one call has to be left.
pub open spec fn all_answered(report: EnrichReport, opts: LlmOptions) -> bool {
    &&& report.failed == 0
    &&& report.skipped_over_budget == 0
    &&& opts.enrich.images.captions() && opts.enrich.images.reads() ==> report.attempted
        < opts.max_calls_per_document
}

/// Whether the cache of a ledger holds all that is asked of an image.
spec fn explained(l: Ledger, opts: LlmOptions, uri: Seq<char>) -> bool {
    forall|prompt: Seq<char>|
        enrich::asked_of_images(opts, prompt) ==> #[trigger] enrich::known(
            opts,
            l.cache,
            prompt,
            Some(uri),
        )
}

proof fn lemma_stays_explained(l: Ledger, l1: Ledger, opts: LlmOptions, uri: Seq<char>)
    requires
        grown(l, l1),
        explained(l, opts, uri),
    ensures
        explained(l1, opts, uri),
{
    assert forall|prompt: Seq<char>| enrich::asked_of_images(
        opts,
        prompt,
    ) implies #[trigger] enrich::known(opts, l1.cache, prompt, Some(uri)) by {
        assert(enrich::known(opts, l.cache, prompt, Some(uri)));
    }
}

proof fn lemma_block_is_explained(
    block: BlockView,
    l: Ledger,
    opts: LlmOptions,
    log: Seq<Exchange>,
    uri: Seq<char>,
)
    requires
        opts.cache,
        all_answered(enrich::block_enriched(block, l, opts, log).1.report, opts),
        enrich::awaits(block, uri),
    ensures
        explained(enrich::block_enriched(block, l, opts, log).1, opts, uri),
    decreases block,
{
    match block {
        BlockView::Quote(inner) => {
            lemma_blocks_are_explained(inner, l, opts, log, uri);
        },
        BlockView::List { ordered, items } => {
            lemma_items_are_explained(items, l, opts, log, uri);
        },
        BlockView::Embedded { name, doc } => {
            lemma_blocks_are_explained(doc.blocks, l, opts, log, uri);
        },
        _ => {},
    }
}

proof fn lemma_blocks_are_explained(
    blocks: Seq<BlockView>,
    l: Ledger,
    opts: LlmOptions,
    log: Seq<Exchange>,
    uri: Seq<char>,
)
    requires
        opts.cache,
        all_answered(enrich::blocks_enriched(blocks, l, opts, log).1.report, opts),
        enrich::any_awaits(blocks, uri),
    ensures
        explained(enrich::blocks_enriched(blocks, l, opts, log).1, opts, uri),
    decreases blocks,
{
    let i = choose|i: int|
        #![trigger blocks[i]]
        0 <= i < blocks.len() && enrich::awaits(blocks[i], uri);
    let (before, l1) = enrich::blocks_enriched(blocks.drop_last(), l, opts, log);
    let l2 = enrich::block_enriched(blocks.last(), l1, opts, log).1;
    lemma_block_grows(blocks.last(), l1, opts, log);
    if i == blocks.len() - 1 {
        lemma_block_is_explained(blocks.last(), l1, opts, log, uri);
    } else {
        assert(blocks.drop_last()[i] == blocks[i]);
        lemma_blocks_are_explained(blocks.drop_last(), l, opts, log, uri);
        lemma_stays_explained(l1, l2, opts, uri);
    }
}

proof fn lemma_items_are_explained(
    items: Seq<Seq<BlockView>>,
    l: Ledger,
    opts: LlmOptions,
    log: Seq<Exchange>,
    uri: Seq<char>,
)
    requires
        opts.cache,
        all_answered(enrich::items_enriched(items, l, opts, log).1.report, opts),
        exists|i: int|
            #![trigger items[i]]
            0 <= i < items.len() && enrich::any_awaits(items[i], uri),
    ensures
        explained(enrich::items_enriched(items, l, opts, log).1, opts, uri),
    decreases items,
{
    let i = choose|i: int|
        #![trigger items[i]]
        0 <= i < items.len() && enrich::any_awaits(items[i], uri);
    let (before, l1) = enrich::items_enriched(items.drop_last(), l, opts, log);
    let l2 = enrich::blocks_enriched(items.last(), l1, opts, log).1;
    lemma_blocks_grow(items.last(), l1, opts, log);
    if i == items.len() - 1 {
        lemma_blocks_are_explained(items.last(), l1, opts, log, uri);
    } else {
        assert(items.drop_last()[i] == items[i]);
        lemma_items_are_explained(items.drop_last(), l, opts, log, uri);
        lemma_stays_explained(l1, l2, opts, uri);
    }
}

/// After a pass whose questions were all answered, none is open: a second pass
/// over the same content has nothing that it may ask a host.
pub proof fn an_answered_pass_leaves_no_question(
    doc: DocumentView,
    opts: LlmOptions,
    cache: Map<Seq<char>, Seq<char>>,
    source: Option<SourceView>,
    log: Seq<Exchange>,
    prompt: Seq<char>,
    uri: Seq<char>,
)
    requires
        opts.cache,
        all_answered(enrich::enriched(doc, opts, cache, source, log).1.report, opts),
    ensures
        !enrich::asks(
            doc,
            opts,
            enrich::enriched(doc, opts, cache, source, log).1.cache,
            source,
            prompt,
            uri,
        ),
{
    let l = enrich::enriched(doc, opts, cache, source, log).1;
    if enrich::asks(doc, opts, l.cache, source, prompt, uri) {
        let images = opts.enrich.images.captions() || opts.enrich.images.reads();
        let l0 = enrich::opened(cache);
        let (blocks, lb) = enrich::blocks_enriched(doc.blocks, l0, opts, log);
        let (doc1, l1) = if images {
            (DocumentView { blocks, ..doc }, lb)
        } else {
            (doc, l0)
        };
        let (doc2, l2) = if opts.enrich.audio == AudioEnrichment::Transcribe {
            enrich::audio_enriched(doc1, l1, opts, log)
        } else {
            (doc1, l1)
        };
        assert(grown(l2, l)) by {
            if opts.enrich.pdf == PdfEnrichment::Ocr && source is Some {
                lemma_pdf_grows(doc2, l2, opts, log, source->0);
            }
        }
        assert(grown(l1, l2)) by {
            lemma_audio_grows(doc1, l1, opts, log);
        }
        if enrich::asked_of_images(opts, prompt) && enrich::any_awaits(doc.blocks, uri) {
            lemma_blocks_are_explained(doc.blocks, l0, opts, log, uri);
            lemma_stays_explained(l1, l, opts, uri);
            assert(enrich::known(opts, l.cache, prompt, Some(uri)));
        } else {
            enrich::lemma_placeholder_stays(doc.blocks, l0, opts, log);
            lemma_audio_grows(doc1, l1, opts, log);
            let key = enrich::key_of(prompt, Some(uri));
            if l2.cache.contains_key(key) {
                assert(l.cache.contains_key(key));
            }
        }
    }
}

/// A ledger that knows every reply of another, and has asked nothing yet.
spec fn informed(m: Ledger, l: Ledger) -> bool {
    &&& forall|k: Seq<char>| #[trigger]
        l.cache.contains_key(k) ==> m.cache.contains_key(k) && m.cache[k] == l.cache[k]
    &&& m.report.attempted == 0
}

/// Only the count of cached replies differs.
spec fn quiet(m: Ledger, m1: Ledger) -> bool {
    m1 == Ledger { report: EnrichReport { cached: m1.report.cached, ..m.report }, ..m }
}

proof fn lemma_consulted_again(
    l: Ledger,
    m: Ledger,
    opts: LlmOptions,
    log: Seq<Exchange>,
    log1: Seq<Exchange>,
    prompt: Seq<char>,
    resource: Option<Seq<char>>,
)
    requires
        opts.cache,
        enrich::consulted(l, opts, log, prompt, resource).0.report.failed == 0,
        informed(m, enrich::consulted(l, opts, log, prompt, resource).0),
    ensures
        enrich::consulted(l, opts, log, prompt, resource).0.warnings == l.warnings,
        enrich::consulted(m, opts, log1, prompt, resource).1 == enrich::consulted(
            l,
            opts,
            log,
            prompt,
            resource,
        ).1,
        quiet(m, enrich::consulted(m, opts, log1, prompt, resource).0),
{
    let key = enrich::key_of(prompt, resource);
    assert(enrich::consulted(l, opts, log, prompt, resource).0.cache.contains_key(key));
}

proof fn lemma_image_again(
    image: ImageView,
    l: Ledger,
    m: Ledger,
    opts: LlmOptions,
    log: Seq<Exchange>,
    log1: Seq<Exchange>,
)
    requires
        opts.cache,
        all_answered(enrich::image_enriched(image, l, opts, log).1.report, opts),
        informed(m, enrich::image_enriched(image, l, opts, log).1),
    ensures
        enrich::image_enriched(image, l, opts, log).1.warnings == l.warnings,
        enrich::image_enriched(image, m, opts, log1).0 == enrich::image_enriched(
            image,
            l,
            opts,
            log,
        ).0,
        quiet(m, enrich::image_enriched(image, m, opts, log1).1),
{
    if let ImageRefView::Resource(uri) = image.source {
        if image.caption is None {
            let prompt = enrich::prompt_or(opts.image_prompt, enrich::DEFAULT_IMAGE_PROMPT);
            let l1 = if opts.enrich.images.captions() {
                enrich::consulted(l, opts, log, prompt, Some(uri)).0
            } else {
                l
            };
            let m1 = if opts.enrich.images.captions() {
                enrich::consulted(m, opts, log1, prompt, Some(uri)).0
            } else {
                m
            };
            let l2 = enrich::image_enriched(image, l, opts, log).1;
            assert forall|k: Seq<char>| #[trigger] l1.cache.contains_key(k) implies m.cache.contains_key(
                k,
            ) && m.cache[k] == l1.cache[k] by {
                assert(l2.cache.contains_key(k) && l2.cache[k] == l1.cache[k]);
            }
            if opts.enrich.images.captions() {
                lemma_consulted_again(l, m, opts, log, log1, prompt, Some(uri));
            }
            if opts.enrich.images.reads() {
                lemma_consulted_again(
                    l1,
                    m1,
                    opts,
                    log,
                    log1,
                    enrich::DEFAULT_OCR_PROMPT@,
                    Some(uri),
                );
            }
        }
    }
}

proof fn lemma_audio_again(
    doc: DocumentView,
    l: Ledger,
    m: Ledger,
    opts: LlmOptions,
    log: Seq<Exchange>,
    log1: Seq<Exchange>,
)
    requires
        opts.cache,
        all_answered(enrich::audio_enriched(doc, l, opts, log).1.report, opts),
        informed(m, enrich::audio_enriched(doc, l, opts, log).1),
    ensures
        enrich::audio_enriched(doc, l, opts, log).1.warnings == l.warnings,
        enrich::audio_enriched(doc, m, opts, log1).0 == enrich::audio_enriched(
            doc,
            l,
            opts,
            log,
        ).0,
        quiet(m, enrich::audio_enriched(doc, m, opts, log1).1),
{
    if let (Some(uri), Some(i)) = (
        enrich::audio_uri(doc.metadata),
        enrich::placeholder_from(doc.blocks, 0),
    ) {
        let prompt = enrich::prompt_or(opts.audio_prompt, enrich::DEFAULT_AUDIO_PROMPT);
        lemma_consulted_again(l, m, opts, log, log1, prompt, Some(uri));
    }
}

proof fn lemma_pdf_again(
    doc: DocumentView,
    l: Ledger,
    m: Ledger,
    opts: LlmOptions,
    log: Seq<Exchange>,
    log1: Seq<Exchange>,
    source: SourceView,
)
    requires
        opts.cache,
        all_answered(enrich::pdf_enriched(doc, l, opts, log, source).1.report, opts),
        informed(m, enrich::pdf_enriched(doc, l, opts, log, source).1),
        enrich::scanned_pages(doc.metadata) is Some ==> source.uri is Some,
        m.warnings == l.warnings,
    ensures
        enrich::pdf_enriched(doc, m, opts, log1, source).0 == enrich::pdf_enriched(
            doc,
            l,
            opts,
            log,
            source,
        ).0,
        ({
            let m1 = enrich::pdf_enriched(doc, m, opts, log1, source).1;
            &&& m1.warnings == enrich::pdf_enriched(doc, l, opts, log, source).1.warnings
            &&& quiet(m, Ledger { warnings: m.warnings, ..m1 })
        }),
{
    if enrich::scanned_pages(doc.metadata) is Some {
        let prompt = enrich::prompt_or(opts.pdf_prompt, enrich::DEFAULT_PDF_OCR_PROMPT);
        assert(enrich::pdf_enriched(doc, l, opts, log, source).1.cache == enrich::consulted(
            l,
            opts,
            log,
            prompt,
            source.uri,
        ).0.cache);
        lemma_consulted_again(l, m, opts, log, log1, prompt, source.uri);
    }
}

proof fn lemma_block_again(
    block: BlockView,
    l: Ledger,
    m: Ledger,
    opts: LlmOptions,
    log: Seq<Exchange>,
    log1: Seq<Exchange>,
)
    requires
        opts.cache,
        all_answered(enrich::block_enriched(block, l, opts, log).1.report, opts),
        informed(m, enrich::block_enriched(block, l, opts, log).1),
    ensures
        enrich::block_enriched(block, l, opts, log).1.warnings == l.warnings,
        enrich::block_enriched(block, m, opts, log1).0 == enrich::block_enriched(
            block,
            l,
            opts,
            log,
        ).0,
        quiet(m, enrich::block_enriched(block, m, opts, log1).1),
    decreases block,
{
    match block {
        BlockView::Image(image) => {
            lemma_image_again(image, l, m, opts, log, log1);
        },
        BlockView::Quote(inner) => {
            lemma_blocks_again(inner, l, m, opts, log, log1);
        },
        BlockView::List { ordered, items } => {
            lemma_items_again(items, l, m, opts, log, log1);
        },
        BlockView::Embedded { name, doc } => {
            lemma_blocks_again(doc.blocks, l, m, opts, log, log1);
        },
        _ => {},
    }
}

proof fn lemma_blocks_again(
    blocks: Seq<BlockView>,
    l: Ledger,
    m: Ledger,
    opts: LlmOptions,
    log: Seq<Exchange>,
    log1: Seq<Exchange>,
)
    requires
        opts.cache,
        all_answered(enrich::blocks_enriched(blocks, l, opts, log).1.report, opts),
        informed(m, enrich::blocks_enriched(blocks, l, opts, log).1),
    ensures
        enrich::blocks_enriched(blocks, l, opts, log).1.warnings == l.warnings,
        enrich::blocks_enriched(blocks, m, opts, log1).0 == enrich::blocks_enriched(
            blocks,
            l,
            opts,
            log,
        ).0,
        quiet(m, enrich::blocks_enriched(blocks, m, opts, log1).1),
    decreases blocks,
{
    if blocks.len() > 0 {
        let (before, l1) = enrich::blocks_enriched(blocks.drop_last(), l, opts, log);
        let m1 = enrich::blocks_enriched(blocks.drop_last(), m, opts, log1).1;
        lemma_block_grows(blocks.last(), l1, opts, log);
        lemma_blocks_again(blocks.drop_last(), l, m, opts, log, log1);
        lemma_block_again(blocks.last(), l1, m1, opts, log, log1);
    }
}

proof fn lemma_items_again(
    items: Seq<Seq<BlockView>>,
    l: Ledger,
    m: Ledger,
    opts: LlmOptions,
    log: Seq<Exchange>,
    log1: Seq<Exchange>,
)
    requires
        opts.cache,
        all_answered(enrich::items_enriched(items, l, opts, log).1.report, opts),
        informed(m, enrich::items_enriched(items, l, opts, log).1),
    ensures
        enrich::items_enriched(items, l, opts, log).1.warnings == l.warnings,
        enrich::items_enriched(items, m, opts, log1).0 == enrich::items_enriched(
            items,
            l,
            opts,
            log,
        ).0,
        quiet(m, enrich::items_enriched(items, m, opts, log1).1),
    decreases items,
{
    if items.len() > 0 {
        let (before, l1) = enrich::items_enriched(items.drop_last(), l, opts, log);
        let m1 = enrich::items_enriched(items.drop_last(), m, opts, log1).1;
        lemma_blocks_grow(items.last(), l1, opts, log);
        lemma_items_again(items.drop_last(), l, m, opts, log, log1);
        lemma_blocks_again(items.last(), l1, m1, opts, log, log1);
    }
}

/// The same content described twice costs its calls once: a second pass with
/// the cache that the first one left asks nothing, keeps the cache and makes
/// the same document, where every question of the first was answered and the
/// source needs no place in the content store.
pub proof fn a_second_pass_asks_nothing(
    doc: DocumentView,
    opts: LlmOptions,
    cache: Map<Seq<char>, Seq<char>>,
    source: Option<SourceView>,
    log: Seq<Exchange>,
    log1: Seq<Exchange>,
)
    requires
        opts.cache,
        all_answered(enrich::enriched(doc, opts, cache, source, log).1.report, opts),
        !enrich::deposits(doc, opts, source),
    ensures
        ({
            let (out, l) = enrich::enriched(doc, opts, cache, source, log);
            let (again, m) = enrich::enriched(doc, opts, l.cache, source, log1);
            &&& again == out
            &&& m.cache == l.cache
            &&& m.at == 0
            &&& m.sound
            &&& m.report == EnrichReport { cached: m.report.cached, ..enrich::blank_report() }
        }),
{
    if opts.binding is Some && opts.enrich.wanted() {
        let images = opts.enrich.images.captions() || opts.enrich.images.reads();
        let audio = opts.enrich.audio == AudioEnrichment::Transcribe;
        let pdf = opts.enrich.pdf == PdfEnrichment::Ocr && source is Some;
        let (out, l) = enrich::enriched(doc, opts, cache, source, log);
        let l0 = enrich::opened(cache);
        let m0 = enrich::opened(l.cache);
        let (blocks, lb) = enrich::blocks_enriched(doc.blocks, l0, opts, log);
        let (blocks1, mb) = enrich::blocks_enriched(doc.blocks, m0, opts, log1);
        let (doc1, l1) = if images {
            (DocumentView { blocks, ..doc }, lb)
        } else {
            (doc, l0)
        };
        let m1 = if images {
            mb
        } else {
            m0
        };
        let (doc2, l2) = if audio {
            enrich::audio_enriched(doc1, l1, opts, log)
        } else {
            (doc1, l1)
        };
        let (doc2b, m2) = if audio {
            enrich::audio_enriched(doc1, m1, opts, log1)
        } else {
            (doc1, m1)
        };
        if pdf {
            lemma_pdf_grows(doc2, l2, opts, log, source->0);
        }
        assert(grown(l2, l));
        if audio {
            lemma_audio_grows(doc1, l1, opts, log);
        }
        assert(grown(l1, l));
        if images {
            lemma_blocks_again(doc.blocks, l0, m0, opts, log, log1);
        }
        assert(quiet(m0, m1));
        if audio {
            lemma_audio_again(doc1, l1, m1, opts, log, log1);
        }
        assert(doc2b == doc2 && quiet(m1, m2));
        if pdf {
            lemma_pdf_again(doc2, l2, m2, opts, log, log1, source->0);
        }
    }
}

/// The same of two passes with hosts: the second asks its host nothing,
/// whatever that would reply.
pub proof fn the_same_content_is_described_once(
    doc: DocumentView,
    opts: LlmOptions,
    cache: Map<Seq<char>, Seq<char>>,
    source: Option<SourceView>,
    log: Seq<Exchange>,
    made: (DocumentView, Map<Seq<char>, Seq<char>>, EnrichReport),
    log1: Seq<Exchange>,
    again: (DocumentView, Map<Seq<char>, Seq<char>>, EnrichReport),
)
    requires
        opts.cache,
        enrich::passes(doc, opts, cache, source, log, made),
        all_answered(made.2, opts),
        !enrich::deposits(doc, opts, source),
        enrich::passes(doc, opts, made.1, source, log1, again),
    ensures
        log1.len() == 0,
        again.0 == made.0,
        again.1 == made.1,
        again.2 == (EnrichReport { cached: again.2.cached, ..enrich::blank_report() }),
{
    reveal(enrich::passes);
    a_second_pass_asks_nothing(doc, opts, cache, source, log, log1);
}

} // verus!
