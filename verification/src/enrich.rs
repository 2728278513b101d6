//! LLM enrichment: captions, OCR and transcripts.
//!
//! Enrichment is dispatched through the host to an LLM binding that the
//! operator already configured. It is strictly additive and strictly
//! fail-soft: a failure, a missing binding or an exhausted call budget leaves
//! the document as the converter produced it, plus a warning.

use vstd::hash_map::StringHashMap;
use vstd::prelude::*;

use crate::codec;
use crate::config::{AudioEnrichment, ImageEnrichment, LlmOptions, PdfEnrichment};
use crate::document;
use crate::document::{
    Block, BlockView, Document, DocumentView, Image, ImageRef, ImageRefView, ImageView, Inline,
    Warning, WarningKind, WarningView,
};
use crate::json;
use crate::json::{Json, JsonView};
use crate::text;

verus! {

/// What the plugin needs from the host to enrich. A trait so the whole pass
/// is testable without a gateway.
pub trait Enricher {
    /// What the host was asked so far, and what it replied. It is there for
    /// the contracts alone: a host that is held to them keeps it in a ghost
    /// field.
    open spec fn exchanges(&self) -> Seq<Exchange> {
        Seq::empty()
    }

    /// Dispatch a prompt, optionally about a stored resource. Returns the
    /// model's text.
    fn describe(&mut self, prompt: &str, resource_uri: Option<&str>) -> (r: Result<String, String>)
        ensures
            final(self).exchanges() == old(self).exchanges().push(
                Exchange::Described {
                    prompt: prompt@,
                    resource: text::str_of(resource_uri),
                    reply: reply_of(r),
                },
            ),
    ;

    /// Put bytes in the gateway content store and return their
    /// `mcpg-resource://` URI.
    fn store(&mut self, bytes: &[u8], mime: &str) -> (r: Result<String, String>)
        ensures
            final(self).exchanges() == old(self).exchanges().push(
                Exchange::Stored { bytes: bytes@, mime: mime@, reply: reply_of(r) },
            ),
    ;
}

/// Outcome of one enrichment pass. The counts stop at their largest value.
#[derive(Debug, Clone, PartialEq, Eq, Structural)]
pub struct EnrichReport {
    pub attempted: u32,
    pub succeeded: u32,
    pub failed: u32,
    pub cached: u32,
    pub skipped_over_budget: u32,
}

impl Default for EnrichReport {
    fn default() -> (r: Self)
        ensures
            r == blank_report(),
    {
        EnrichReport { attempted: 0, succeeded: 0, failed: 0, cached: 0, skipped_over_budget: 0 }
    }
}

/// The report of a pass that did nothing.
pub open spec fn blank_report() -> EnrichReport {
    EnrichReport { attempted: 0, succeeded: 0, failed: 0, cached: 0, skipped_over_budget: 0 }
}

impl EnrichReport {
    #[must_use]
    pub fn ran(&self) -> (r: bool)
        ensures
            r == (self.attempted > 0),
    {
        self.attempted > 0
    }
}

/// One more, up to the largest count.
pub open spec fn more(n: u32) -> u32 {
    if n < u32::MAX {
        (n + 1) as u32
    } else {
        n
    }
}

/// Replies of the model by prompt and resource, so that the same question
/// about the same content is asked once.
pub struct EnrichmentCache {
    replies: StringHashMap<String>,
    keys: Vec<String>,
}

impl EnrichmentCache {
    /// The reply under each key.
    pub closed spec fn view(&self) -> Map<Seq<char>, Seq<char>> {
        self.replies@.map_values(|s: String| s@)
    }

    /// The keys are those that have a reply.
    #[verifier::type_invariant]
    spec fn listed(self) -> bool {
        forall|k: Seq<char>| #[trigger]
            self.replies@.contains_key(k) <==> text::texts_of(self.keys@).contains(k)
    }

    pub fn new() -> (r: Self)
        ensures
            r@ == Map::<Seq<char>, Seq<char>>::empty(),
    {
        let r = EnrichmentCache { replies: StringHashMap::new(), keys: Vec::new() };
        assert(r@ =~= Map::<Seq<char>, Seq<char>>::empty());
        r
    }

    pub fn get(&self, key: &str) -> (r: Option<String>)
        ensures
            r is Some <==> self@.contains_key(key@),
            r matches Some(t) ==> t@ == self@[key@],
    {
        match self.replies.get(key) {
            Some(t) => Some(t.clone()),
            None => None,
        }
    }

    pub fn insert(&mut self, key: String, reply: String)
        ensures
            final(self)@ == old(self)@.insert(key@, reply@),
    {
        let mut held = EnrichmentCache::new();
        std::mem::swap(self, &mut held);
        proof {
            use_type_invariant(&held);
        }
        let EnrichmentCache { mut replies, mut keys } = held;
        let ghost replies0 = replies@;
        let ghost keys0 = text::texts_of(keys@);
        if !replies.contains_key(key.as_str()) {
            keys.push(key.clone());
        }
        let ghost keys1 = text::texts_of(keys@);
        replies.insert(key, reply);
        assert forall|k: Seq<char>| #[trigger] replies@.contains_key(k) <==> keys1.contains(k) by {
            if !replies0.contains_key(key@) {
                assert(keys1 =~= keys0.push(key@));
                assert(keys1[keys0.len() as int] == key@);
                if keys0.contains(k) {
                    let i = choose|i: int| 0 <= i < keys0.len() && keys0[i] == k;
                    assert(keys1[i] == k);
                }
            }
        }
        *self = EnrichmentCache { replies, keys };
        assert(self@ =~= old(self)@.insert(key@, reply@));
    }

    /// A second cache with the same replies, to work with while this one is
    /// free for others.
    pub fn copy(&self) -> (r: Self)
        ensures
            r@ == self@,
    {
        let mut r = EnrichmentCache::new();
        r.absorb(self);
        assert(r@ =~= self@);
        r
    }

    /// Takes over the replies of another cache. Where both have one, the
    /// other's stands.
    pub fn absorb(&mut self, other: &EnrichmentCache)
        ensures
            final(self)@ == old(self)@.union_prefer_right(other@),
    {
        proof {
            use_type_invariant(other);
        }
        let n: usize = other.keys.len();
        let ghost keys = text::texts_of(other.keys@);
        for i in 0..n
            invariant
                n == other.keys@.len(),
                keys == text::texts_of(other.keys@),
                forall|k: Seq<char>| #[trigger]
                    other.replies@.contains_key(k) <==> keys.contains(k),
                self@ == old(self)@.union_prefer_right(
                    other@.restrict(keys.take(i as int).to_set()),
                ),
        {
            let ghost before = self@;
            let key = other.keys[i].as_str();
            assert(keys[i as int] == key@);
            assert(other.replies@.contains_key(key@));
            if let Some(reply) = other.replies.get(key) {
                self.insert(key.to_owned(), reply.clone());
            }
            assert(self@ == before.insert(key@, other@[key@]));
            proof {
                let done = keys.take(i as int);
                assert(keys.take(i + 1) =~= done.push(key@));
                assert forall|k: Seq<char>| #[trigger]
                    done.push(key@).contains(k) <==> k == key@ || done.contains(k) by {
                    assert(done.push(key@)[i as int] == key@);
                    if done.contains(k) {
                        let j = choose|j: int| 0 <= j < done.len() && done[j] == k;
                        assert(done.push(key@)[j] == k);
                    }
                }
                assert(done.push(key@).to_set() =~= done.to_set().insert(key@));
            }
            assert(self@ =~= old(self)@.union_prefer_right(
                other@.restrict(keys.take(i + 1).to_set()),
            ));
        }
        assert(keys.take(n as int) =~= keys);
        assert forall|k: Seq<char>| #[trigger] other@.contains_key(k) <==> keys.contains(k) by {
            assert(other.replies@.contains_key(k) == other@.contains_key(k));
        }
        assert(other@.restrict(keys.to_set()) =~= other@);
        assert(self@ =~= old(self)@.union_prefer_right(other@));
    }
}

/// A reply, as text.
pub open spec fn reply_of(r: Result<String, String>) -> Result<Seq<char>, Seq<char>> {
    match r {
        Ok(t) => Ok(t@),
        Err(e) => Err(e@),
    }
}

/// One question to the host, with the reply.
pub enum Exchange {
    Described {
        prompt: Seq<char>,
        resource: Option<Seq<char>>,
        reply: Result<Seq<char>, Seq<char>>,
    },
    Stored { bytes: Seq<u8>, mime: Seq<char>, reply: Result<Seq<char>, Seq<char>> },
}

impl Exchange {
    pub open spec fn reply(self) -> Result<Seq<char>, Seq<char>> {
        match self {
            Exchange::Described { reply, .. } => reply,
            Exchange::Stored { reply, .. } => reply,
        }
    }
}

/// What was exchanged with a host between two of its records.
pub open spec fn since(before: Seq<Exchange>, after: Seq<Exchange>) -> Seq<Exchange> {
    after.skip(before.len() as int)
}

pub const DEFAULT_IMAGE_PROMPT: &'static str =
    "Describe this image for a reader who cannot see it. Be specific and factual. \
     Two sentences at most. Do not speculate about anything not visible.";

pub const DEFAULT_OCR_PROMPT: &'static str =
    "Transcribe all text visible in this image, preserving reading order. \
     Output only the transcribed text. If there is no text, output nothing.";

pub const DEFAULT_AUDIO_PROMPT: &'static str =
    "Transcribe this audio. Output only the transcript.";

pub const DEFAULT_PDF_OCR_PROMPT: &'static str =
    "This PDF has pages with no text layer — they are scanned images. \
     Transcribe their text as Markdown, preserving headings, lists and tables. \
     Output only the transcription, with no commentary. If a page is \
     illegible, write `[illegible]` for it rather than guessing.";

/// What the audio converter leaves where a transcript belongs.
pub const PLACEHOLDER: &'static str = "[audio: no transcript]";

/// Under this name the PDF converter lists the pages without a text layer.
pub const SCANNED_PAGES_KEY: &'static str = "pdf_scanned_pages";

/// Under this name the PDF converter counts the pages.
pub const PAGE_COUNT_KEY: &'static str = "pdf_page_count";

/// Where a pass stands: what it has cached, counted and warned of, and how
/// many of the exchanges it has used.
pub struct Ledger {
    pub cache: Map<Seq<char>, Seq<char>>,
    pub report: EnrichReport,
    pub warnings: Seq<WarningView>,
    pub at: int,
    /// Whether every exchange used so far was the one that the pass asked for.
    pub sound: bool,
}

/// The key of a question in the cache.
pub open spec fn key_of(prompt: Seq<char>, resource: Option<Seq<char>>) -> Seq<char> {
    codec::blake3_hex(
        vstd::utf8::encode_utf8(prompt) + seq![0u8] + vstd::utf8::encode_utf8(
            match resource {
                Some(uri) => uri,
                None => Seq::empty(),
            },
        ),
    )
}

/// The warning that a failed question leaves.
pub open spec fn failure_warning(resource: Option<Seq<char>>, error: Seq<char>) -> WarningView {
    WarningView {
        kind: WarningKind::EnrichmentFailed.label(),
        message: "enrichment for "@ + match resource {
            Some(uri) => uri,
            None => "the document"@,
        } + " failed: "@ + error,
    }
}

/// The text of a reply.
pub open spec fn told(reply: Result<Seq<char>, Seq<char>>) -> Option<Seq<char>> {
    match reply {
        Ok(t) => Some(t),
        Err(_) => None,
    }
}

/// The ledger after one reply: a success is counted and, where `keep` says so,
/// cached; a failure is counted and leaves a warning.
pub open spec fn settled(
    l: Ledger,
    key: Seq<char>,
    resource: Option<Seq<char>>,
    keep: bool,
    reply: Result<Seq<char>, Seq<char>>,
) -> Ledger {
    let asked = EnrichReport { attempted: more(l.report.attempted), ..l.report };
    match reply {
        Ok(t) => Ledger {
            report: EnrichReport { succeeded: more(l.report.succeeded), ..asked },
            cache: if keep {
                l.cache.insert(key, t)
            } else {
                l.cache
            },
            ..l
        },
        Err(e) => Ledger {
            report: EnrichReport { failed: more(l.report.failed), ..asked },
            warnings: l.warnings.push(failure_warning(resource, e)),
            ..l
        },
    }
}

/// One question, with the cache in front of it.
pub open spec fn consulted(
    l: Ledger,
    opts: LlmOptions,
    log: Seq<Exchange>,
    prompt: Seq<char>,
    resource: Option<Seq<char>>,
) -> (Ledger, Option<Seq<char>>) {
    let key = key_of(prompt, resource);
    if opts.cache && l.cache.contains_key(key) {
        (
            Ledger { report: EnrichReport { cached: more(l.report.cached), ..l.report }, ..l },
            Some(l.cache[key]),
        )
    } else {
        let reply = log[l.at].reply();
        (
            Ledger {
                at: l.at + 1,
                sound: l.sound && 0 <= l.at < log.len() && log[l.at] == (Exchange::Described {
                    prompt,
                    resource,
                    reply,
                }),
                ..settled(l, key, resource, opts.cache, reply)
            },
            told(reply),
        )
    }
}

/// A pass that may not ask any more counts what it left out.
pub open spec fn over_budget(l: Ledger) -> Ledger {
    Ledger {
        report: EnrichReport {
            skipped_over_budget: more(l.report.skipped_over_budget),
            ..l.report
        },
        ..l
    }
}

pub open spec fn prompt_or(given: Option<String>, default: &str) -> Seq<char> {
    match given {
        Some(t) => t@,
        None => default@,
    }
}

/// The caption that the model's two replies make.
pub open spec fn caption_of(shown: Option<Seq<char>>, read: Option<Seq<char>>) -> Option<Seq<char>> {
    match (shown, read) {
        (Some(t), Some(u)) if text::trimmed(u).len() > 0 => Some(
            t + "\n\n"@ + ("Text in image: "@ + u),
        ),
        (None, Some(u)) if text::trimmed(u).len() > 0 => Some("Text in image: "@ + u),
        (Some(t), _) => Some(t),
        (None, _) => None,
    }
}

/// What enrichment makes of one image. Only a stored resource without a
/// caption is shown to the model.
pub open spec fn image_enriched(
    image: ImageView,
    l: Ledger,
    opts: LlmOptions,
    log: Seq<Exchange>,
) -> (ImageView, Ledger) {
    match image.source {
        ImageRefView::Resource(uri) if image.caption is None => {
            if l.report.attempted >= opts.max_calls_per_document {
                (image, over_budget(l))
            } else {
                let (l1, shown) = if opts.enrich.images.captions() {
                    consulted(
                        l,
                        opts,
                        log,
                        prompt_or(opts.image_prompt, DEFAULT_IMAGE_PROMPT),
                        Some(uri),
                    )
                } else {
                    (l, None)
                };
                let (l2, read) = if opts.enrich.images.reads() && l1.report.attempted
                    < opts.max_calls_per_document {
                    consulted(l1, opts, log, DEFAULT_OCR_PROMPT@, Some(uri))
                } else {
                    (l1, None)
                };
                (ImageView { caption: caption_of(shown, read), ..image }, l2)
            }
        },
        _ => (image, l),
    }
}

/// What enrichment makes of one block, and of the blocks within it.
pub open spec fn block_enriched(
    block: BlockView,
    l: Ledger,
    opts: LlmOptions,
    log: Seq<Exchange>,
) -> (BlockView, Ledger)
    decreases block,
{
    match block {
        BlockView::Image(image) => {
            let (image1, l1) = image_enriched(image, l, opts, log);
            (BlockView::Image(image1), l1)
        },
        BlockView::Quote(inner) => {
            let (inner1, l1) = blocks_enriched(inner, l, opts, log);
            (BlockView::Quote(inner1), l1)
        },
        BlockView::List { ordered, items } => {
            let (items1, l1) = items_enriched(items, l, opts, log);
            (BlockView::List { ordered, items: items1 }, l1)
        },
        BlockView::Embedded { name, doc } => {
            let (blocks1, l1) = blocks_enriched(doc.blocks, l, opts, log);
            (
                BlockView::Embedded {
                    name,
                    doc: Box::new(DocumentView { blocks: blocks1, ..*doc }),
                },
                l1,
            )
        },
        _ => (block, l),
    }
}

/// What enrichment makes of a list of blocks, in order.
pub open spec fn blocks_enriched(
    blocks: Seq<BlockView>,
    l: Ledger,
    opts: LlmOptions,
    log: Seq<Exchange>,
) -> (Seq<BlockView>, Ledger)
    decreases blocks,
{
    if blocks.len() == 0 {
        (blocks, l)
    } else {
        let (before, l1) = blocks_enriched(blocks.drop_last(), l, opts, log);
        let (last, l2) = block_enriched(blocks.last(), l1, opts, log);
        (before.push(last), l2)
    }
}

/// What enrichment makes of the items of a list, in order.
pub open spec fn items_enriched(
    items: Seq<Seq<BlockView>>,
    l: Ledger,
    opts: LlmOptions,
    log: Seq<Exchange>,
) -> (Seq<Seq<BlockView>>, Ledger)
    decreases items,
{
    if items.len() == 0 {
        (items, l)
    } else {
        let (before, l1) = items_enriched(items.drop_last(), l, opts, log);
        let (last, l2) = blocks_enriched(items.last(), l1, opts, log);
        (before.push(last), l2)
    }
}

proof fn lemma_consulted_extends(
    l: Ledger,
    opts: LlmOptions,
    log: Seq<Exchange>,
    longer: Seq<Exchange>,
    prompt: Seq<char>,
    resource: Option<Seq<char>>,
)
    requires
        log.is_prefix_of(longer),
        consulted(l, opts, log, prompt, resource).0.sound,
    ensures
        l.sound,
        consulted(l, opts, longer, prompt, resource) == consulted(l, opts, log, prompt, resource),
{
}

proof fn lemma_image_extends(
    image: ImageView,
    l: Ledger,
    opts: LlmOptions,
    log: Seq<Exchange>,
    longer: Seq<Exchange>,
)
    requires
        log.is_prefix_of(longer),
        image_enriched(image, l, opts, log).1.sound,
    ensures
        l.sound,
        image_enriched(image, l, opts, longer) == image_enriched(image, l, opts, log),
{
}

proof fn lemma_block_extends(
    block: BlockView,
    l: Ledger,
    opts: LlmOptions,
    log: Seq<Exchange>,
    longer: Seq<Exchange>,
)
    requires
        log.is_prefix_of(longer),
        block_enriched(block, l, opts, log).1.sound,
    ensures
        l.sound,
        block_enriched(block, l, opts, longer) == block_enriched(block, l, opts, log),
    decreases block,
{
    match block {
        BlockView::Image(image) => {
            lemma_image_extends(image, l, opts, log, longer);
        },
        BlockView::Quote(inner) => {
            lemma_blocks_extend(inner, l, opts, log, longer);
        },
        BlockView::List { ordered, items } => {
            lemma_items_extend(items, l, opts, log, longer);
        },
        BlockView::Embedded { name, doc } => {
            lemma_blocks_extend(doc.blocks, l, opts, log, longer);
        },
        _ => {},
    }
}

proof fn lemma_blocks_extend(
    blocks: Seq<BlockView>,
    l: Ledger,
    opts: LlmOptions,
    log: Seq<Exchange>,
    longer: Seq<Exchange>,
)
    requires
        log.is_prefix_of(longer),
        blocks_enriched(blocks, l, opts, log).1.sound,
    ensures
        l.sound,
        blocks_enriched(blocks, l, opts, longer) == blocks_enriched(blocks, l, opts, log),
    decreases blocks,
{
    if blocks.len() > 0 {
        let l1 = blocks_enriched(blocks.drop_last(), l, opts, log).1;
        lemma_block_extends(blocks.last(), l1, opts, log, longer);
        lemma_blocks_extend(blocks.drop_last(), l, opts, log, longer);
    }
}

proof fn lemma_items_extend(
    items: Seq<Seq<BlockView>>,
    l: Ledger,
    opts: LlmOptions,
    log: Seq<Exchange>,
    longer: Seq<Exchange>,
)
    requires
        log.is_prefix_of(longer),
        items_enriched(items, l, opts, log).1.sound,
    ensures
        l.sound,
        items_enriched(items, l, opts, longer) == items_enriched(items, l, opts, log),
    decreases items,
{
    if items.len() > 0 {
        let l1 = items_enriched(items.drop_last(), l, opts, log).1;
        lemma_blocks_extend(items.last(), l1, opts, log, longer);
        lemma_items_extend(items.drop_last(), l, opts, log, longer);
    }
}

/// The source document, for passes that need the original bytes rather than
/// something already in the content store.
#[derive(Clone, Copy)]
pub struct Source<'a> {
    pub bytes: &'a [u8],
    pub mime: &'a str,
    /// Set when the bytes already live in the content store, so a second copy
    /// is not stored.
    pub uri: Option<&'a str>,
}

/// What a [`Source`] says.
pub struct SourceView {
    pub bytes: Seq<u8>,
    pub mime: Seq<char>,
    pub uri: Option<Seq<char>>,
}

impl<'a> Source<'a> {
    pub open spec fn view(&self) -> SourceView {
        SourceView { bytes: self.bytes@, mime: self.mime@, uri: text::str_of(self.uri) }
    }
}

pub open spec fn source_of(source: Option<Source<'_>>) -> Option<SourceView> {
    match source {
        Some(s) => Some(s@),
        None => None,
    }
}

/// The first index at or after `from` that holds the audio placeholder.
pub open spec fn placeholder_from(blocks: Seq<BlockView>, from: int) -> Option<int>
    decreases blocks.len() - from,
{
    if from >= blocks.len() {
        None
    } else if blocks[from] == BlockView::Paragraph(PLACEHOLDER@) {
        Some(from)
    } else {
        placeholder_from(blocks, from + 1)
    }
}

/// Where the audio of a document is.
pub open spec fn audio_uri(metadata: Map<Seq<char>, Seq<char>>) -> Option<Seq<char>> {
    if metadata.contains_key("source_uri"@) {
        Some(metadata["source_uri"@])
    } else if metadata.contains_key("resource_uri"@) {
        Some(metadata["resource_uri"@])
    } else {
        None
    }
}

/// What the audio pass makes of a document: the first placeholder becomes the
/// transcript.
pub open spec fn audio_enriched(
    doc: DocumentView,
    l: Ledger,
    opts: LlmOptions,
    log: Seq<Exchange>,
) -> (DocumentView, Ledger) {
    match (audio_uri(doc.metadata), placeholder_from(doc.blocks, 0)) {
        (Some(uri), Some(i)) => {
            if l.report.attempted >= opts.max_calls_per_document {
                (doc, over_budget(l))
            } else {
                let (l1, heard) = consulted(
                    l,
                    opts,
                    log,
                    prompt_or(opts.audio_prompt, DEFAULT_AUDIO_PROMPT),
                    Some(uri),
                );
                match heard {
                    Some(t) => (
                        DocumentView {
                            blocks: doc.blocks.update(i, BlockView::Paragraph(text::trimmed(t))),
                            ..doc
                        },
                        l1,
                    ),
                    None => (doc, l1),
                }
            }
        },
        _ => (doc, l),
    }
}

/// The pages of a document that carry no text layer, as the PDF converter
/// listed them.
pub open spec fn scanned_pages(metadata: Map<Seq<char>, Seq<char>>) -> Option<Seq<char>> {
    if metadata.contains_key(SCANNED_PAGES_KEY@) && metadata[SCANNED_PAGES_KEY@].len() > 0 {
        Some(metadata[SCANNED_PAGES_KEY@])
    } else {
        None
    }
}

/// Puts the source in the content store, unless it is there.
pub open spec fn deposited(l: Ledger, log: Seq<Exchange>, source: SourceView) -> (
    Ledger,
    Option<Seq<char>>,
) {
    match source.uri {
        Some(uri) => (l, Some(uri)),
        None => {
            let reply = log[l.at].reply();
            let l1 = Ledger {
                at: l.at + 1,
                sound: l.sound && 0 <= l.at < log.len() && log[l.at] == (Exchange::Stored {
                    bytes: source.bytes,
                    mime: source.mime,
                    reply,
                }),
                ..l
            };
            match reply {
                Ok(uri) => (l1, Some(uri)),
                Err(e) => (
                    Ledger {
                        report: EnrichReport { failed: more(l.report.failed), ..l.report },
                        warnings: l.warnings.push(
                            WarningView {
                                kind: WarningKind::EnrichmentFailed.label(),
                                message: "could not store the PDF for OCR: "@ + e,
                            },
                        ),
                        ..l1
                    },
                    None,
                ),
            }
        },
    }
}

/// The document with the model's reading of its scanned pages, under a heading
/// that says so.
pub open spec fn transcribed(doc: DocumentView, scanned: Seq<char>, t: Seq<char>) -> DocumentView {
    let pages = if doc.metadata.contains_key(PAGE_COUNT_KEY@) {
        doc.metadata[PAGE_COUNT_KEY@]
    } else {
        "?"@
    };
    DocumentView {
        blocks: doc.blocks.push(
            BlockView::Heading {
                level: 2,
                text: "Scanned pages "@ + scanned + " of "@ + pages + " (transcribed)"@,
            },
        ).push(BlockView::Raw { markdown: t }),
        warnings: doc.warnings.push(
            WarningView {
                kind: WarningKind::Degraded.label(),
                message: "pages "@ + scanned
                    + " carried no text layer and were transcribed by a model; \
                     treat that section as a reading, not as the document's own text"@,
            },
        ),
        ..doc
    }
}

/// What the PDF pass makes of a document: the model's reading of the scanned
/// pages is appended.
pub open spec fn pdf_enriched(
    doc: DocumentView,
    l: Ledger,
    opts: LlmOptions,
    log: Seq<Exchange>,
    source: SourceView,
) -> (DocumentView, Ledger) {
    match scanned_pages(doc.metadata) {
        None => (doc, l),
        Some(scanned) => {
            if l.report.attempted >= opts.max_calls_per_document {
                (doc, over_budget(l))
            } else {
                let (l1, uri) = deposited(l, log, source);
                match uri {
                    None => (doc, l1),
                    Some(u) => {
                        let (l2, read) = consulted(
                            l1,
                            opts,
                            log,
                            prompt_or(opts.pdf_prompt, DEFAULT_PDF_OCR_PROMPT),
                            Some(u),
                        );
                        match read {
                            None => (doc, l2),
                            Some(t) => {
                                if text::trimmed(t).len() == 0 {
                                    (
                                        doc,
                                        Ledger {
                                            warnings: l2.warnings.push(
                                                WarningView {
                                                    kind: WarningKind::EnrichmentFailed.label(),
                                                    message:
                                                        "OCR returned nothing for the scanned pages"@,
                                                },
                                            ),
                                            ..l2
                                        },
                                    )
                                } else {
                                    (transcribed(doc, scanned, text::trimmed(t)), l2)
                                }
                            },
                        }
                    },
                }
            }
        },
    }
}

/// The ledger that a pass starts with.
pub open spec fn opened(cache: Map<Seq<char>, Seq<char>>) -> Ledger {
    Ledger { cache, report: blank_report(), warnings: Seq::empty(), at: 0, sound: true }
}

/// The warning of a pass that had no binding to ask.
pub open spec fn unbound() -> WarningView {
    WarningView {
        kind: WarningKind::EnrichmentFailed.label(),
        message: "llm.enrich is set but llm.binding names no LLM binding"@,
    }
}

/// The warning of a pass that ran out of calls, where it did.
pub open spec fn spent(report: EnrichReport, opts: LlmOptions) -> Seq<WarningView> {
    if report.skipped_over_budget > 0 {
        seq![
            WarningView {
                kind: WarningKind::EnrichmentFailed.label(),
                message: "llm.max_calls_per_document ("@ + text::decimal(
                    opts.max_calls_per_document as nat,
                ) + ") is exhausted; left without enrichment: "@ + text::decimal(
                    report.skipped_over_budget as nat,
                ),
            },
        ]
    } else {
        Seq::empty()
    }
}

/// What a whole pass makes of a document, given the exchanges with the host.
pub open spec fn enriched(
    doc: DocumentView,
    opts: LlmOptions,
    cache: Map<Seq<char>, Seq<char>>,
    source: Option<SourceView>,
    log: Seq<Exchange>,
) -> (DocumentView, Ledger) {
    let l0 = opened(cache);
    if !opts.enrich.wanted() {
        (doc, l0)
    } else if opts.binding is None {
        (DocumentView { warnings: doc.warnings.push(unbound()), ..doc }, l0)
    } else {
        let (doc1, l1) = if opts.enrich.images.captions() || opts.enrich.images.reads() {
            let (blocks, l) = blocks_enriched(doc.blocks, l0, opts, log);
            (DocumentView { blocks, ..doc }, l)
        } else {
            (doc, l0)
        };
        let (doc2, l2) = if opts.enrich.audio == AudioEnrichment::Transcribe {
            audio_enriched(doc1, l1, opts, log)
        } else {
            (doc1, l1)
        };
        let (doc3, l3) = if opts.enrich.pdf == PdfEnrichment::Ocr && source is Some {
            pdf_enriched(doc2, l2, opts, log, source->0)
        } else {
            (doc2, l2)
        };
        (
            DocumentView {
                warnings: doc3.warnings + l3.warnings + spent(l3.report, opts),
                ..doc3
            },
            l3,
        )
    }
}

/// Whether a pass that exchanged `log` with the host makes of a document and a
/// cache what `made` holds: the pass asked exactly what is in the log, in that
/// order, and the rest is what it makes of the replies.
#[verifier::opaque]
pub open spec fn passes(
    doc: DocumentView,
    opts: LlmOptions,
    cache: Map<Seq<char>, Seq<char>>,
    source: Option<SourceView>,
    log: Seq<Exchange>,
    made: (DocumentView, Map<Seq<char>, Seq<char>>, EnrichReport),
) -> bool {
    let (out, l) = enriched(doc, opts, cache, source, log);
    &&& l.sound
    &&& l.at == log.len()
    &&& made == (out, l.cache, l.report)
}

/// Whether a stored image of this URI stands in the block or within it, and
/// has no caption yet.
pub open spec fn awaits(block: BlockView, uri: Seq<char>) -> bool
    decreases block,
{
    match block {
        BlockView::Image(image) => image.caption is None && image.source
            == ImageRefView::Resource(uri),
        BlockView::Quote(inner) => any_awaits(inner, uri),
        BlockView::List { ordered, items } => exists|i: int|
            #![trigger items[i]]
            0 <= i < items.len() && any_awaits(items[i], uri),
        BlockView::Embedded { name, doc } => any_awaits(doc.blocks, uri),
        _ => false,
    }
}

/// The same of a list of blocks.
pub open spec fn any_awaits(blocks: Seq<BlockView>, uri: Seq<char>) -> bool
    decreases blocks,
{
    exists|i: int| #![trigger blocks[i]] 0 <= i < blocks.len() && awaits(blocks[i], uri)
}

/// Whether the cache holds the reply to a question, and may be used.
pub open spec fn known(
    opts: LlmOptions,
    cache: Map<Seq<char>, Seq<char>>,
    prompt: Seq<char>,
    resource: Option<Seq<char>>,
) -> bool {
    opts.cache && cache.contains_key(key_of(prompt, resource))
}

/// Whether the profile has this asked of images.
pub open spec fn asked_of_images(opts: LlmOptions, prompt: Seq<char>) -> bool {
    ||| opts.enrich.images.captions() && prompt == prompt_or(
        opts.image_prompt,
        DEFAULT_IMAGE_PROMPT,
    )
    ||| opts.enrich.images.reads() && prompt == DEFAULT_OCR_PROMPT@
}

/// What enrichment has to ask the model about what is in the content store:
/// where the profile says so, about an image without a caption, about the audio
/// behind a placeholder, or about the source of scanned pages; but nothing that
/// the cache holds the reply to.
pub open spec fn asks(
    doc: DocumentView,
    opts: LlmOptions,
    cache: Map<Seq<char>, Seq<char>>,
    source: Option<SourceView>,
    prompt: Seq<char>,
    uri: Seq<char>,
) -> bool {
    &&& opts.binding is Some
    &&& opts.max_calls_per_document > 0
    &&& !known(opts, cache, prompt, Some(uri))
    &&& {
        ||| asked_of_images(opts, prompt) && any_awaits(doc.blocks, uri)
        ||| opts.enrich.audio == AudioEnrichment::Transcribe && prompt == prompt_or(
            opts.audio_prompt,
            DEFAULT_AUDIO_PROMPT,
        ) && audio_uri(doc.metadata) == Some(uri) && placeholder_from(doc.blocks, 0) is Some
        ||| opts.enrich.pdf == PdfEnrichment::Ocr && prompt == prompt_or(
            opts.pdf_prompt,
            DEFAULT_PDF_OCR_PROMPT,
        ) && scanned_pages(doc.metadata) is Some && source is Some && source->0.uri == Some(uri)
    }
}

/// Whether enrichment has to put the source in the content store: where the
/// profile says so, for scanned pages, and only where it is not there.
pub open spec fn deposits(doc: DocumentView, opts: LlmOptions, source: Option<SourceView>) -> bool {
    &&& opts.binding is Some
    &&& opts.max_calls_per_document > 0
    &&& opts.enrich.pdf == PdfEnrichment::Ocr
    &&& scanned_pages(doc.metadata) is Some
    &&& source is Some
    &&& source->0.uri is None
}

/// The key of a question in the cache. Content-addressed: the same bytes and
/// the same prompt yield the same key.
pub fn cache_key(prompt: &str, resource: Option<&str>) -> (r: String)
    ensures
        r@ == key_of(prompt@, text::str_of(resource)),
{
    let mut input = prompt.as_bytes_vec();
    input.push(0);
    if let Some(uri) = resource {
        let mut rest = uri.as_bytes_vec();
        input.append(&mut rest);
    }
    let ghost tail = match resource {
        Some(uri) => vstd::utf8::encode_utf8(uri@),
        None => vstd::utf8::encode_utf8(Seq::empty()),
    };
    assert(input@ =~= vstd::utf8::encode_utf8(prompt@) + seq![0u8] + tail);
    codec::hash_hex(input.as_slice())
}

/// Takes one reply of the model into account. `None` on a failure, with a
/// warning recorded: never an error, because enrichment must not be able to
/// fail a conversion.
pub fn settle(
    reply: Result<String, String>,
    key: String,
    resource: Option<&str>,
    keep: bool,
    cache: &mut EnrichmentCache,
    report: &mut EnrichReport,
    warnings: &mut Vec<Warning>,
) -> (r: Option<String>)
    ensures
        text::text_of(r) == told(reply_of(reply)),
        ({
            let l = settled(
                Ledger {
                    cache: old(cache)@,
                    report: *old(report),
                    warnings: document::warnings_of(old(warnings)@),
                    at: 0,
                    sound: true,
                },
                key@,
                text::str_of(resource),
                keep,
                reply_of(reply),
            );
            &&& final(cache)@ == l.cache
            &&& *final(report) == l.report
            &&& document::warnings_of(final(warnings)@) == l.warnings
        }),
{
    report.attempted = report.attempted.saturating_add(1);
    match reply {
        Ok(told) => {
            report.succeeded = report.succeeded.saturating_add(1);
            if keep {
                cache.insert(key, told.clone());
            }
            Some(told)
        },
        Err(e) => {
            report.failed = report.failed.saturating_add(1);
            let mut message = "enrichment for ".to_owned();
            message.append(
                match resource {
                    Some(uri) => uri,
                    None => "the document",
                },
            );
            message.append(" failed: ");
            message.append(e.as_str());
            warnings.push(Warning::new(WarningKind::EnrichmentFailed, message));
            assert(document::warnings_of(warnings@) =~= document::warnings_of(
                old(warnings)@,
            ).push(failure_warning(text::str_of(resource), e@)));
            None
        },
    }
}

/// A pass in progress.
struct Pass<'a> {
    opts: &'a LlmOptions,
    cache: EnrichmentCache,
    report: EnrichReport,
    warnings: Vec<Warning>,
    /// What had passed with the host before.
    start: Ghost<Seq<Exchange>>,
    log: Ghost<Seq<Exchange>>,
}

impl<'a> Pass<'a> {
    spec fn ledger(&self) -> Ledger {
        Ledger {
            cache: self.cache@,
            report: self.report,
            warnings: document::warnings_of(self.warnings@),
            at: self.log@.len() as int,
            sound: true,
        }
    }

    /// The host was asked what the log of the pass says, and nothing else.
    spec fn kept<E: Enricher>(&self, host: &E) -> bool {
        host.exchanges() == self.start@ + self.log@
    }

    /// `self` is `before` after some more exchanges.
    spec fn follows(&self, before: &Self) -> bool {
        &&& self.opts == before.opts
        &&& self.start == before.start
        &&& before.log@.is_prefix_of(self.log@)
    }

    /// One dispatch, with the cache in front of it.
    fn consult<E: Enricher>(&mut self, host: &mut E, prompt: &str, resource: Option<&str>) -> (r: Option<String>)
        requires
            old(self).kept(old(host)),
        ensures
            final(self).follows(old(self)),
            final(self).kept(final(host)),
            consulted(
                old(self).ledger(),
                *final(self).opts,
                final(self).log@,
                prompt@,
                text::str_of(resource),
            ) == (final(self).ledger(), text::text_of(r)),
    {
        let key = cache_key(prompt, resource);
        if self.opts.cache {
            if let Some(hit) = self.cache.get(key.as_str()) {
                self.report.cached = self.report.cached.saturating_add(1);
                return Some(hit);
            }
        }
        let reply = host.describe(prompt, resource);
        proof {
            let x = Exchange::Described {
                prompt: prompt@,
                resource: text::str_of(resource),
                reply: reply_of(reply),
            };
            assert(self.start@ + self.log@.push(x) =~= (self.start@ + self.log@).push(x));
            self.log@ = self.log@.push(x);
        }
        settle(
            reply,
            key,
            resource,
            self.opts.cache,
            &mut self.cache,
            &mut self.report,
            &mut self.warnings,
        )
    }

    fn skip(&mut self)
        ensures
            final(self).follows(old(self)),
            final(self).log == old(self).log,
            final(self).ledger() == over_budget(old(self).ledger()),
    {
        self.report.skipped_over_budget = self.report.skipped_over_budget.saturating_add(1);
    }

    fn enrich_image<E: Enricher>(&mut self, host: &mut E, image: &mut Image)
        requires
            old(self).kept(old(host)),
        ensures
            final(self).follows(old(self)),
            final(self).kept(final(host)),
            image_enriched(
                old(image)@,
                old(self).ledger(),
                *final(self).opts,
                final(self).log@,
            ) == (final(image)@, final(self).ledger()),
    {
        // Only a stored resource can be read by a model. A URL found inside a
        // document is never fetched.
        let uri = match &image.source {
            ImageRef::Resource(uri) => uri.clone(),
            _ => {
                return;
            },
        };
        if image.caption.is_some() {
            return;
        }
        if self.report.attempted >= self.opts.max_calls_per_document {
            self.skip();
            return;
        }
        let opts = self.opts;
        let ghost start = *self;
        let mut caption: Option<String> = None;
        if matches!(opts.enrich.images, ImageEnrichment::Caption | ImageEnrichment::CaptionAndOcr) {
            let prompt = match &opts.image_prompt {
                Some(p) => p.as_str(),
                None => DEFAULT_IMAGE_PROMPT,
            };
            caption = self.consult(host, prompt, Some(uri.as_str()));
        }
        let ghost shown = *self;
        let ghost shown_text = text::text_of(caption);
        let ghost mut read_text: Option<Seq<char>> = None;
        if matches!(opts.enrich.images, ImageEnrichment::Ocr | ImageEnrichment::CaptionAndOcr)
            && self.report.attempted < opts.max_calls_per_document {
            let read = self.consult(host, DEFAULT_OCR_PROMPT, Some(uri.as_str()));
            proof {
                read_text = text::text_of(read);
            }
            if let Some(t) = read {
                if !text::trim(t.as_str()).is_empty() {
                    let mut part = "Text in image: ".to_owned();
                    part.append(t.as_str());
                    caption = match caption {
                        Some(before) => {
                            let mut both = before;
                            both.append("\n\n");
                            both.append(part.as_str());
                            Some(both)
                        },
                        None => Some(part),
                    };
                }
            }
        }
        proof {
            if opts.enrich.images.captions() {
                lemma_consulted_extends(
                    start.ledger(),
                    *opts,
                    shown.log@,
                    self.log@,
                    prompt_or(opts.image_prompt, DEFAULT_IMAGE_PROMPT),
                    Some(uri@),
                );
            }
        }
        image.caption = caption;
        assert(text::text_of(caption) == caption_of(shown_text, read_text));
    }

    fn enrich_block<E: Enricher>(&mut self, host: &mut E, block: &mut Block)
        requires
            old(self).kept(old(host)),
        ensures
            final(self).follows(old(self)),
            final(self).kept(final(host)),
            block_enriched(
                old(block)@,
                old(self).ledger(),
                *final(self).opts,
                final(self).log@,
            ) == (final(block)@, final(self).ledger()),
        decreases *old(block),
    {
        match block {
            Block::Image(image) => {
                self.enrich_image(host, image);
            },
            // Descend so an image inside an archive member or a quote is
            // reached too.
            Block::Quote(inner) => {
                self.enrich_blocks(host, inner);
            },
            Block::List { items, .. } => {
                self.enrich_items(host, items);
            },
            Block::Embedded { doc, .. } => {
                self.enrich_blocks(host, &mut doc.blocks);
            },
            _ => {},
        }
    }

    fn enrich_blocks<E: Enricher>(&mut self, host: &mut E, blocks: &mut Vec<Block>)
        requires
            old(self).kept(old(host)),
        ensures
            final(self).follows(old(self)),
            final(self).kept(final(host)),
            blocks_enriched(
                document::blocks_of(old(blocks)@),
                old(self).ledger(),
                *final(self).opts,
                final(self).log@,
            ) == (document::blocks_of(final(blocks)@), final(self).ledger()),
        decreases *old(blocks),
    {
        let mut i: usize = 0;
        let ghost before = blocks@;
        let ghost l0 = self.ledger();
        let ghost opts = *self.opts;
        assert(document::blocks_of(before.take(0)) =~= Seq::empty());
        assert(document::blocks_of(blocks@.take(0)) =~= Seq::empty());
        while i < blocks.len()
            invariant
                i <= blocks@.len() == before.len(),
                before == old(blocks)@,
                l0 == old(self).ledger(),
                opts == *old(self).opts,
                self.follows(old(self)),
                self.kept(host),
                forall|j: int| i <= j < before.len() ==> blocks@[j] == before[j],
                blocks_enriched(
                    document::blocks_of(before.take(i as int)),
                    l0,
                    opts,
                    self.log@,
                ) == (document::blocks_of(blocks@.take(i as int)), self.ledger()),
            decreases blocks@.len() - i,
        {
            let ghost log = self.log@;
            assert(decreases_to!(*old(blocks) => old(blocks)@[i as int]));
            self.enrich_block(host, &mut blocks[i]);
            proof {
                let done = document::blocks_of(before.take(i as int));
                lemma_blocks_extend(done, l0, opts, log, self.log@);
                let next = document::blocks_of(before.take(i + 1));
                assert(next.drop_last() =~= done);
                assert(document::blocks_of(blocks@.take(i + 1)) =~= document::blocks_of(
                    blocks@.take(i as int),
                ).push(blocks@[i as int]@));
            }
            i = i + 1;
        }
        assert(before.take(i as int) =~= before);
        assert(blocks@.take(i as int) =~= blocks@);
    }

    fn enrich_items<E: Enricher>(&mut self, host: &mut E, items: &mut Vec<Vec<Block>>)
        requires
            old(self).kept(old(host)),
        ensures
            final(self).follows(old(self)),
            final(self).kept(final(host)),
            items_enriched(
                document::items_of(old(items)@),
                old(self).ledger(),
                *final(self).opts,
                final(self).log@,
            ) == (document::items_of(final(items)@), final(self).ledger()),
        decreases *old(items),
    {
        let mut i: usize = 0;
        let ghost before = items@;
        let ghost l0 = self.ledger();
        let ghost opts = *self.opts;
        assert(document::items_of(before.take(0)) =~= Seq::empty());
        assert(document::items_of(items@.take(0)) =~= Seq::empty());
        while i < items.len()
            invariant
                i <= items@.len() == before.len(),
                before == old(items)@,
                l0 == old(self).ledger(),
                opts == *old(self).opts,
                self.follows(old(self)),
                self.kept(host),
                forall|j: int| i <= j < before.len() ==> items@[j] == before[j],
                items_enriched(
                    document::items_of(before.take(i as int)),
                    l0,
                    opts,
                    self.log@,
                ) == (document::items_of(items@.take(i as int)), self.ledger()),
            decreases items@.len() - i,
        {
            let ghost log = self.log@;
            assert(decreases_to!(*old(items) => old(items)@[i as int]));
            self.enrich_blocks(host, &mut items[i]);
            proof {
                let done = document::items_of(before.take(i as int));
                lemma_items_extend(done, l0, opts, log, self.log@);
                let next = document::items_of(before.take(i + 1));
                assert(next.drop_last() =~= done);
                assert(document::items_of(items@.take(i + 1)) =~= document::items_of(
                    items@.take(i as int),
                ).push(document::blocks_of(items@[i as int]@)));
            }
            i = i + 1;
        }
        assert(before.take(i as int) =~= before);
        assert(items@.take(i as int) =~= items@);
    }

    /// Replaces the audio converter's placeholder paragraph with a transcript.
    fn enrich_audio<E: Enricher>(&mut self, host: &mut E, doc: &mut Document)
        requires
            old(self).kept(old(host)),
        ensures
            final(self).follows(old(self)),
            final(self).kept(final(host)),
            audio_enriched(
                old(doc)@,
                old(self).ledger(),
                *final(self).opts,
                final(self).log@,
            ) == (final(doc)@, final(self).ledger()),
    {
        let uri = match doc.metadata.get("source_uri") {
            Some(u) => u.to_owned(),
            None => match doc.metadata.get("resource_uri") {
                Some(u) => u.to_owned(),
                None => {
                    return;
                },
            },
        };
        let place = match placeholder(&doc.blocks) {
            Some(i) => i,
            None => {
                return;
            },
        };
        if self.report.attempted >= self.opts.max_calls_per_document {
            self.skip();
            return;
        }
        let opts = self.opts;
        let prompt = match &opts.audio_prompt {
            Some(p) => p.as_str(),
            None => DEFAULT_AUDIO_PROMPT,
        };
        if let Some(heard) = self.consult(host, prompt, Some(uri.as_str())) {
            doc.blocks[place] = Block::Paragraph(Inline::text(text::trim(heard.as_str())));
            assert(document::blocks_of(doc.blocks@) =~= document::blocks_of(
                old(doc).blocks@,
            ).update(place as int, BlockView::Paragraph(text::trimmed(heard@))));
        }
    }

    /// Something the model can read the source under.
    fn deposit<E: Enricher>(&mut self, host: &mut E, source: Source<'_>) -> (r: Option<String>)
        requires
            old(self).kept(old(host)),
        ensures
            final(self).follows(old(self)),
            final(self).kept(final(host)),
            deposited(old(self).ledger(), final(self).log@, source@) == (
                final(self).ledger(),
                text::text_of(r),
            ),
    {
        if let Some(uri) = source.uri {
            return Some(uri.to_owned());
        }
        let reply = host.store(source.bytes, source.mime);
        proof {
            let x = Exchange::Stored {
                bytes: source.bytes@,
                mime: source.mime@,
                reply: reply_of(reply),
            };
            assert(self.start@ + self.log@.push(x) =~= (self.start@ + self.log@).push(x));
            self.log@ = self.log@.push(x);
        }
        match reply {
            Ok(uri) => Some(uri),
            Err(e) => {
                self.report.failed = self.report.failed.saturating_add(1);
                let mut message = "could not store the PDF for OCR: ".to_owned();
                message.append(e.as_str());
                self.warn(message);
                None
            },
        }
    }

    fn warn(&mut self, message: String)
        ensures
            final(self).follows(old(self)),
            final(self).log == old(self).log,
            final(self).ledger() == (Ledger {
                warnings: old(self).ledger().warnings.push(
                    WarningView { kind: WarningKind::EnrichmentFailed.label(), message: message@ },
                ),
                ..old(self).ledger()
            }),
    {
        self.warnings.push(Warning::new(WarningKind::EnrichmentFailed, message));
        assert(document::warnings_of(self.warnings@) =~= document::warnings_of(
            old(self).warnings@,
        ).push(self.warnings@.last()@));
    }

    /// Reads a scanned PDF with the vision model.
    ///
    /// The whole document goes to the model rather than page images, because
    /// rasterising a page needs a renderer.
    fn enrich_pdf<E: Enricher>(&mut self, host: &mut E, doc: &mut Document, source: Source<'_>)
        requires
            old(self).kept(old(host)),
        ensures
            final(self).follows(old(self)),
            final(self).kept(final(host)),
            pdf_enriched(
                old(doc)@,
                old(self).ledger(),
                *final(self).opts,
                final(self).log@,
                source@,
            ) == (final(doc)@, final(self).ledger()),
    {
        let scanned = match doc.metadata.get(SCANNED_PAGES_KEY) {
            Some(pages) => pages.to_owned(),
            None => {
                return;
            },
        };
        if scanned.as_str().is_empty() {
            return;
        }
        if self.report.attempted >= self.opts.max_calls_per_document {
            self.skip();
            return;
        }
        let opts = self.opts;
        let ghost start = *self;
        // An inline upload has no URI yet, so it is stored once here.
        let uri = match self.deposit(host, source) {
            Some(u) => u,
            None => {
                return;
            },
        };
        let ghost stored = *self;
        let prompt = match &opts.pdf_prompt {
            Some(p) => p.as_str(),
            None => DEFAULT_PDF_OCR_PROMPT,
        };
        let read = self.consult(host, prompt, Some(uri.as_str()));
        proof {
            lemma_deposited_extends(start.ledger(), stored.log@, self.log@, source@);
        }
        let full = match read {
            Some(t) => t,
            None => {
                return;
            },
        };
        let t = text::trim(full.as_str());
        if t.is_empty() {
            self.warn("OCR returned nothing for the scanned pages".to_owned());
            return;
        }
        append_transcript(doc, scanned.as_str(), t);
    }
}

proof fn lemma_deposited_extends(
    l: Ledger,
    log: Seq<Exchange>,
    longer: Seq<Exchange>,
    source: SourceView,
)
    requires
        log.is_prefix_of(longer),
        deposited(l, log, source).0.sound,
    ensures
        l.sound,
        deposited(l, longer, source) == deposited(l, log, source),
{
}

fn placeholder(blocks: &Vec<Block>) -> (r: Option<usize>)
    ensures
        match r {
            Some(i) => i < blocks@.len() && placeholder_from(document::blocks_of(blocks@), 0)
                == Some(i as int),
            None => placeholder_from(document::blocks_of(blocks@), 0) is None,
        },
{
    let mut i: usize = 0;
    while i < blocks.len()
        invariant
            i <= blocks@.len(),
            placeholder_from(document::blocks_of(blocks@), 0) == placeholder_from(
                document::blocks_of(blocks@),
                i as int,
            ),
        decreases blocks@.len() - i,
    {
        if let Block::Paragraph(inline) = &blocks[i] {
            if text::same(inline.plain.as_str(), PLACEHOLDER) {
                return Some(i);
            }
        }
        i = i + 1;
    }
    None
}

/// A heading rather than a silent splice: a reader must be able to tell
/// model-transcribed text from text the document actually carried.
fn append_transcript(doc: &mut Document, scanned: &str, t: &str)
    ensures
        final(doc)@ == transcribed(old(doc)@, scanned@, t@),
{
    let pages = match doc.metadata.get(PAGE_COUNT_KEY) {
        Some(n) => n.to_owned(),
        None => "?".to_owned(),
    };
    let mut heading = "Scanned pages ".to_owned();
    heading.append(scanned);
    heading.append(" of ");
    heading.append(pages.as_str());
    heading.append(" (transcribed)");
    let mut message = "pages ".to_owned();
    message.append(scanned);
    message.append(
        " carried no text layer and were transcribed by a model; \
                     treat that section as a reading, not as the document's own text",
    );
    doc.blocks.push(Block::Heading { level: 2, text: Inline::text(heading.as_str()) });
    doc.blocks.push(Block::Raw { markdown: t.to_owned() });
    doc.warnings.push(Warning::new(WarningKind::Degraded, message));
    assert(doc@.blocks =~= transcribed(old(doc)@, scanned@, t@).blocks);
    assert(doc@.warnings =~= transcribed(old(doc)@, scanned@, t@).warnings);
}

fn exhausted(calls: u32, left: u32) -> (r: String)
    ensures
        r@ == "llm.max_calls_per_document ("@ + text::decimal(calls as nat)
            + ") is exhausted; left without enrichment: "@ + text::decimal(left as nat),
{
    let mut r = text::concat3(
        "llm.max_calls_per_document (",
        text::decimal_text(calls as u64).as_str(),
        ") is exhausted; left without enrichment: ",
    );
    r.append(text::decimal_text(left as u64).as_str());
    r
}

/// Enriches `doc` in place. Returns what happened, for metrics.
///
/// Whatever the host replies, the document, the cache and the report are what
/// [`enriched`] makes of the exchanges with it, and each of these is one that
/// the pass had to make: nothing else is asked.
#[verifier::rlimit(40)]
pub fn enrich<E: Enricher>(
    doc: &mut Document,
    opts: &LlmOptions,
    enricher: &mut E,
    cache: &mut EnrichmentCache,
    source: Option<Source<'_>>,
) -> (report: EnrichReport)
    ensures
        old(enricher).exchanges().is_prefix_of(final(enricher).exchanges()),
        passes(
            old(doc)@,
            *opts,
            old(cache)@,
            source_of(source),
            since(old(enricher).exchanges(), final(enricher).exchanges()),
            (final(doc)@, final(cache)@, report),
        ),
{
    let images_on = opts.enrich.images.is_on();
    let audio_on = opts.enrich.audio.is_on();
    let pdf_on = opts.enrich.pdf.is_on();
    let ghost doc0 = doc@;
    let ghost cache0 = cache@;
    let wanted = images_on || audio_on || pdf_on;
    if !wanted || opts.binding.is_none() {
        if wanted {
            let message = "llm.enrich is set but llm.binding names no LLM binding".to_owned();
            doc.warnings.push(Warning::new(WarningKind::EnrichmentFailed, message));
            assert(doc@.warnings =~= doc0.warnings.push(unbound()));
        }
        proof {
            reveal(passes);
            assert(since(enricher.exchanges(), enricher.exchanges()) =~= Seq::empty());
        }
        return EnrichReport::default();
    }
    let ghost before = enricher.exchanges();
    let mut pass = Pass {
        opts,
        cache: EnrichmentCache::new(),
        report: EnrichReport::default(),
        warnings: Vec::new(),
        start: Ghost(before),
        log: Ghost(Seq::empty()),
    };
    assert(before + Seq::<Exchange>::empty() =~= before);
    std::mem::swap(&mut pass.cache, cache);
    assert(pass.ledger().warnings =~= Seq::empty());
    assert(pass.ledger() == opened(cache0));
    if images_on {
        pass.enrich_blocks(enricher, &mut doc.blocks);
    }
    let ghost log1 = pass.log@;
    let ghost doc1 = doc@;
    let ghost l1 = pass.ledger();
    if audio_on {
        pass.enrich_audio(enricher, doc);
    }
    let ghost log2 = pass.log@;
    let ghost doc2 = doc@;
    let ghost l2 = pass.ledger();
    if pdf_on {
        if let Some(src) = source {
            pass.enrich_pdf(enricher, doc, src);
        }
    }
    proof {
        let log = pass.log@;
        if images_on {
            lemma_blocks_extend(doc0.blocks, opened(cache0), *opts, log1, log);
            assert(doc1 == DocumentView { blocks: doc1.blocks, ..doc0 });
        }
        if audio_on {
            lemma_audio_extends(doc1, l1, *opts, log2, log);
        }
    }
    let ghost doc3 = doc@;
    std::mem::swap(&mut pass.cache, cache);
    let ghost noted = document::warnings_of(pass.warnings@);
    doc.warnings.append(&mut pass.warnings);
    assert(doc@.warnings =~= doc3.warnings + noted);
    if pass.report.skipped_over_budget > 0 {
        let message = exhausted(opts.max_calls_per_document, pass.report.skipped_over_budget);
        doc.warnings.push(Warning::new(WarningKind::EnrichmentFailed, message));
    }
    proof {
        assert(doc@.warnings =~= doc3.warnings + noted + spent(pass.report, *opts));
        let outcome = enriched(doc0, *opts, cache0, source_of(source), pass.log@);
        assert(doc@ == outcome.0);
        assert(passes(
            doc0,
            *opts,
            cache0,
            source_of(source),
            pass.log@,
            (doc@, cache@, pass.report),
        )) by {
            reveal(passes);
        }
        assert(since(before, enricher.exchanges()) =~= pass.log@);
    }
    pass.report
}

/// The image pass leaves paragraphs alone and makes none.
proof fn lemma_paragraphs_stay(
    blocks: Seq<BlockView>,
    l: Ledger,
    opts: LlmOptions,
    log: Seq<Exchange>,
)
    ensures
        ({
            let out = blocks_enriched(blocks, l, opts, log).0;
            &&& out.len() == blocks.len()
            &&& forall|i: int|
                #![trigger blocks[i]]
                #![trigger out[i]]
                0 <= i < blocks.len() ==> (if blocks[i] is Paragraph {
                    out[i] == blocks[i]
                } else {
                    !(out[i] is Paragraph)
                })
        }),
    decreases blocks,
{
    if blocks.len() > 0 {
        lemma_paragraphs_stay(blocks.drop_last(), l, opts, log);
        let (before, l1) = blocks_enriched(blocks.drop_last(), l, opts, log);
        let last = block_enriched(blocks.last(), l1, opts, log).0;
        let out = blocks_enriched(blocks, l, opts, log).0;
        assert(out == before.push(last));
        assert(if blocks.last() is Paragraph {
            last == blocks.last()
        } else {
            !(last is Paragraph)
        });
        assert forall|i: int|
            #![trigger blocks[i]]
            #![trigger out[i]]
            0 <= i < blocks.len() implies (if blocks[i] is Paragraph {
            out[i] == blocks[i]
        } else {
            !(out[i] is Paragraph)
        }) by {
            if i < blocks.len() - 1 {
                assert(blocks.drop_last()[i] == blocks[i]);
                assert(before[i] == out[i]);
            }
        }
    }
}

/// Nor does it move the place of a transcript.
pub(crate) proof fn lemma_placeholder_stays(
    blocks: Seq<BlockView>,
    l: Ledger,
    opts: LlmOptions,
    log: Seq<Exchange>,
)
    ensures
        placeholder_from(blocks_enriched(blocks, l, opts, log).0, 0) == placeholder_from(
            blocks,
            0,
        ),
{
    lemma_paragraphs_stay(blocks, l, opts, log);
    lemma_same_placeholder(blocks, blocks_enriched(blocks, l, opts, log).0, 0);
}

proof fn lemma_same_placeholder(a: Seq<BlockView>, b: Seq<BlockView>, from: int)
    requires
        0 <= from,
        a.len() == b.len(),
        forall|i: int|
            #![trigger a[i]]
            0 <= i < a.len() ==> (if a[i] is Paragraph {
                b[i] == a[i]
            } else {
                !(b[i] is Paragraph)
            }),
    ensures
        placeholder_from(a, from) == placeholder_from(b, from),
    decreases a.len() - from,
{
    if from < a.len() && a[from] != BlockView::Paragraph(PLACEHOLDER@) {
        lemma_same_placeholder(a, b, from + 1);
    }
}

proof fn lemma_audio_extends(
    doc: DocumentView,
    l: Ledger,
    opts: LlmOptions,
    log: Seq<Exchange>,
    longer: Seq<Exchange>,
)
    requires
        log.is_prefix_of(longer),
        audio_enriched(doc, l, opts, log).1.sound,
    ensures
        l.sound,
        audio_enriched(doc, l, opts, longer) == audio_enriched(doc, l, opts, log),
{
}

/// What the LLM binding is called with: one user message that refers to the
/// resource, where there is one, and carries the prompt.
pub open spec fn dispatched(prompt: Seq<char>, resource: Option<Seq<char>>) -> JsonView {
    let content = match resource {
        Some(uri) => JsonView::Array(
            seq![
                JsonView::Object(
                    seq![("type"@, JsonView::Str("resource"@)), ("uri"@, JsonView::Str(uri))],
                ),
                JsonView::Object(
                    seq![("type"@, JsonView::Str("text"@)), ("text"@, JsonView::Str(prompt))],
                ),
            ],
        ),
        None => JsonView::Str(prompt),
    };
    let message = JsonView::Object(
        seq![("role"@, JsonView::Str("user"@)), ("content"@, content)],
    );
    JsonView::Object(seq![("messages"@, JsonView::Array(seq![message]))])
}

/// Arguments for the dispatch.
///
/// A resource URI is passed through rather than the bytes: the LLM binding
/// already knows how to read an `mcpg-resource://` from the content store, and
/// routing the bytes through here would double the memory for no gain.
pub fn dispatch_arguments(prompt: &str, resource: Option<&str>) -> (r: Json)
    ensures
        r@ == dispatched(prompt@, text::str_of(resource)),
{
    let content = match resource {
        Some(uri) => {
            let parts = vec![
                json::pair("type", json::string("resource"), "uri", json::string(uri)),
                json::pair("type", json::string("text"), "text", json::string(prompt)),
            ];
            assert(json::elements_of(parts@) =~= seq![parts@[0]@, parts@[1]@]);
            Json::Array(parts)
        },
        None => json::string(prompt),
    };
    let message = json::pair("role", json::string("user"), "content", content);
    let messages = vec![message];
    assert(json::elements_of(messages@) =~= seq![message@]);
    let members = vec![json::member("messages", Json::Array(messages))];
    assert(json::members_of(members@) =~= seq![
        ("messages"@, JsonView::Array(seq![message@])),
    ]);
    Json::Object(members)
}

/// A text that holds more than white space.
pub open spec fn said(v: Option<JsonView>) -> Option<Seq<char>> {
    match v {
        Some(JsonView::Str(s)) if text::trimmed(s).len() > 0 => Some(s),
        _ => None,
    }
}

/// The text in a reply: in the first of the usual places that holds one, or
/// the reply itself.
pub open spec fn extracted(v: JsonView) -> Option<Seq<char>> {
    if let Some(s) = said(json::found(v, "/content/0/text"@)) {
        Some(s)
    } else if let Some(s) = said(json::found(v, "/message/content"@)) {
        Some(s)
    } else if let Some(s) = said(json::found(v, "/choices/0/message/content"@)) {
        Some(s)
    } else if let Some(s) = said(json::found(v, "/text"@)) {
        Some(s)
    } else if let Some(s) = said(json::found(v, "/output"@)) {
        Some(s)
    } else {
        said(Some(v))
    }
}

fn spoken(v: Option<&Json>) -> (r: Option<String>)
    ensures
        text::text_of(r) == said(
            match v {
                Some(j) => Some(j@),
                None => None,
            },
        ),
{
    match v {
        Some(Json::Str(s)) => {
            if text::trim(s.as_str()).is_empty() {
                None
            } else {
                Some(s.clone())
            }
        },
        _ => None,
    }
}

/// Pull the text out of whatever shape the LLM binding returned.
pub fn extract_text(value: &Json) -> (r: Option<String>)
    ensures
        text::text_of(r) == extracted(value@),
{
    if let Some(s) = spoken(value.pointer("/content/0/text")) {
        return Some(s);
    }
    if let Some(s) = spoken(value.pointer("/message/content")) {
        return Some(s);
    }
    if let Some(s) = spoken(value.pointer("/choices/0/message/content")) {
        return Some(s);
    }
    if let Some(s) = spoken(value.pointer("/text")) {
        return Some(s);
    }
    if let Some(s) = spoken(value.pointer("/output")) {
        return Some(s);
    }
    spoken(Some(value))
}

/// What a dispatch to `binding` amounts to.
pub open spec fn dispatch_outcome(
    binding: Seq<char>,
    raw: Result<JsonView, Seq<char>>,
) -> Result<Seq<char>, Seq<char>> {
    match raw {
        Err(e) => Err(e),
        Ok(v) => match extracted(v) {
            Some(t) => Ok(t),
            None => Err(binding + " returned no text"@),
        },
    }
}

/// Takes what a dispatch to `binding` returned.
pub fn dispatch_reply(binding: &str, raw: Result<Json, String>) -> (r: Result<String, String>)
    ensures
        reply_of(r) == dispatch_outcome(
            binding@,
            match raw {
                Ok(v) => Ok(v@),
                Err(e) => Err(e@),
            },
        ),
{
    match raw {
        Err(e) => Err(e),
        Ok(v) => match extract_text(&v) {
            Some(t) => Ok(t),
            None => Err(text::concat2(binding, " returned no text")),
        },
    }
}

} // verus!
