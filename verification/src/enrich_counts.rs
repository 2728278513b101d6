//! How many answers a pass takes from its cache.

use vstd::prelude::*;

use crate::config::{ImageEnrichment, LlmOptions};
use crate::document::{BlockView, DocumentView, ImageRefView};
use crate::enrich;
use crate::enrich::{EnrichReport, Exchange, Ledger, SourceView};
use crate::enrich_outcome;

verus! {

/// How many images of a block lie in the content store without a caption.
pub open spec fn uncaptioned(block: BlockView) -> nat
    decreases block,
{
    match block {
        BlockView::Image(image) => if image.caption is None && image.source is Resource {
            1
        } else {
            0
        },
        BlockView::Quote(inner) => uncaptioned_in(inner),
        BlockView::List { ordered, items } => uncaptioned_items(items),
        BlockView::Embedded { name, doc } => uncaptioned_in(doc.blocks),
        _ => 0,
    }
}

/// How many images of these blocks do.
pub open spec fn uncaptioned_in(blocks: Seq<BlockView>) -> nat
    decreases blocks,
{
    if blocks.len() == 0 {
        0
    } else {
        uncaptioned_in(blocks.drop_last()) + uncaptioned(blocks.last())
    }
}

/// How many images of the items of a list do.
pub open spec fn uncaptioned_items(items: Seq<Seq<BlockView>>) -> nat
    decreases items,
{
    if items.len() == 0 {
        0
    } else {
        uncaptioned_items(items.drop_last()) + uncaptioned_in(items.last())
    }
}

/// How many questions are asked of each image.
pub open spec fn questions(images: ImageEnrichment) -> nat {
    match images {
        ImageEnrichment::Off => 0,
        ImageEnrichment::Caption => 1,
        ImageEnrichment::Ocr => 1,
        ImageEnrichment::CaptionAndOcr => 2,
    }
}

/// A count that stays within 32 bits.
pub open spec fn at_most(n: nat) -> u32 {
    if n <= u32::MAX {
        n as u32
    } else {
        u32::MAX
    }
}

/// Whether the cache holds every answer that is asked of the images of a block.
pub open spec fn answered(
    opts: LlmOptions,
    cache: Map<Seq<char>, Seq<char>>,
    block: BlockView,
) -> bool
    decreases block,
{
    match block {
        BlockView::Image(image) => image.caption is None ==> forall|
            uri: Seq<char>,
            prompt: Seq<char>,
        |
            image.source == ImageRefView::Resource(uri) && (enrich_outcome::set_by(
                opts.image_prompt,
                enrich::DEFAULT_IMAGE_PROMPT,
                prompt,
            ) || prompt == enrich::DEFAULT_OCR_PROMPT@) ==> cache.contains_key(
                #[trigger] enrich::key_of(prompt, Some(uri)),
            ),
        BlockView::Quote(inner) => answered_in(opts, cache, inner),
        BlockView::List { ordered, items } => answered_items(opts, cache, items),
        BlockView::Embedded { name, doc } => answered_in(opts, cache, doc.blocks),
        _ => true,
    }
}

/// Whether it holds every answer that is asked of the images of these blocks.
pub open spec fn answered_in(
    opts: LlmOptions,
    cache: Map<Seq<char>, Seq<char>>,
    blocks: Seq<BlockView>,
) -> bool
    decreases blocks,
{
    blocks.len() > 0 ==> answered_in(opts, cache, blocks.drop_last()) && answered(
        opts,
        cache,
        blocks.last(),
    )
}

/// Whether it holds every answer that is asked of the images of these items.
pub open spec fn answered_items(
    opts: LlmOptions,
    cache: Map<Seq<char>, Seq<char>>,
    items: Seq<Seq<BlockView>>,
) -> bool
    decreases items,
{
    items.len() > 0 ==> answered_items(opts, cache, items.drop_last()) && answered_in(
        opts,
        cache,
        items.last(),
    )
}

/// A pass that has asked nothing and has taken `n` answers from its cache.
spec fn took(l: Ledger, cache: Map<Seq<char>, Seq<char>>, n: nat) -> bool {
    &&& l.cache == cache
    &&& l.at == 0
    &&& l.report == (EnrichReport {
        attempted: 0,
        succeeded: 0,
        failed: 0,
        cached: at_most(n),
        skipped_over_budget: 0,
    })
}

proof fn lemma_block(
    block: BlockView,
    l: Ledger,
    opts: LlmOptions,
    cache: Map<Seq<char>, Seq<char>>,
    log: Seq<Exchange>,
    n: nat,
)
    requires
        opts.cache,
        opts.max_calls_per_document > 0,
        answered(opts, cache, block),
        took(l, cache, n),
    ensures
        took(
            enrich::block_enriched(block, l, opts, log).1,
            cache,
            n + questions(opts.enrich.images) * uncaptioned(block),
        ),
    decreases block,
{
    let q = questions(opts.enrich.images);
    assert(q * 0 == 0) by (nonlinear_arith);
    assert(q * 1 == q) by (nonlinear_arith);
    match block {
        BlockView::Image(image) => {
            if let ImageRefView::Resource(uri) = image.source {
                let prompt = enrich::prompt_or(opts.image_prompt, enrich::DEFAULT_IMAGE_PROMPT);
                assert(enrich_outcome::set_by(
                    opts.image_prompt,
                    enrich::DEFAULT_IMAGE_PROMPT,
                    prompt,
                ));
                if image.caption is None {
                    assert(cache.contains_key(enrich::key_of(prompt, Some(uri))));
                    assert(cache.contains_key(
                        enrich::key_of(enrich::DEFAULT_OCR_PROMPT@, Some(uri)),
                    ));
                }
            }
        },
        BlockView::Quote(inner) => lemma_blocks(inner, l, opts, cache, log, n),
        BlockView::List { ordered, items } => lemma_items(items, l, opts, cache, log, n),
        BlockView::Embedded { name, doc } => lemma_blocks(doc.blocks, l, opts, cache, log, n),
        _ => {},
    }
}

proof fn lemma_blocks(
    blocks: Seq<BlockView>,
    l: Ledger,
    opts: LlmOptions,
    cache: Map<Seq<char>, Seq<char>>,
    log: Seq<Exchange>,
    n: nat,
)
    requires
        opts.cache,
        opts.max_calls_per_document > 0,
        answered_in(opts, cache, blocks),
        took(l, cache, n),
    ensures
        took(
            enrich::blocks_enriched(blocks, l, opts, log).1,
            cache,
            n + questions(opts.enrich.images) * uncaptioned_in(blocks),
        ),
    decreases blocks,
{
    let q = questions(opts.enrich.images);
    if blocks.len() == 0 {
        assert(q * 0 == 0) by (nonlinear_arith);
    } else {
        let (a, b) = (uncaptioned_in(blocks.drop_last()), uncaptioned(blocks.last()));
        lemma_blocks(blocks.drop_last(), l, opts, cache, log, n);
        let l1 = enrich::blocks_enriched(blocks.drop_last(), l, opts, log).1;
        lemma_block(blocks.last(), l1, opts, cache, log, n + q * a);
        assert(q * (a + b) == q * a + q * b) by (nonlinear_arith);
    }
}

proof fn lemma_items(
    items: Seq<Seq<BlockView>>,
    l: Ledger,
    opts: LlmOptions,
    cache: Map<Seq<char>, Seq<char>>,
    log: Seq<Exchange>,
    n: nat,
)
    requires
        opts.cache,
        opts.max_calls_per_document > 0,
        answered_items(opts, cache, items),
        took(l, cache, n),
    ensures
        took(
            enrich::items_enriched(items, l, opts, log).1,
            cache,
            n + questions(opts.enrich.images) * uncaptioned_items(items),
        ),
    decreases items,
{
    let q = questions(opts.enrich.images);
    if items.len() == 0 {
        assert(q * 0 == 0) by (nonlinear_arith);
    } else {
        let (a, b) = (uncaptioned_items(items.drop_last()), uncaptioned_in(items.last()));
        lemma_items(items.drop_last(), l, opts, cache, log, n);
        let l1 = enrich::items_enriched(items.drop_last(), l, opts, log).1;
        lemma_blocks(items.last(), l1, opts, cache, log, n + q * a);
        assert(q * (a + b) == q * a + q * b) by (nonlinear_arith);
    }
}

/// A pass counts every answer that it takes from its cache: where the cache
/// holds them all, it asks nothing, and reports as many as there are questions,
/// one or two for each image in the content store without a caption, wherever
/// in the document it stands.
pub proof fn every_answer_from_the_cache_is_counted(
    doc: DocumentView,
    opts: LlmOptions,
    cache: Map<Seq<char>, Seq<char>>,
    source: Option<SourceView>,
    log: Seq<Exchange>,
    made: (DocumentView, Map<Seq<char>, Seq<char>>, EnrichReport),
)
    requires
        enrich::passes(doc, opts, cache, source, log, made),
        opts.binding is Some,
        opts.cache,
        opts.max_calls_per_document > 0,
        opts.enrich.audio is Off,
        opts.enrich.pdf is Off,
        answered_in(opts, cache, doc.blocks),
    ensures
        made.2 == (EnrichReport {
            attempted: 0,
            succeeded: 0,
            failed: 0,
            cached: at_most(questions(opts.enrich.images) * uncaptioned_in(doc.blocks)),
            skipped_over_budget: 0,
        }),
        made.1 == cache,
        log.len() == 0,
{
    reveal(enrich::passes);
    let k = uncaptioned_in(doc.blocks);
    if opts.enrich.images is Off {
        assert(0 * k == 0) by (nonlinear_arith);
    } else {
        lemma_blocks(doc.blocks, enrich::opened(cache), opts, cache, log, 0);
    }
}

} // verus!
