//! What the host's replies make of a document: from the questions that were
//! asked and the words that came back to what a reader sees.

use vstd::prelude::*;

use crate::codec;
use crate::config::{AudioEnrichment, ImageEnrichment, LlmOptions, PdfEnrichment};
use crate::document::{
    BlockView, DocumentView, ImageRefView, ImageView, WarningView,
};
use crate::enrich;
use crate::enrich::{EnrichReport, Exchange, Ledger, SourceView};
use crate::enrich_laws;
use crate::text;
use crate::text_laws;

verus! {

/// Whether the operator has this asked: the prompt that the profile sets, or
/// else the one that comes with the plugin.
pub open spec fn set_by(given: Option<String>, default: &str, prompt: Seq<char>) -> bool {
    &&& given is Some ==> prompt == given->0@
    &&& given is None ==> prompt == default@
}

/// Whether the model said `t` to this prompt about this resource: in this pass,
/// or, with caching on, to a question of the same key that the cache had the
/// reply to before.
pub open spec fn said(
    opts: LlmOptions,
    cache: Map<Seq<char>, Seq<char>>,
    log: Seq<Exchange>,
    prompt: Seq<char>,
    uri: Seq<char>,
    t: Seq<char>,
) -> bool {
    ||| exists|j: int|
        0 <= j < log.len() && #[trigger] log[j] == (Exchange::Described {
            prompt,
            resource: Some(uri),
            reply: Ok(t),
        })
    ||| opts.cache && {
        let key = enrich::key_of(prompt, Some(uri));
        ||| cache.contains_key(key) && cache[key] == t
        ||| got(log, key, t)
    }
}

/// What the model showed and read of an image, and the caption that it makes:
/// the description, and after a blank line what is printed in the image, under
/// that name.
pub open spec fn tells(
    opts: LlmOptions,
    cache: Map<Seq<char>, Seq<char>>,
    log: Seq<Exchange>,
    uri: Seq<char>,
    shown: Option<Seq<char>>,
    read: Option<Seq<char>>,
    caption: Option<Seq<char>>,
) -> bool {
    &&& shown matches Some(c) ==> {
        &&& opts.enrich.images == ImageEnrichment::Caption || opts.enrich.images
            == ImageEnrichment::CaptionAndOcr
        &&& exists|prompt: Seq<char>|
            {
                &&& set_by(opts.image_prompt, enrich::DEFAULT_IMAGE_PROMPT, prompt)
                &&& #[trigger] said(opts, cache, log, prompt, uri, c)
            }
    }
    &&& read matches Some(t) ==> {
        &&& opts.enrich.images == ImageEnrichment::Ocr || opts.enrich.images
            == ImageEnrichment::CaptionAndOcr
        &&& said(opts, cache, log, enrich::DEFAULT_OCR_PROMPT@, uri, t)
    }
    &&& shown is None && read is None ==> caption is None
    &&& shown is None && read is Some && text::blank(read->0) ==> caption is None
    &&& shown is None && read is Some && !text::blank(read->0) ==> caption == Some(
        "Text in image: "@ + read->0,
    )
    &&& shown is Some && read is None ==> caption == shown
    &&& shown is Some && read is Some && text::blank(read->0) ==> caption == shown
    &&& shown is Some && read is Some && !text::blank(read->0) ==> caption == Some(
        shown->0 + "\n\nText in image: "@ + read->0,
    )
}

/// Whether an image came out as the model's words have it. Only a stored image
/// without a caption gets one; where every question was answered (`all`), it
/// was described and read as the profile says.
pub open spec fn image_told(
    a: ImageView,
    b: ImageView,
    opts: LlmOptions,
    cache: Map<Seq<char>, Seq<char>>,
    log: Seq<Exchange>,
    all: bool,
) -> bool {
    if a.source is Resource && a.caption is None {
        &&& b.alt == a.alt
        &&& b.source == a.source
        &&& exists|shown: Option<Seq<char>>, read: Option<Seq<char>>|
            {
                &&& #[trigger] tells(
                    opts,
                    cache,
                    log,
                    a.source->Resource_0,
                    shown,
                    read,
                    b.caption,
                )
                &&& all && opts.enrich.images == ImageEnrichment::Caption ==> shown is Some
                &&& all && opts.enrich.images == ImageEnrichment::Ocr ==> read is Some
                &&& all && opts.enrich.images == ImageEnrichment::CaptionAndOcr ==> shown is Some
                    && read is Some
            }
    } else {
        b == a
    }
}

/// The same of every image in a block, at any depth; all else stays.
pub open spec fn block_told(
    a: BlockView,
    b: BlockView,
    opts: LlmOptions,
    cache: Map<Seq<char>, Seq<char>>,
    log: Seq<Exchange>,
    all: bool,
) -> bool
    decreases a,
{
    match a {
        BlockView::Image(x) => b is Image && image_told(x, b->Image_0, opts, cache, log, all),
        BlockView::Quote(p) => b is Quote && blocks_told(p, b->Quote_0, opts, cache, log, all),
        BlockView::List { ordered, items } => {
            &&& b is List
            &&& b->List_ordered == ordered
            &&& b->List_items.len() == items.len()
            &&& forall|i: int|
                #![trigger items[i]]
                0 <= i < items.len() ==> blocks_told(
                    items[i],
                    b->List_items[i],
                    opts,
                    cache,
                    log,
                    all,
                )
        },
        BlockView::Embedded { name, doc } => {
            &&& b is Embedded
            &&& b->Embedded_name == name
            &&& *b->doc == (DocumentView { blocks: b->doc.blocks, ..*doc })
            &&& blocks_told(doc.blocks, b->doc.blocks, opts, cache, log, all)
        },
        _ => b == a,
    }
}

/// The same, block by block.
pub open spec fn blocks_told(
    a: Seq<BlockView>,
    b: Seq<BlockView>,
    opts: LlmOptions,
    cache: Map<Seq<char>, Seq<char>>,
    log: Seq<Exchange>,
    all: bool,
) -> bool
    decreases a,
{
    &&& b.len() == a.len()
    &&& forall|i: int|
        #![trigger a[i]]
        0 <= i < a.len() ==> block_told(a[i], b[i], opts, cache, log, all)
}

/// Every cached reply was there before, or, with caching on, is one that this
/// pass got; and none that was there before is gone.
spec fn sourced(
    l: Ledger,
    opts: LlmOptions,
    cache: Map<Seq<char>, Seq<char>>,
    log: Seq<Exchange>,
) -> bool {
    &&& forall|k: Seq<char>| #[trigger]
        cache.contains_key(k) ==> l.cache.contains_key(k) && l.cache[k] == cache[k]
    &&& forall|k: Seq<char>| #[trigger]
        l.cache.contains_key(k) ==> cache.contains_key(k) || opts.cache && got(
            log,
            k,
            l.cache[k],
        )
}

/// Whether the model said `t` to a question of this key.
pub open spec fn got(log: Seq<Exchange>, key: Seq<char>, t: Seq<char>) -> bool {
    exists|j: int|
        {
            &&& 0 <= j < log.len()
            &&& #[trigger] log[j] is Described
            &&& enrich::key_of(log[j]->prompt, log[j]->resource) == key
            &&& log[j].reply() == Ok::<Seq<char>, Seq<char>>(t)
        }
}

proof fn lemma_consulted_said(
    l: Ledger,
    opts: LlmOptions,
    cache: Map<Seq<char>, Seq<char>>,
    log: Seq<Exchange>,
    prompt: Seq<char>,
    uri: Seq<char>,
)
    requires
        sourced(l, opts, cache, log),
        enrich::consulted(l, opts, log, prompt, Some(uri)).0.sound,
    ensures
        l.sound,
        sourced(enrich::consulted(l, opts, log, prompt, Some(uri)).0, opts, cache, log),
        enrich::consulted(l, opts, log, prompt, Some(uri)).1 matches Some(t) ==> said(
            opts,
            cache,
            log,
            prompt,
            uri,
            t,
        ),
        enrich::consulted(l, opts, log, prompt, Some(uri)).1 is None
            ==> enrich::consulted(l, opts, log, prompt, Some(uri)).0.report.failed > 0,
{
    let key = enrich::key_of(prompt, Some(uri));
    let (l1, t) = enrich::consulted(l, opts, log, prompt, Some(uri));
    if opts.cache && l.cache.contains_key(key) {
    } else {
        let x = log[l.at];
        assert(x is Described && x->prompt == prompt && x->resource == Some(uri));
        assert forall|k: Seq<char>| #[trigger] l1.cache.contains_key(k) implies cache.contains_key(
            k,
        ) || opts.cache && got(log, k, l1.cache[k]) by {
            if !l.cache.contains_key(k) {
                assert(k == key);
                assert(log[l.at].reply() == Ok::<Seq<char>, Seq<char>>(l1.cache[k]));
            }
        }
    }
}

/// A pass that is not done yet may still lose questions, but what it lost it
/// does not get back.
spec fn worse(l: Ledger, l1: Ledger) -> bool {
    &&& l.report.failed <= l1.report.failed
    &&& l.report.skipped_over_budget <= l1.report.skipped_over_budget
    &&& l.report.attempted <= l1.report.attempted
}

proof fn lemma_image_told(
    image: ImageView,
    l: Ledger,
    opts: LlmOptions,
    cache: Map<Seq<char>, Seq<char>>,
    log: Seq<Exchange>,
    all: bool,
)
    requires
        sourced(l, opts, cache, log),
        enrich::image_enriched(image, l, opts, log).1.sound,
        opts.enrich.images != ImageEnrichment::Off,
        all ==> enrich_laws::all_answered(
            enrich::image_enriched(image, l, opts, log).1.report,
            opts,
        ),
    ensures
        l.sound,
        worse(l, enrich::image_enriched(image, l, opts, log).1),
        sourced(enrich::image_enriched(image, l, opts, log).1, opts, cache, log),
        image_told(image, enrich::image_enriched(image, l, opts, log).0, opts, cache, log, all),
{
    let (b, l2) = enrich::image_enriched(image, l, opts, log);
    if image.source is Resource && image.caption is None {
        let uri = image.source->Resource_0;
        let over = l.report.attempted >= opts.max_calls_per_document;
        let prompt = enrich::prompt_or(opts.image_prompt, enrich::DEFAULT_IMAGE_PROMPT);
        assert(set_by(opts.image_prompt, enrich::DEFAULT_IMAGE_PROMPT, prompt));
        let (l1, shown) = if !over && opts.enrich.images.captions() {
            enrich::consulted(l, opts, log, prompt, Some(uri))
        } else {
            (l, None)
        };
        let reading = !over && opts.enrich.images.reads() && l1.report.attempted
            < opts.max_calls_per_document;
        let read = if reading {
            enrich::consulted(l1, opts, log, enrich::DEFAULT_OCR_PROMPT@, Some(uri)).1
        } else {
            None
        };
        assert(l1.sound);
        if !over && opts.enrich.images.captions() {
            lemma_consulted_said(l, opts, cache, log, prompt, uri);
        }
        if reading {
            lemma_consulted_said(l1, opts, cache, log, enrich::DEFAULT_OCR_PROMPT@, uri);
        }
        if let Some(t) = read {
            text_laws::only_white_space_is_trimmed_away(t);
        }
        reveal_strlit("\n\n");
        reveal_strlit("Text in image: ");
        reveal_strlit("\n\nText in image: ");
        assert("\n\n"@ + "Text in image: "@ =~= "\n\nText in image: "@);
        if let (Some(c), Some(t)) = (shown, read) {
            assert(c + "\n\n"@ + ("Text in image: "@ + t) =~= c + "\n\nText in image: "@ + t);
        }
        if over {
            assert(b.caption is None);
        }
        assert(tells(opts, cache, log, uri, shown, read, b.caption));
    }
}

proof fn lemma_block_told(
    block: BlockView,
    l: Ledger,
    opts: LlmOptions,
    cache: Map<Seq<char>, Seq<char>>,
    log: Seq<Exchange>,
    all: bool,
)
    requires
        sourced(l, opts, cache, log),
        enrich::block_enriched(block, l, opts, log).1.sound,
        opts.enrich.images != ImageEnrichment::Off,
        all ==> enrich_laws::all_answered(
            enrich::block_enriched(block, l, opts, log).1.report,
            opts,
        ),
    ensures
        l.sound,
        worse(l, enrich::block_enriched(block, l, opts, log).1),
        sourced(enrich::block_enriched(block, l, opts, log).1, opts, cache, log),
        block_told(block, enrich::block_enriched(block, l, opts, log).0, opts, cache, log, all),
    decreases block,
{
    match block {
        BlockView::Image(image) => {
            lemma_image_told(image, l, opts, cache, log, all);
        },
        BlockView::Quote(inner) => {
            lemma_blocks_told(inner, l, opts, cache, log, all);
        },
        BlockView::List { ordered, items } => {
            lemma_items_told(items, l, opts, cache, log, all);
        },
        BlockView::Embedded { name, doc } => {
            lemma_blocks_told(doc.blocks, l, opts, cache, log, all);
        },
        _ => {},
    }
}

proof fn lemma_block_worse(block: BlockView, l: Ledger, opts: LlmOptions, log: Seq<Exchange>)
    ensures
        worse(l, enrich::block_enriched(block, l, opts, log).1),
    decreases block,
{
    match block {
        BlockView::Quote(inner) => {
            lemma_blocks_worse(inner, l, opts, log);
        },
        BlockView::List { ordered, items } => {
            lemma_items_worse(items, l, opts, log);
        },
        BlockView::Embedded { name, doc } => {
            lemma_blocks_worse(doc.blocks, l, opts, log);
        },
        _ => {},
    }
}

proof fn lemma_blocks_worse(
    blocks: Seq<BlockView>,
    l: Ledger,
    opts: LlmOptions,
    log: Seq<Exchange>,
)
    ensures
        worse(l, enrich::blocks_enriched(blocks, l, opts, log).1),
    decreases blocks,
{
    if blocks.len() > 0 {
        lemma_blocks_worse(blocks.drop_last(), l, opts, log);
        let l1 = enrich::blocks_enriched(blocks.drop_last(), l, opts, log).1;
        lemma_block_worse(blocks.last(), l1, opts, log);
    }
}

proof fn lemma_items_worse(
    items: Seq<Seq<BlockView>>,
    l: Ledger,
    opts: LlmOptions,
    log: Seq<Exchange>,
)
    ensures
        worse(l, enrich::items_enriched(items, l, opts, log).1),
    decreases items,
{
    if items.len() > 0 {
        lemma_items_worse(items.drop_last(), l, opts, log);
        let l1 = enrich::items_enriched(items.drop_last(), l, opts, log).1;
        lemma_blocks_worse(items.last(), l1, opts, log);
    }
}

proof fn lemma_block_sound(block: BlockView, l: Ledger, opts: LlmOptions, log: Seq<Exchange>)
    requires
        enrich::block_enriched(block, l, opts, log).1.sound,
    ensures
        l.sound,
    decreases block,
{
    match block {
        BlockView::Quote(inner) => {
            lemma_blocks_sound(inner, l, opts, log);
        },
        BlockView::List { ordered, items } => {
            lemma_items_sound(items, l, opts, log);
        },
        BlockView::Embedded { name, doc } => {
            lemma_blocks_sound(doc.blocks, l, opts, log);
        },
        _ => {},
    }
}

proof fn lemma_blocks_sound(
    blocks: Seq<BlockView>,
    l: Ledger,
    opts: LlmOptions,
    log: Seq<Exchange>,
)
    requires
        enrich::blocks_enriched(blocks, l, opts, log).1.sound,
    ensures
        l.sound,
    decreases blocks,
{
    if blocks.len() > 0 {
        let l1 = enrich::blocks_enriched(blocks.drop_last(), l, opts, log).1;
        lemma_block_sound(blocks.last(), l1, opts, log);
        lemma_blocks_sound(blocks.drop_last(), l, opts, log);
    }
}

proof fn lemma_items_sound(
    items: Seq<Seq<BlockView>>,
    l: Ledger,
    opts: LlmOptions,
    log: Seq<Exchange>,
)
    requires
        enrich::items_enriched(items, l, opts, log).1.sound,
    ensures
        l.sound,
    decreases items,
{
    if items.len() > 0 {
        let l1 = enrich::items_enriched(items.drop_last(), l, opts, log).1;
        lemma_blocks_sound(items.last(), l1, opts, log);
        lemma_items_sound(items.drop_last(), l, opts, log);
    }
}

proof fn lemma_blocks_told(
    blocks: Seq<BlockView>,
    l: Ledger,
    opts: LlmOptions,
    cache: Map<Seq<char>, Seq<char>>,
    log: Seq<Exchange>,
    all: bool,
)
    requires
        sourced(l, opts, cache, log),
        enrich::blocks_enriched(blocks, l, opts, log).1.sound,
        opts.enrich.images != ImageEnrichment::Off,
        all ==> enrich_laws::all_answered(
            enrich::blocks_enriched(blocks, l, opts, log).1.report,
            opts,
        ),
    ensures
        l.sound,
        worse(l, enrich::blocks_enriched(blocks, l, opts, log).1),
        sourced(enrich::blocks_enriched(blocks, l, opts, log).1, opts, cache, log),
        blocks_told(blocks, enrich::blocks_enriched(blocks, l, opts, log).0, opts, cache, log, all),
    decreases blocks,
{
    if blocks.len() > 0 {
        let (before, l1) = enrich::blocks_enriched(blocks.drop_last(), l, opts, log);
        lemma_block_sound(blocks.last(), l1, opts, log);
        lemma_block_worse(blocks.last(), l1, opts, log);
        lemma_blocks_told(blocks.drop_last(), l, opts, cache, log, all);
        lemma_block_told(blocks.last(), l1, opts, cache, log, all);
        let out = enrich::blocks_enriched(blocks, l, opts, log).0;
        assert forall|i: int| #![trigger blocks[i]] 0 <= i < blocks.len() implies block_told(
            blocks[i],
            out[i],
            opts,
            cache,
            log,
            all,
        ) by {
            if i < blocks.len() - 1 {
                assert(blocks.drop_last()[i] == blocks[i]);
            }
        }
    }
}

proof fn lemma_items_told(
    items: Seq<Seq<BlockView>>,
    l: Ledger,
    opts: LlmOptions,
    cache: Map<Seq<char>, Seq<char>>,
    log: Seq<Exchange>,
    all: bool,
)
    requires
        sourced(l, opts, cache, log),
        enrich::items_enriched(items, l, opts, log).1.sound,
        opts.enrich.images != ImageEnrichment::Off,
        all ==> enrich_laws::all_answered(
            enrich::items_enriched(items, l, opts, log).1.report,
            opts,
        ),
    ensures
        l.sound,
        worse(l, enrich::items_enriched(items, l, opts, log).1),
        sourced(enrich::items_enriched(items, l, opts, log).1, opts, cache, log),
        ({
            let out = enrich::items_enriched(items, l, opts, log).0;
            &&& out.len() == items.len()
            &&& forall|i: int|
                #![trigger items[i]]
                0 <= i < items.len() ==> blocks_told(items[i], out[i], opts, cache, log, all)
        }),
    decreases items,
{
    if items.len() > 0 {
        let (before, l1) = enrich::items_enriched(items.drop_last(), l, opts, log);
        lemma_blocks_sound(items.last(), l1, opts, log);
        lemma_blocks_worse(items.last(), l1, opts, log);
        lemma_items_told(items.drop_last(), l, opts, cache, log, all);
        lemma_blocks_told(items.last(), l1, opts, cache, log, all);
        let out = enrich::items_enriched(items, l, opts, log).0;
        assert forall|i: int| #![trigger items[i]] 0 <= i < items.len() implies blocks_told(
            items[i],
            out[i],
            opts,
            cache,
            log,
            all,
        ) by {
            if i < items.len() - 1 {
                assert(items.drop_last()[i] == items[i]);
            }
        }
    }
}

/// Whether every question of a pass was answered: none failed, none was left
/// out, and there was a call to spare.
pub open spec fn unhindered(report: EnrichReport, opts: LlmOptions) -> bool {
    &&& report.failed == 0
    &&& report.skipped_over_budget == 0
    &&& report.attempted < opts.max_calls_per_document
}

/// A stored image says what the model said of it, at any depth: its
/// description, and under the words "Text in image: " what the model read in
/// it. Each is a reply to the prompt of its own, about that image. No block
/// changes otherwise.
pub proof fn images_say_what_the_model_said(
    doc: DocumentView,
    opts: LlmOptions,
    cache: Map<Seq<char>, Seq<char>>,
    source: Option<SourceView>,
    log: Seq<Exchange>,
    made: (DocumentView, Map<Seq<char>, Seq<char>>, EnrichReport),
    i: int,
)
    requires
        enrich::passes(doc, opts, cache, source, log, made),
        0 <= i < doc.blocks.len(),
        !(doc.blocks[i] is Paragraph),
    ensures
        i < made.0.blocks.len(),
        opts.binding is Some && opts.enrich.images != ImageEnrichment::Off ==> block_told(
            doc.blocks[i],
            made.0.blocks[i],
            opts,
            cache,
            log,
            unhindered(made.2, opts),
        ),
        opts.binding is None || opts.enrich.images == ImageEnrichment::Off ==> made.0.blocks[i]
            == doc.blocks[i],
{
    reveal(enrich::passes);
    lemma_stages(doc, opts, cache, source, log);
}

/// What the passes over images, audio and PDF leave, one after the other.
spec fn staged(
    doc: DocumentView,
    opts: LlmOptions,
    cache: Map<Seq<char>, Seq<char>>,
    log: Seq<Exchange>,
) -> ((DocumentView, Ledger), (DocumentView, Ledger)) {
    let l0 = enrich::opened(cache);
    let first = if opts.enrich.images.captions() || opts.enrich.images.reads() {
        let (blocks, l) = enrich::blocks_enriched(doc.blocks, l0, opts, log);
        (DocumentView { blocks, ..doc }, l)
    } else {
        (doc, l0)
    };
    let second = if opts.enrich.audio == AudioEnrichment::Transcribe {
        enrich::audio_enriched(first.0, first.1, opts, log)
    } else {
        first
    };
    (first, second)
}

proof fn lemma_placeholder(blocks: Seq<BlockView>, from: int)
    requires
        0 <= from,
    ensures
        enrich::placeholder_from(blocks, from) matches Some(i) ==> {
            &&& from <= i < blocks.len()
            &&& blocks[i] == BlockView::Paragraph(enrich::PLACEHOLDER@)
            &&& forall|k: int|
                from <= k < i ==> #[trigger] blocks[k] != BlockView::Paragraph(enrich::PLACEHOLDER@)
        },
        enrich::placeholder_from(blocks, from) is None ==> forall|k: int|
            from <= k < blocks.len() ==> #[trigger] blocks[k] != BlockView::Paragraph(
                enrich::PLACEHOLDER@,
            ),
    decreases blocks.len() - from,
{
    if from < blocks.len() && blocks[from] != BlockView::Paragraph(enrich::PLACEHOLDER@) {
        lemma_placeholder(blocks, from + 1);
    }
}

proof fn lemma_paragraphs(
    blocks: Seq<BlockView>,
    l: Ledger,
    opts: LlmOptions,
    log: Seq<Exchange>,
)
    ensures
        ({
            let out = enrich::blocks_enriched(blocks, l, opts, log).0;
            &&& out.len() == blocks.len()
            &&& forall|i: int|
                #![trigger blocks[i]]
                #![trigger out[i]]
                0 <= i < blocks.len() ==> (blocks[i] is Paragraph <==> out[i] is Paragraph) && (
                blocks[i] is Paragraph ==> out[i] == blocks[i])
        }),
    decreases blocks,
{
    if blocks.len() > 0 {
        lemma_paragraphs(blocks.drop_last(), l, opts, log);
        let (before, l1) = enrich::blocks_enriched(blocks.drop_last(), l, opts, log);
        let last = enrich::block_enriched(blocks.last(), l1, opts, log).0;
        let out = enrich::blocks_enriched(blocks, l, opts, log).0;
        assert(out == before.push(last));
        assert(blocks.last() is Paragraph <==> last is Paragraph);
        assert(blocks.last() is Paragraph ==> last == blocks.last());
        assert forall|i: int|
            #![trigger blocks[i]]
            #![trigger out[i]]
            0 <= i < blocks.len() implies (blocks[i] is Paragraph <==> out[i] is Paragraph) && (
        blocks[i] is Paragraph ==> out[i] == blocks[i]) by {
            if i < blocks.len() - 1 {
                assert(blocks.drop_last()[i] == blocks[i]);
                assert(before[i] == out[i]);
            }
        }
    }
}

proof fn lemma_stages(
    doc: DocumentView,
    opts: LlmOptions,
    cache: Map<Seq<char>, Seq<char>>,
    source: Option<SourceView>,
    log: Seq<Exchange>,
)
    requires
        enrich::enriched(doc, opts, cache, source, log).1.sound,
    ensures
        ({
            let (out, l) = enrich::enriched(doc, opts, cache, source, log);
            let ((doc1, l1), (doc2, l2)) = staged(doc, opts, cache, log);
            let runs = opts.binding is Some && opts.enrich.wanted();
            &&& !runs ==> out.blocks == doc.blocks
            &&& runs ==> {
                &&& doc1 == DocumentView { blocks: doc1.blocks, ..doc }
                &&& doc2 == DocumentView { blocks: doc2.blocks, ..doc }
                &&& doc1.blocks.len() == doc.blocks.len()
                &&& doc2.blocks.len() == doc.blocks.len()
                &&& doc2.blocks.is_prefix_of(out.blocks)
                &&& l1.sound && l2.sound
                &&& worse(l1, l2) && worse(l2, l)
                &&& sourced(l1, opts, cache, log) && sourced(l2, opts, cache, log)
                &&& sourced(l, opts, cache, log)
                &&& enrich::placeholder_from(doc1.blocks, 0) == enrich::placeholder_from(
                    doc.blocks,
                    0,
                )
                &&& forall|i: int|
                    #![trigger doc.blocks[i]]
                    0 <= i < doc.blocks.len() && doc.blocks[i] is Paragraph ==> doc1.blocks[i]
                        == doc.blocks[i]
                &&& forall|i: int|
                    #![trigger doc.blocks[i]]
                    0 <= i < doc.blocks.len() && !(doc.blocks[i] is Paragraph) ==> doc2.blocks[i]
                        == doc1.blocks[i]
                &&& opts.enrich.images == ImageEnrichment::Off ==> doc1 == doc
                &&& opts.enrich.images != ImageEnrichment::Off ==> blocks_told(
                    doc.blocks,
                    doc1.blocks,
                    opts,
                    cache,
                    log,
                    unhindered(l.report, opts),
                )
            }
        }),
{
    if opts.binding is Some && opts.enrich.wanted() {
        let (out, l) = enrich::enriched(doc, opts, cache, source, log);
        let ((doc1, l1), (doc2, l2)) = staged(doc, opts, cache, log);
        let l0 = enrich::opened(cache);
        assert(l2.sound);
        assert(worse(l2, l));
        assert(l1.sound);
        assert(worse(l1, l2));
        assert(sourced(l0, opts, cache, log));
        lemma_paragraphs(doc.blocks, l0, opts, log);
        if opts.enrich.images != ImageEnrichment::Off {
            lemma_blocks_told(
                doc.blocks,
                l0,
                opts,
                cache,
                log,
                unhindered(l.report, opts),
            );
            enrich::lemma_placeholder_stays(doc.blocks, l0, opts, log);
        }
        lemma_placeholder(doc1.blocks, 0);
        if opts.enrich.audio == AudioEnrichment::Transcribe {
            if let (Some(uri), Some(i)) = (
                enrich::audio_uri(doc1.metadata),
                enrich::placeholder_from(doc1.blocks, 0),
            ) {
                if l1.report.attempted < opts.max_calls_per_document {
                    lemma_consulted_said(
                        l1,
                        opts,
                        cache,
                        log,
                        enrich::prompt_or(opts.audio_prompt, enrich::DEFAULT_AUDIO_PROMPT),
                        uri,
                    );
                }
            }
        }
        assert(sourced(l2, opts, cache, log));
        assert forall|i: int|
            #![trigger doc.blocks[i]]
            0 <= i < doc.blocks.len() && !(doc.blocks[i] is Paragraph) implies doc2.blocks[i]
            == doc1.blocks[i] by {
            assert(!(doc1.blocks[i] is Paragraph));
        }
        if opts.enrich.pdf == PdfEnrichment::Ocr && source is Some && enrich::scanned_pages(
            doc2.metadata,
        ) is Some && l2.report.attempted < opts.max_calls_per_document {
            let (ls, uri) = enrich::deposited(l2, log, source->0);
            assert(ls.sound && sourced(ls, opts, cache, log));
            if uri is Some {
                lemma_consulted_said(
                    ls,
                    opts,
                    cache,
                    log,
                    enrich::prompt_or(opts.pdf_prompt, enrich::DEFAULT_PDF_OCR_PROMPT),
                    uri->0,
                );
            }
        }
        assert(sourced(l, opts, cache, log));
        assert(doc2.blocks.is_prefix_of(out.blocks)) by {
            assert(doc2.blocks =~= out.blocks.take(doc2.blocks.len() as int));
        }
    }
}

/// Where the audio of a document is: where it was acquired, or else where its
/// converter put it.
pub open spec fn heard_at(doc: DocumentView, uri: Seq<char>) -> bool {
    if doc.metadata.contains_key("source_uri"@) {
        doc.metadata["source_uri"@] == uri
    } else {
        doc.metadata.contains_key("resource_uri"@) && doc.metadata["resource_uri"@] == uri
    }
}

/// The first paragraph that stands in for a transcript becomes what the model
/// heard, without white space around it; every other paragraph stays as it was.
pub proof fn a_transcript_says_what_the_model_heard(
    doc: DocumentView,
    opts: LlmOptions,
    cache: Map<Seq<char>, Seq<char>>,
    source: Option<SourceView>,
    log: Seq<Exchange>,
    made: (DocumentView, Map<Seq<char>, Seq<char>>, EnrichReport),
    p: int,
)
    requires
        enrich::passes(doc, opts, cache, source, log, made),
        0 <= p < doc.blocks.len(),
        doc.blocks[p] is Paragraph,
    ensures
        p < made.0.blocks.len(),
        ({
            let first = doc.blocks[p] == BlockView::Paragraph("[audio: no transcript]"@) && forall|
                k: int,
            |
                0 <= k < p ==> #[trigger] doc.blocks[k] != BlockView::Paragraph(
                    "[audio: no transcript]"@,
                );
            let asked = opts.binding is Some && opts.enrich.audio == AudioEnrichment::Transcribe
                && first && exists|uri: Seq<char>| heard_at(doc, uri);
            &&& !asked ==> made.0.blocks[p] == doc.blocks[p]
            &&& asked && (unhindered(made.2, opts) || made.0.blocks[p] != doc.blocks[p])
                ==> exists|uri: Seq<char>, prompt: Seq<char>, t: Seq<char>|
                {
                    &&& heard_at(doc, uri)
                    &&& set_by(opts.audio_prompt, enrich::DEFAULT_AUDIO_PROMPT, prompt)
                    &&& #[trigger] said(opts, cache, log, prompt, uri, t)
                    &&& made.0.blocks[p] == BlockView::Paragraph(text::trimmed(t))
                }
        }),
{
    reveal(enrich::passes);
    lemma_stages(doc, opts, cache, source, log);
    lemma_placeholder(doc.blocks, 0);
    let ((doc1, l1), (doc2, l2)) = staged(doc, opts, cache, log);
    if opts.binding is Some && opts.enrich.wanted() {
        assert(doc1.blocks[p] == doc.blocks[p]);
        assert(made.0.blocks[p] == doc2.blocks[p]);
        if opts.enrich.audio == AudioEnrichment::Transcribe {
            if exists|uri: Seq<char>| heard_at(doc, uri) {
                let uri = choose|uri: Seq<char>| heard_at(doc, uri);
                assert(enrich::audio_uri(doc1.metadata) == Some(uri));
                let prompt = enrich::prompt_or(opts.audio_prompt, enrich::DEFAULT_AUDIO_PROMPT);
                assert(set_by(opts.audio_prompt, enrich::DEFAULT_AUDIO_PROMPT, prompt));
                if enrich::placeholder_from(doc1.blocks, 0) is Some && l1.report.attempted
                    < opts.max_calls_per_document {
                    lemma_consulted_said(l1, opts, cache, log, prompt, uri);
                }
            } else {
                if enrich::audio_uri(doc1.metadata) is Some {
                    assert(heard_at(doc, enrich::audio_uri(doc1.metadata)->0));
                }
            }
        }
    }
}

/// Where the model could read the source: where it lies in the content store,
/// or where this pass put it.
pub open spec fn readable_at(source: SourceView, log: Seq<Exchange>, uri: Seq<char>) -> bool {
    if source.uri is Some {
        source.uri == Some(uri)
    } else {
        exists|j: int|
            0 <= j < log.len() && #[trigger] log[j] == (Exchange::Stored {
                bytes: source.bytes,
                mime: source.mime,
                reply: Ok(uri),
            })
    }
}

/// What the model read of scanned pages is appended as it said it, without
/// white space around it, under a heading that names the pages and says that
/// they were transcribed; a warning says so too. Where it read nothing, a
/// warning says that. Nothing is appended for any other reason.
pub proof fn a_reading_says_what_the_model_read(
    doc: DocumentView,
    opts: LlmOptions,
    cache: Map<Seq<char>, Seq<char>>,
    source: Option<SourceView>,
    log: Seq<Exchange>,
    made: (DocumentView, Map<Seq<char>, Seq<char>>, EnrichReport),
)
    requires
        enrich::passes(doc, opts, cache, source, log, made),
    ensures
        ({
            let n = doc.blocks.len() as int;
            let out = made.0;
            let pages = doc.metadata["pdf_scanned_pages"@];
            let asked = opts.binding is Some && opts.enrich.pdf == PdfEnrichment::Ocr && source
                is Some && doc.metadata.contains_key("pdf_scanned_pages"@) && pages.len() > 0;
            &&& !asked ==> out.blocks.len() == n
            &&& asked && (unhindered(made.2, opts) || out.blocks.len() != n) ==> exists|
                uri: Seq<char>,
                prompt: Seq<char>,
                t: Seq<char>,
            |
                {
                    &&& readable_at(source->0, log, uri)
                    &&& set_by(opts.pdf_prompt, enrich::DEFAULT_PDF_OCR_PROMPT, prompt)
                    &&& #[trigger] said(opts, cache, log, prompt, uri, t)
                    &&& if text::blank(t) {
                        &&& out.blocks.len() == n
                        &&& out.warnings.contains(
                            (WarningView {
                                kind: "enrichment_failed"@,
                                message: "OCR returned nothing for the scanned pages"@,
                            }),
                        )
                    } else {
                        &&& out.blocks.len() == n + 2
                        &&& out.blocks[n] == BlockView::Heading {
                            level: 2,
                            text: "Scanned pages "@ + pages + " of "@ + (
                            if doc.metadata.contains_key("pdf_page_count"@) {
                                doc.metadata["pdf_page_count"@]
                            } else {
                                "?"@
                            }) + " (transcribed)"@,
                        }
                        &&& out.blocks[n + 1] == BlockView::Raw { markdown: text::trimmed(t) }
                        &&& out.warnings.len() > doc.warnings.len()
                        &&& out.warnings[doc.warnings.len() as int] == (WarningView {
                            kind: "degraded"@,
                            message: "pages "@ + pages
                                + " carried no text layer and were transcribed by a model; \
                     treat that section as a reading, not as the document's own text"@,
                        })
                    }
                }
        }),
{
    reveal(enrich::passes);
    lemma_stages(doc, opts, cache, source, log);
    let ((doc1, l1), (doc2, l2)) = staged(doc, opts, cache, log);
    let n = doc.blocks.len() as int;
    if opts.binding is Some && opts.enrich.pdf == PdfEnrichment::Ocr && source is Some
        && enrich::scanned_pages(doc2.metadata) is Some && l2.report.attempted
        < opts.max_calls_per_document {
        let src = source->0;
        let pages = enrich::scanned_pages(doc2.metadata)->0;
        let (ls, uri) = enrich::deposited(l2, log, src);
        assert(ls.sound);
        if let Some(u) = uri {
            assert(readable_at(src, log, u)) by {
                if src.uri is None {
                    assert(log[l2.at] == Exchange::Stored {
                        bytes: src.bytes,
                        mime: src.mime,
                        reply: Ok(u),
                    });
                }
            }
            let prompt = enrich::prompt_or(opts.pdf_prompt, enrich::DEFAULT_PDF_OCR_PROMPT);
            assert(set_by(opts.pdf_prompt, enrich::DEFAULT_PDF_OCR_PROMPT, prompt));
            assert(sourced(ls, opts, cache, log));
            lemma_consulted_said(ls, opts, cache, log, prompt, u);
            let t = enrich::consulted(ls, opts, log, prompt, Some(u)).1;
            if t is Some {
                text_laws::only_white_space_is_trimmed_away(t->0);
                if text::blank(t->0) {
                    let said = enrich::enriched(doc, opts, cache, source, log).1.warnings;
                    let told = made.0.warnings;
                    assert(told[doc.warnings.len() + said.len() - 1] == said.last());
                }
            }
        }
    }
}

/// Every question carries the operator's words and is about what it is for:
/// an image that awaits a caption is described under `image_prompt` and read
/// under the prompt for reading, audio is transcribed under `audio_prompt`, and
/// the source of scanned pages is read under `pdf_prompt`; the plugin's own
/// prompts stand in only where the profile sets none.
pub proof fn every_question_carries_the_operators_prompt(
    doc: DocumentView,
    opts: LlmOptions,
    cache: Map<Seq<char>, Seq<char>>,
    source: Option<SourceView>,
    log: Seq<Exchange>,
    made: (DocumentView, Map<Seq<char>, Seq<char>>, EnrichReport),
    i: int,
)
    requires
        enrich::passes(doc, opts, cache, source, log, made),
        0 <= i < log.len(),
        log[i] is Described,
    ensures
        opts.binding is Some,
        log[i]->resource is Some,
        ({
            let prompt = log[i]->prompt;
            let uri = log[i]->resource->0;
            let images = opts.enrich.images;
            ||| {
                &&& images == ImageEnrichment::Caption || images == ImageEnrichment::CaptionAndOcr
                &&& enrich::any_awaits(doc.blocks, uri)
                &&& opts.image_prompt is Some ==> prompt == opts.image_prompt->0@
                &&& opts.image_prompt is None ==> prompt == enrich::DEFAULT_IMAGE_PROMPT@
            }
            ||| {
                &&& images == ImageEnrichment::Ocr || images == ImageEnrichment::CaptionAndOcr
                &&& enrich::any_awaits(doc.blocks, uri)
                &&& prompt == enrich::DEFAULT_OCR_PROMPT@
            }
            ||| {
                &&& opts.enrich.audio == AudioEnrichment::Transcribe
                &&& heard_at(doc, uri)
                &&& opts.audio_prompt is Some ==> prompt == opts.audio_prompt->0@
                &&& opts.audio_prompt is None ==> prompt == enrich::DEFAULT_AUDIO_PROMPT@
            }
            ||| {
                &&& opts.enrich.pdf == PdfEnrichment::Ocr
                &&& source is Some
                &&& readable_at(source->0, log, uri)
                &&& opts.pdf_prompt is Some ==> prompt == opts.pdf_prompt->0@
                &&& opts.pdf_prompt is None ==> prompt == enrich::DEFAULT_PDF_OCR_PROMPT@
            }
        }),
{
    enrich_laws::only_what_is_called_for_is_asked(doc, opts, cache, source, log, made, i);
    let prompt = log[i]->prompt;
    let uri = log[i]->resource->0;
    if !enrich::asks(doc, opts, cache, source, prompt, uri) {
        let j = choose|j: int|
            0 <= j < log.len() && #[trigger] log[j] is Stored && log[j].reply() == Ok::<
                Seq<char>,
                Seq<char>,
            >(uri);
        enrich_laws::only_what_is_called_for_is_asked(doc, opts, cache, source, log, made, j);
        assert(log[j] == Exchange::Stored {
            bytes: source->0.bytes,
            mime: source->0.mime,
            reply: Ok(uri),
        });
    }
}

/// A pass adds to the cache only what the model said to it, and only where
/// caching is on; it neither drops nor changes what was there.
pub proof fn the_cache_gains_only_what_was_said(
    doc: DocumentView,
    opts: LlmOptions,
    cache: Map<Seq<char>, Seq<char>>,
    source: Option<SourceView>,
    log: Seq<Exchange>,
    made: (DocumentView, Map<Seq<char>, Seq<char>>, EnrichReport),
)
    requires
        enrich::passes(doc, opts, cache, source, log, made),
    ensures
        !opts.cache ==> made.1 == cache,
        forall|k: Seq<char>| #[trigger]
            cache.contains_key(k) ==> made.1.contains_key(k) && made.1[k] == cache[k],
        forall|k: Seq<char>| #[trigger]
            made.1.contains_key(k) && !cache.contains_key(k) ==> got(log, k, made.1[k]),
{
    reveal(enrich::passes);
    lemma_stages(doc, opts, cache, source, log);
    if !opts.cache {
        assert(made.1 =~= cache);
    }
}

/// A question is known by the words of the prompt and the resource together,
/// with a zero byte between them.
pub proof fn a_question_is_known_by_prompt_and_resource(prompt: Seq<char>, uri: Seq<char>)
    ensures
        enrich::key_of(prompt, Some(uri)) == codec::blake3_hex(
            vstd::utf8::encode_utf8(prompt).push(0) + vstd::utf8::encode_utf8(uri),
        ),
        enrich::key_of(prompt, None) == codec::blake3_hex(
            vstd::utf8::encode_utf8(prompt).push(0),
        ),
{
    let p = vstd::utf8::encode_utf8(prompt);
    let u = vstd::utf8::encode_utf8(uri);
    assert(p + seq![0u8] + u =~= p.push(0) + u);
    assert(vstd::utf8::encode_utf8(Seq::<char>::empty()) =~= Seq::<u8>::empty());
    assert(p + seq![0u8] + Seq::<u8>::empty() =~= p.push(0));
}

/// Where the profile asks for enrichment and names nobody to ask, the document
/// is left as it is and the reader is told; where it asks for none, nothing is
/// said.
pub proof fn a_missing_binding_is_told(
    doc: DocumentView,
    opts: LlmOptions,
    cache: Map<Seq<char>, Seq<char>>,
    source: Option<SourceView>,
    log: Seq<Exchange>,
    made: (DocumentView, Map<Seq<char>, Seq<char>>, EnrichReport),
)
    requires
        enrich::passes(doc, opts, cache, source, log, made),
    ensures
        ({
            let off = opts.enrich.images == ImageEnrichment::Off && opts.enrich.audio
                == AudioEnrichment::Off && opts.enrich.pdf == PdfEnrichment::Off;
            &&& off ==> made.0 == doc
            &&& !off && opts.binding is None ==> made.0 == DocumentView {
                warnings: doc.warnings.push(
                    WarningView {
                        kind: "enrichment_failed"@,
                        message: "llm.enrich is set but llm.binding names no LLM binding"@,
                    },
                ),
                ..doc
            }
            &&& off || opts.binding is None ==> log.len() == 0 && made.1 == cache
        }),
{
    reveal(enrich::passes);
}

/// Where the calls ran out, the last warning says how many there were and how
/// much was left without enrichment.
pub proof fn a_spent_budget_is_told(
    doc: DocumentView,
    opts: LlmOptions,
    cache: Map<Seq<char>, Seq<char>>,
    source: Option<SourceView>,
    log: Seq<Exchange>,
    made: (DocumentView, Map<Seq<char>, Seq<char>>, EnrichReport),
)
    requires
        enrich::passes(doc, opts, cache, source, log, made),
        made.2.skipped_over_budget > 0,
    ensures
        made.0.warnings.len() > doc.warnings.len(),
        made.0.warnings.last() == (WarningView {
            kind: "enrichment_failed"@,
            message: "llm.max_calls_per_document ("@ + text::decimal(
                opts.max_calls_per_document as nat,
            ) + ") is exhausted; left without enrichment: "@ + text::decimal(
                made.2.skipped_over_budget as nat,
            ),
        }),
{
    reveal(enrich::passes);
    enrich_laws::enrichment_only_adds(doc, opts, cache, source, log);
    lemma_stages(doc, opts, cache, source, log);
}

} // verus!
