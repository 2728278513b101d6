use std::cell::RefCell;

use markdown_plugin::config::{
    AudioEnrichment, EnrichOptions, ImageEnrichment, LlmOptions, PdfEnrichment,
};
use markdown_plugin::document::{
    Block, Document, Image, ImageRef, Inline, Metadata, WarningKind,
};
use markdown_plugin::enrich::{
    cache_key, dispatch_arguments, dispatch_reply, enrich, extract_text, settle, EnrichReport,
    Enricher, EnrichmentCache, Source, DEFAULT_IMAGE_PROMPT, DEFAULT_OCR_PROMPT,
    DEFAULT_PDF_OCR_PROMPT,
};
use markdown_plugin::json::Json;

struct Recording {
    replies: RefCell<Vec<Result<String, String>>>,
    calls: RefCell<Vec<(String, Option<String>)>>,
    /// (byte length, mime) per `store` call.
    stored: RefCell<Vec<(usize, String)>>,
}

impl Recording {
    fn ok(n: usize, text: &str) -> Self {
        Self {
            replies: RefCell::new((0..n).map(|_| Ok(text.to_owned())).collect()),
            calls: RefCell::new(Vec::new()),
            stored: RefCell::new(Vec::new()),
        }
    }
    fn failing() -> Self {
        Self {
            replies: RefCell::new(Vec::new()),
            calls: RefCell::new(Vec::new()),
            stored: RefCell::new(Vec::new()),
        }
    }
}

impl Enricher for Recording {
    fn describe(&mut self, prompt: &str, resource: Option<&str>) -> Result<String, String> {
        self.calls
            .borrow_mut()
            .push((prompt.to_owned(), resource.map(str::to_owned)));
        self.replies
            .borrow_mut()
            .pop()
            .unwrap_or_else(|| Err("no model available".to_owned()))
    }

    fn store(&mut self, bytes: &[u8], mime: &str) -> Result<String, String> {
        self.stored
            .borrow_mut()
            .push((bytes.len(), mime.to_owned()));
        Ok("mcpg-resource://hash:stored".to_owned())
    }
}

fn opts(images: ImageEnrichment) -> LlmOptions {
    LlmOptions {
        binding: Some("vision".into()),
        enrich: EnrichOptions {
            images,
            audio: AudioEnrichment::Off,
            pdf: PdfEnrichment::Off,
        },
        max_calls_per_document: 8,
        cache: true,
        image_prompt: None,
        audio_prompt: None,
        pdf_prompt: None,
    }
}

fn doc_with_image(source: ImageRef) -> Document {
    Document {
        blocks: vec![Block::Image(Image {
            alt: Some("chart".into()),
            caption: None,
            source,
        })],
        ..Document::default()
    }
}

fn caption(doc: &Document) -> Option<String> {
    doc.blocks.iter().find_map(|b| match b {
        Block::Image(i) => i.caption.clone(),
        _ => None,
    })
}

#[test]
fn a_stored_resource_gets_a_caption() {
    let mut doc = doc_with_image(ImageRef::Resource("mcpg-resource://hash:a".into()));
    let mut e = Recording::ok(1, "A bar chart.");
    let r = enrich(
        &mut doc,
        &opts(ImageEnrichment::Caption),
        &mut e,
        &mut EnrichmentCache::new(),
        None,
    );
    assert_eq!(caption(&doc).as_deref(), Some("A bar chart."));
    assert_eq!(r.succeeded, 1);
}

#[test]
fn a_url_inside_a_document_is_never_sent_anywhere() {
    let mut doc = doc_with_image(ImageRef::Url("http://169.254.169.254/x.png".into()));
    let mut e = Recording::ok(1, "should not happen");
    let r = enrich(
        &mut doc,
        &opts(ImageEnrichment::Caption),
        &mut e,
        &mut EnrichmentCache::new(),
        None,
    );
    assert_eq!(r.attempted, 0);
    assert!(e.calls.borrow().is_empty());
    assert!(caption(&doc).is_none());
}

#[test]
fn enrichment_is_off_without_a_binding() {
    let mut doc = doc_with_image(ImageRef::Resource("mcpg-resource://hash:a".into()));
    let mut o = opts(ImageEnrichment::Caption);
    o.binding = None;
    let mut e = Recording::ok(1, "x");
    assert_eq!(
        enrich(&mut doc, &o, &mut e, &mut EnrichmentCache::new(), None).attempted,
        0
    );
    assert!(e.calls.borrow().is_empty());
    assert_eq!(
        doc.warnings[0].message,
        "llm.enrich is set but llm.binding names no LLM binding"
    );
}

#[test]
fn a_pass_with_nothing_to_enrich_says_nothing() {
    let mut doc = doc_with_image(ImageRef::Resource("mcpg-resource://hash:a".into()));
    let mut e = Recording::ok(1, "x");
    let r = enrich(
        &mut doc,
        &LlmOptions::default(),
        &mut e,
        &mut EnrichmentCache::new(),
        None,
    );
    assert_eq!(r, EnrichReport::default());
    assert!(doc.warnings.is_empty());
}

#[test]
fn a_failure_degrades_the_document_rather_than_the_call() {
    let mut doc = doc_with_image(ImageRef::Resource("mcpg-resource://hash:a".into()));
    let mut e = Recording::failing();
    let r = enrich(
        &mut doc,
        &opts(ImageEnrichment::Caption),
        &mut e,
        &mut EnrichmentCache::new(),
        None,
    );
    assert_eq!(r.failed, 1);
    assert!(caption(&doc).is_none());
    assert!(
        doc.warnings
            .iter()
            .any(|w| w.kind == WarningKind::EnrichmentFailed),
        "{:?}",
        doc.warnings
    );
    assert_eq!(
        doc.warnings[0].message,
        "enrichment for mcpg-resource://hash:a failed: no model available"
    );
}

#[test]
fn the_call_budget_is_enforced() {
    let mut doc = Document {
        blocks: (0..5)
            .map(|i| {
                Block::Image(Image {
                    alt: None,
                    caption: None,
                    source: ImageRef::Resource(format!("mcpg-resource://hash:{i}")),
                })
            })
            .collect(),
        ..Document::default()
    };
    let mut o = opts(ImageEnrichment::Caption);
    o.max_calls_per_document = 2;
    let mut e = Recording::ok(5, "cap");
    let r = enrich(&mut doc, &o, &mut e, &mut EnrichmentCache::new(), None);
    assert_eq!(r.attempted, 2);
    assert_eq!(r.skipped_over_budget, 3);
    assert_eq!(doc.warnings.len(), 1);
    assert_eq!(
        doc.warnings[0].message,
        "llm.max_calls_per_document (2) is exhausted; left without enrichment: 3"
    );
}

#[test]
fn identical_images_hit_the_cache_rather_than_the_model() {
    let mut doc = Document {
        blocks: (0..3)
            .map(|_| {
                Block::Image(Image {
                    alt: None,
                    caption: None,
                    source: ImageRef::Resource("mcpg-resource://hash:same".into()),
                })
            })
            .collect(),
        ..Document::default()
    };
    let mut e = Recording::ok(3, "same picture");
    let r = enrich(
        &mut doc,
        &opts(ImageEnrichment::Caption),
        &mut e,
        &mut EnrichmentCache::new(),
        None,
    );
    assert_eq!(r.attempted, 1, "the same content was described twice");
    assert_eq!(r.cached, 2);
}

#[test]
fn ocr_mode_asks_for_the_text_as_well() {
    let mut doc = doc_with_image(ImageRef::Resource("mcpg-resource://hash:a".into()));
    let mut e = Recording::ok(2, "INVOICE 42");
    enrich(
        &mut doc,
        &opts(ImageEnrichment::CaptionAndOcr),
        &mut e,
        &mut EnrichmentCache::new(),
        None,
    );
    assert!(caption(&doc).unwrap().contains("Text in image"));
    assert_eq!(
        caption(&doc).as_deref(),
        Some("INVOICE 42\n\nText in image: INVOICE 42")
    );
}

#[test]
fn images_nested_in_embedded_documents_are_reached() {
    let inner = Document {
        blocks: vec![Block::Image(Image {
            alt: None,
            caption: None,
            source: ImageRef::Resource("mcpg-resource://hash:deep".into()),
        })],
        ..Document::default()
    };
    let mut doc = Document {
        blocks: vec![Block::Embedded {
            name: "attachment".into(),
            doc: Box::new(inner),
        }],
        ..Document::default()
    };
    let mut e = Recording::ok(1, "found it");
    assert_eq!(
        enrich(
            &mut doc,
            &opts(ImageEnrichment::Caption),
            &mut e,
            &mut EnrichmentCache::new(),
            None
        )
        .succeeded,
        1
    );
}

#[test]
fn images_in_quotes_and_lists_are_reached() {
    let image = |uri: &str| {
        Block::Image(Image {
            alt: None,
            caption: None,
            source: ImageRef::Resource(uri.to_owned()),
        })
    };
    let mut doc = Document {
        blocks: vec![
            Block::Quote(vec![image("mcpg-resource://hash:q")]),
            Block::List {
                ordered: true,
                items: vec![vec![image("mcpg-resource://hash:l")], vec![]],
            },
            Block::Other,
        ],
        ..Document::default()
    };
    let mut e = Recording::ok(2, "seen");
    let r = enrich(
        &mut doc,
        &opts(ImageEnrichment::Caption),
        &mut e,
        &mut EnrichmentCache::new(),
        None,
    );
    assert_eq!(r.succeeded, 2);
    let asked: Vec<Option<String>> = e.calls.borrow().iter().map(|c| c.1.clone()).collect();
    assert_eq!(
        asked,
        vec![
            Some("mcpg-resource://hash:q".to_owned()),
            Some("mcpg-resource://hash:l".to_owned())
        ]
    );
    assert!(matches!(doc.blocks[2], Block::Other));
}

#[test]
fn an_existing_caption_is_not_overwritten() {
    let mut doc = Document {
        blocks: vec![Block::Image(Image {
            alt: None,
            caption: Some("already described".into()),
            source: ImageRef::Resource("mcpg-resource://hash:a".into()),
        })],
        ..Document::default()
    };
    let mut e = Recording::ok(1, "new");
    assert_eq!(
        enrich(
            &mut doc,
            &opts(ImageEnrichment::Caption),
            &mut e,
            &mut EnrichmentCache::new(),
            None
        )
        .attempted,
        0
    );
    assert_eq!(caption(&doc).as_deref(), Some("already described"));
}

#[test]
fn audio_placeholders_are_replaced_by_a_transcript() {
    let mut metadata = Metadata::default();
    metadata.set("source_uri", "mcpg-resource://hash:audio");
    let mut doc = Document {
        metadata,
        blocks: vec![Block::Paragraph(Inline::text("[audio: no transcript]"))],
        ..Document::default()
    };
    let mut o = opts(ImageEnrichment::Off);
    o.enrich.audio = AudioEnrichment::Transcribe;
    let mut e = Recording::ok(1, "hello world");
    enrich(&mut doc, &o, &mut e, &mut EnrichmentCache::new(), None);
    match &doc.blocks[0] {
        Block::Paragraph(i) => assert_eq!(i.to_plain(), "hello world"),
        other => panic!("{other:?}"),
    }
}

fn pdf_opts() -> LlmOptions {
    let mut o = opts(ImageEnrichment::Off);
    o.enrich.pdf = PdfEnrichment::Ocr;
    o
}

/// A document shaped the way the PDF converter leaves a scanned file.
fn scanned_doc(scanned: &str, pages: &str) -> Document {
    let mut metadata = Metadata::default();
    metadata.set("pdf_scanned_pages", scanned);
    metadata.set("pdf_page_count", pages);
    Document {
        metadata,
        blocks: vec![],
        ..Document::default()
    }
}

fn source<'a>(bytes: &'a [u8], uri: Option<&'a str>) -> Source<'a> {
    Source {
        bytes,
        mime: "application/pdf",
        uri,
    }
}

#[test]
fn a_scanned_pdf_is_read_and_the_result_is_labelled_as_transcribed() {
    let mut doc = scanned_doc("1,2", "2");
    let mut e = Recording::ok(1, "# Invoice\n\nTotal: 1200");
    let r = enrich(
        &mut doc,
        &pdf_opts(),
        &mut e,
        &mut EnrichmentCache::new(),
        Some(source(b"%PDF-1.4", Some("mcpg-resource://hash:pdf"))),
    );
    assert_eq!(r.succeeded, 1);

    let rendered = format!("{:?}", doc.blocks);
    assert!(rendered.contains("Invoice"), "{rendered}");
    assert!(rendered.contains("transcribed"), "{rendered}");
    assert!(
        doc.warnings
            .iter()
            .any(|w| w.message.contains("not as the document's own text")),
        "{:?}",
        doc.warnings
    );
    match &doc.blocks[0] {
        Block::Heading { level, text } => {
            assert_eq!(*level, 2);
            assert_eq!(text.to_plain(), "Scanned pages 1,2 of 2 (transcribed)");
        }
        other => panic!("{other:?}"),
    }
}

#[test]
fn an_inline_pdf_is_stored_once_so_the_model_can_read_it() {
    let mut doc = scanned_doc("1", "1");
    let mut e = Recording::ok(1, "text");
    enrich(
        &mut doc,
        &pdf_opts(),
        &mut e,
        &mut EnrichmentCache::new(),
        Some(source(b"%PDF-1.4 inline", None)),
    );
    assert_eq!(e.stored.borrow().len(), 1);
    assert_eq!(e.stored.borrow()[0].1, "application/pdf");
    assert_eq!(
        e.calls.borrow()[0].1.as_deref(),
        Some("mcpg-resource://hash:stored")
    );
}

#[test]
fn an_already_stored_pdf_is_not_stored_again() {
    let mut doc = scanned_doc("1", "1");
    let mut e = Recording::ok(1, "text");
    enrich(
        &mut doc,
        &pdf_opts(),
        &mut e,
        &mut EnrichmentCache::new(),
        Some(source(b"%PDF-1.4", Some("mcpg-resource://hash:already"))),
    );
    assert!(e.stored.borrow().is_empty(), "stored a second copy");
}

#[test]
fn a_pdf_with_a_text_layer_is_not_sent_anywhere() {
    let mut doc = Document::default();
    let mut e = Recording::ok(1, "should not happen");
    let r = enrich(
        &mut doc,
        &pdf_opts(),
        &mut e,
        &mut EnrichmentCache::new(),
        Some(source(b"%PDF-1.4", Some("mcpg-resource://hash:pdf"))),
    );
    assert_eq!(r.attempted, 0);
    assert!(e.calls.borrow().is_empty());
}

#[test]
fn ocr_stays_off_unless_asked_for() {
    let mut doc = scanned_doc("1", "1");
    let mut e = Recording::ok(1, "text");
    let r = enrich(
        &mut doc,
        &opts(ImageEnrichment::Caption),
        &mut e,
        &mut EnrichmentCache::new(),
        Some(source(b"%PDF-1.4", Some("mcpg-resource://hash:pdf"))),
    );
    assert_eq!(r.attempted, 0, "image captioning must not buy PDF OCR too");
}

struct NoStore;

impl Enricher for NoStore {
    fn describe(&mut self, _p: &str, _r: Option<&str>) -> Result<String, String> {
        Ok("unused".to_owned())
    }
    fn store(&mut self, _b: &[u8], _m: &str) -> Result<String, String> {
        Err("content store unavailable".to_owned())
    }
}

#[test]
fn a_failed_store_degrades_rather_than_failing_the_conversion() {
    let mut doc = scanned_doc("1", "1");
    let r = enrich(
        &mut doc,
        &pdf_opts(),
        &mut NoStore,
        &mut EnrichmentCache::new(),
        Some(source(b"%PDF-1.4", None)),
    );
    assert_eq!(r.failed, 1);
    assert!(
        doc.warnings
            .iter()
            .any(|w| w.kind == WarningKind::EnrichmentFailed),
        "{:?}",
        doc.warnings
    );
    assert_eq!(
        doc.warnings[0].message,
        "could not store the PDF for OCR: content store unavailable"
    );
}

#[test]
fn empty_ocr_output_warns_rather_than_appending_an_empty_section() {
    let mut doc = scanned_doc("1", "1");
    let mut e = Recording::ok(1, "   \n  ");
    enrich(
        &mut doc,
        &pdf_opts(),
        &mut e,
        &mut EnrichmentCache::new(),
        Some(source(b"%PDF-1.4", Some("mcpg-resource://hash:pdf"))),
    );
    assert!(doc.blocks.is_empty(), "{:?}", doc.blocks);
    assert!(doc
        .warnings
        .iter()
        .any(|w| w.kind == WarningKind::EnrichmentFailed));
}

#[test]
fn ocr_respects_the_per_document_call_budget() {
    let mut doc = scanned_doc("1", "1");
    let mut o = pdf_opts();
    o.max_calls_per_document = 0;
    let mut e = Recording::ok(1, "text");
    let r = enrich(
        &mut doc,
        &o,
        &mut e,
        &mut EnrichmentCache::new(),
        Some(source(b"%PDF-1.4", Some("mcpg-resource://hash:pdf"))),
    );
    assert_eq!(r.attempted, 0);
    assert_eq!(r.skipped_over_budget, 1);
}

fn text_of(v: &Json, out: &mut Vec<String>) {
    match v {
        Json::Str(s) => out.push(s.clone()),
        Json::Array(items) => items.iter().for_each(|i| text_of(i, out)),
        Json::Object(members) => members.iter().for_each(|(k, m)| {
            out.push(k.clone());
            text_of(m, out)
        }),
        _ => {}
    }
}

#[test]
fn dispatch_arguments_reference_the_resource_rather_than_inline_it() {
    let v = dispatch_arguments("describe", Some("mcpg-resource://hash:a"));
    let mut words = Vec::new();
    text_of(&v, &mut words);
    let text = words.join(" ");
    assert!(text.contains("mcpg-resource://hash:a"), "{text}");
    assert!(
        !text.contains("base64"),
        "bytes must not be inlined: {text}"
    );
    let at = |p: &str| match v.pointer(p) {
        Some(Json::Str(s)) => s.clone(),
        other => panic!("{p}: {other:?}"),
    };
    assert_eq!(at("/messages/0/role"), "user");
    assert_eq!(at("/messages/0/content/0/type"), "resource");
    assert_eq!(at("/messages/0/content/0/uri"), "mcpg-resource://hash:a");
    assert_eq!(at("/messages/0/content/1/text"), "describe");
}

#[test]
fn a_dispatch_without_a_resource_carries_the_prompt_alone() {
    let v = dispatch_arguments("hello", None);
    assert_eq!(
        v.pointer("/messages/0/content"),
        Some(&Json::Str("hello".to_owned()))
    );
}

fn object(members: Vec<(&str, Json)>) -> Json {
    Json::Object(
        members
            .into_iter()
            .map(|(k, v)| (k.to_owned(), v))
            .collect(),
    )
}

fn string(s: &str) -> Json {
    Json::Str(s.to_owned())
}

#[test]
fn text_is_extracted_from_the_common_response_shapes() {
    assert_eq!(
        extract_text(&object(vec![(
            "content",
            Json::Array(vec![object(vec![("text", string("a"))])])
        )]))
        .as_deref(),
        Some("a")
    );
    assert_eq!(
        extract_text(&object(vec![(
            "choices",
            Json::Array(vec![object(vec![(
                "message",
                object(vec![("content", string("b"))])
            )])])
        )]))
        .as_deref(),
        Some("b")
    );
    assert_eq!(extract_text(&string("plain")).as_deref(), Some("plain"));
    assert_eq!(
        extract_text(&object(vec![("unrelated", Json::Number("1".to_owned()))])),
        None
    );
    assert_eq!(extract_text(&object(vec![("text", string("   "))])), None);
}

#[test]
fn the_remaining_response_shapes_are_read_too() {
    assert_eq!(
        extract_text(&object(vec![(
            "message",
            object(vec![("content", string("m"))])
        )]))
        .as_deref(),
        Some("m")
    );
    assert_eq!(
        extract_text(&object(vec![("output", string("o"))])).as_deref(),
        Some("o")
    );
    // The first place that holds a text wins.
    assert_eq!(
        extract_text(&object(vec![("output", string("o")), ("text", string("t"))])).as_deref(),
        Some("t")
    );
}

#[test]
fn a_dispatch_without_text_is_a_failure_of_the_binding() {
    assert_eq!(
        dispatch_reply("vision", Ok(Json::Null)),
        Err("vision returned no text".to_owned())
    );
    assert_eq!(
        dispatch_reply("vision", Err("denied".to_owned())),
        Err("denied".to_owned())
    );
    assert_eq!(dispatch_reply("vision", Ok(string("hi"))), Ok("hi".to_owned()));
}

#[test]
fn the_cache_key_is_the_hash_of_prompt_and_resource() {
    let mut h = blake3::Hasher::new();
    h.update(b"describe");
    h.update(b"\0");
    h.update(b"mcpg-resource://hash:a");
    assert_eq!(
        cache_key("describe", Some("mcpg-resource://hash:a")),
        h.finalize().to_hex().to_string()
    );
    assert_ne!(cache_key("a", None), cache_key("b", None));
    assert_eq!(cache_key("a", None).len(), 64);
}

#[test]
fn a_reply_is_cached_only_where_it_is_to_be_kept() {
    let mut cache = EnrichmentCache::new();
    let mut report = EnrichReport::default();
    let mut warnings = Vec::new();
    let told = settle(
        Ok("seen".to_owned()),
        "k".to_owned(),
        None,
        false,
        &mut cache,
        &mut report,
        &mut warnings,
    );
    assert_eq!(told.as_deref(), Some("seen"));
    assert_eq!(cache.get("k"), None);
    settle(
        Ok("again".to_owned()),
        "k".to_owned(),
        None,
        true,
        &mut cache,
        &mut report,
        &mut warnings,
    );
    assert_eq!(cache.get("k").as_deref(), Some("again"));
    let none = settle(
        Err("down".to_owned()),
        "other".to_owned(),
        None,
        true,
        &mut cache,
        &mut report,
        &mut warnings,
    );
    assert_eq!(none, None);
    assert_eq!(cache.get("other"), None);
    assert_eq!((report.attempted, report.succeeded, report.failed), (3, 2, 1));
    assert!(report.ran());
    assert!(!EnrichReport::default().ran());
    assert_eq!(
        warnings[0].message,
        "enrichment for the document failed: down"
    );
}

#[test]
fn the_cache_outlives_a_pass() {
    let mut cache = EnrichmentCache::new();
    let o = opts(ImageEnrichment::Caption);
    let mut first = doc_with_image(ImageRef::Resource("mcpg-resource://hash:a".into()));
    let mut e = Recording::ok(1, "A bar chart.");
    enrich(&mut first, &o, &mut e, &mut cache, None);
    let mut second = doc_with_image(ImageRef::Resource("mcpg-resource://hash:a".into()));
    let r = enrich(&mut second, &o, &mut Recording::failing(), &mut cache, None);
    assert_eq!((r.attempted, r.cached), (0, 1));
    assert_eq!(caption(&second).as_deref(), Some("A bar chart."));
}

#[test]
fn what_the_document_said_it_still_says() {
    let mut metadata = Metadata::default();
    metadata.set("source_uri", "mcpg-resource://hash:audio");
    metadata.set("pdf_scanned_pages", "3");
    let mut doc = Document {
        title: Some("Title".to_owned()),
        metadata,
        blocks: vec![
            Block::Paragraph(Inline::text("kept")),
            Block::Paragraph(Inline::text("[audio: no transcript]")),
            Block::Paragraph(Inline::text("[audio: no transcript]")),
        ],
        warnings: vec![markdown_plugin::document::Warning::new(
            WarningKind::HeuristicApplied,
            "guessed".to_owned(),
        )],
    };
    let mut o = pdf_opts();
    o.enrich.audio = AudioEnrichment::Transcribe;
    let mut e = Recording::ok(2, " heard ");
    let r = enrich(
        &mut doc,
        &o,
        &mut e,
        &mut EnrichmentCache::new(),
        Some(source(b"%PDF-1.4", Some("mcpg-resource://hash:pdf"))),
    );
    assert_eq!(r.succeeded, 2);
    assert_eq!(doc.title.as_deref(), Some("Title"));
    assert_eq!(
        doc.metadata.get("source_uri"),
        Some("mcpg-resource://hash:audio")
    );
    assert_eq!(doc.warnings[0].message, "guessed");
    let plain: Vec<String> = doc
        .blocks
        .iter()
        .map(|b| match b {
            Block::Paragraph(i) => i.to_plain(),
            Block::Heading { text, .. } => text.to_plain(),
            Block::Raw { markdown } => markdown.clone(),
            other => panic!("{other:?}"),
        })
        .collect();
    assert_eq!(
        plain,
        vec![
            "kept",
            "heard",
            "[audio: no transcript]",
            "Scanned pages 3 of ? (transcribed)",
            "heard",
        ]
    );
}

#[test]
fn a_second_pass_over_the_same_content_asks_nothing() {
    let mut o = opts(ImageEnrichment::CaptionAndOcr);
    o.enrich.audio = AudioEnrichment::Transcribe;
    o.enrich.pdf = PdfEnrichment::Ocr;
    let fresh = || {
        let mut doc = scanned_doc("1-2", "3");
        doc.metadata.set("source_uri", "mcpg-resource://hash:song");
        doc.blocks.push(Block::Image(Image {
            alt: None,
            caption: None,
            source: ImageRef::Resource("mcpg-resource://hash:a".into()),
        }));
        doc.blocks
            .push(Block::Paragraph(Inline::text("[audio: no transcript]")));
        doc
    };
    let pdf = Some(source(b"%PDF", Some("mcpg-resource://hash:pdf")));
    let mut cache = EnrichmentCache::new();
    let mut first = fresh();
    let mut e = Recording::ok(4, "read");
    let r = enrich(&mut first, &o, &mut e, &mut cache, pdf);
    assert_eq!((r.attempted, r.failed, r.skipped_over_budget), (4, 0, 0));

    let mut silent = Recording::failing();
    let mut second = fresh();
    let r = enrich(&mut second, &o, &mut silent, &mut cache, pdf);
    assert_eq!((r.attempted, r.cached, r.failed), (0, 4, 0));
    assert!(silent.calls.borrow().is_empty());
    assert!(silent.stored.borrow().is_empty());
    assert_eq!(format!("{second:?}"), format!("{first:?}"));
}

#[test]
fn each_question_is_asked_once_and_in_order() {
    let mut o = opts(ImageEnrichment::CaptionAndOcr);
    o.enrich.pdf = PdfEnrichment::Ocr;
    let mut doc = scanned_doc("1", "1");
    for uri in ["mcpg-resource://hash:a", "mcpg-resource://hash:b", "mcpg-resource://hash:a"] {
        doc.blocks.push(Block::Image(Image {
            alt: None,
            caption: None,
            source: ImageRef::Resource(uri.into()),
        }));
    }
    let mut e = Recording::ok(5, "read");
    let r = enrich(
        &mut doc,
        &o,
        &mut e,
        &mut EnrichmentCache::new(),
        Some(source(b"%PDF", None)),
    );
    assert_eq!((r.attempted, r.cached), (5, 2));
    let asked: Vec<_> = e.calls.borrow().clone();
    let about = |p: &str, uri: &str| (p.to_owned(), Some(uri.to_owned()));
    assert_eq!(
        asked,
        vec![
            about(DEFAULT_IMAGE_PROMPT, "mcpg-resource://hash:a"),
            about(DEFAULT_OCR_PROMPT, "mcpg-resource://hash:a"),
            about(DEFAULT_IMAGE_PROMPT, "mcpg-resource://hash:b"),
            about(DEFAULT_OCR_PROMPT, "mcpg-resource://hash:b"),
            about(DEFAULT_PDF_OCR_PROMPT, "mcpg-resource://hash:stored"),
        ]
    );
    assert_eq!(e.stored.borrow().len(), 1);
}

#[test]
fn a_failing_host_leaves_what_was_cached() {
    let o = opts(ImageEnrichment::Caption);
    let mut cache = EnrichmentCache::new();
    let mut doc = doc_with_image(ImageRef::Resource("mcpg-resource://hash:a".into()));
    enrich(&mut doc, &o, &mut Recording::ok(1, "A chart."), &mut cache, None);

    let mut doc = doc_with_image(ImageRef::Resource("mcpg-resource://hash:a".into()));
    doc.blocks.push(Block::Image(Image {
        alt: None,
        caption: None,
        source: ImageRef::Resource("mcpg-resource://hash:b".into()),
    }));
    let r = enrich(&mut doc, &o, &mut Recording::failing(), &mut cache, None);
    assert_eq!((r.cached, r.failed, r.succeeded), (1, 1, 0));
    let key = |uri| cache_key(DEFAULT_IMAGE_PROMPT, Some(uri));
    assert_eq!(
        cache.get(&key("mcpg-resource://hash:a")).as_deref(),
        Some("A chart.")
    );
    assert_eq!(cache.get(&key("mcpg-resource://hash:b")), None);
}

#[test]
fn a_copied_cache_knows_the_same_and_is_taken_over() {
    let mut cache = EnrichmentCache::new();
    cache.insert("a".to_owned(), "one".to_owned());
    cache.insert("b".to_owned(), "two".to_owned());
    cache.insert("a".to_owned(), "uno".to_owned());
    let mut copy = cache.copy();
    assert_eq!(copy.get("a").as_deref(), Some("uno"));
    assert_eq!(copy.get("b").as_deref(), Some("two"));
    assert_eq!(copy.get("c"), None);

    copy.insert("c".to_owned(), "three".to_owned());
    copy.insert("b".to_owned(), "dos".to_owned());
    assert_eq!(cache.get("c"), None);
    cache.insert("d".to_owned(), "four".to_owned());
    cache.absorb(&copy);
    for (key, reply) in [("a", "uno"), ("b", "dos"), ("c", "three"), ("d", "four")] {
        assert_eq!(cache.get(key).as_deref(), Some(reply));
    }
}
