//! The document between parsing and rendering, as far as enrichment reads it.
//!
//! The engine's own document has more kinds of block than these. What no rule
//! here looks into stands as [`Block::Other`], in its place, so that a caller
//! can carry the outcome back block by block.

use vstd::prelude::*;

use crate::text;

verus! {

/// Why a warning was raised. Every label is one of a closed set.
#[derive(Debug, Clone, Copy, PartialEq, Eq)]
pub enum WarningKind {
    Truncated,
    NoTextLayer,
    TypeMismatch,
    HeuristicApplied,
    Degraded,
    EnrichmentFailed,
    /// A kind that only the engine raises, under the engine's label.
    Engine(&'static str),
}

impl WarningKind {
    /// The label of this kind.
    pub open spec fn label(self) -> Seq<char> {
        match self {
            WarningKind::Truncated => "truncated"@,
            WarningKind::NoTextLayer => "no_text_layer"@,
            WarningKind::TypeMismatch => "type_mismatch"@,
            WarningKind::HeuristicApplied => "heuristic_applied"@,
            WarningKind::Degraded => "degraded"@,
            WarningKind::EnrichmentFailed => "enrichment_failed"@,
            WarningKind::Engine(label) => label@,
        }
    }

    pub fn as_str(self) -> (r: &'static str)
        ensures
            r@ == self.label(),
    {
        match self {
            WarningKind::Truncated => "truncated",
            WarningKind::NoTextLayer => "no_text_layer",
            WarningKind::TypeMismatch => "type_mismatch",
            WarningKind::HeuristicApplied => "heuristic_applied",
            WarningKind::Degraded => "degraded",
            WarningKind::EnrichmentFailed => "enrichment_failed",
            WarningKind::Engine(label) => label,
        }
    }
}

/// One degradation of a document.
#[derive(Debug, Clone, PartialEq, Eq)]
pub struct Warning {
    pub kind: WarningKind,
    pub message: String,
}

/// What a [`Warning`] says.
pub struct WarningView {
    pub kind: Seq<char>,
    pub message: Seq<char>,
}

impl Warning {
    pub open spec fn view(&self) -> WarningView {
        WarningView { kind: self.kind.label(), message: self.message@ }
    }

    pub fn new(kind: WarningKind, message: String) -> (r: Self)
        ensures
            r@ == (WarningView { kind: kind.label(), message: message@ }),
            r.kind == kind,
    {
        Warning { kind, message }
    }
}

/// What each of a list of warnings says.
pub open spec fn warnings_of(v: Seq<Warning>) -> Seq<WarningView> {
    v.map_values(|w: Warning| w@)
}

/// Named facts about a document. The latest value of a name counts.
#[derive(Debug, Clone)]
pub struct Metadata {
    entries: Vec<(String, String)>,
}

impl Metadata {
    /// The value of each name.
    pub closed spec fn view(&self) -> Map<Seq<char>, Seq<char>> {
        entries_of(self.entries@)
    }

    pub fn get<'a>(&'a self, name: &str) -> (r: Option<&'a str>)
        ensures
            r is Some <==> self@.contains_key(name@),
            r matches Some(value) ==> value@ == self@[name@],
    {
        let mut i: usize = self.entries.len();
        assert(self.entries@.take(i as int) =~= self.entries@);
        while i > 0
            invariant
                i <= self.entries@.len(),
                self@.contains_key(name@) == entries_of(
                    self.entries@.take(i as int),
                ).contains_key(name@),
                self@.contains_key(name@) ==> self@[name@] == entries_of(
                    self.entries@.take(i as int),
                )[name@],
            decreases i,
        {
            assert(self.entries@.take(i as int).drop_last() =~= self.entries@.take(i - 1));
            if text::same(self.entries[i - 1].0.as_str(), name) {
                return Some(self.entries[i - 1].1.as_str());
            }
            i = i - 1;
        }
        None
    }

    pub fn set(&mut self, name: &str, value: &str)
        ensures
            final(self)@ == old(self)@.insert(name@, value@),
    {
        self.entries.push((name.to_owned(), value.to_owned()));
        assert(self.entries@.drop_last() =~= old(self).entries@);
    }
}

impl Default for Metadata {
    fn default() -> (r: Self)
        ensures
            r@ == Map::<Seq<char>, Seq<char>>::empty(),
    {
        Metadata { entries: Vec::new() }
    }
}

spec fn entries_of(v: Seq<(String, String)>) -> Map<Seq<char>, Seq<char>>
    decreases v.len(),
{
    if v.len() == 0 {
        Map::empty()
    } else {
        entries_of(v.drop_last()).insert(v.last().0@, v.last().1@)
    }
}

/// Where an image's bytes are.
#[derive(Debug, Clone, PartialEq, Eq)]
pub enum ImageRef {
    /// In the gateway's content store.
    Resource(String),
    /// At an address that the document names.
    Url(String),
    /// Anywhere else.
    Other,
}

#[derive(Debug, Clone, PartialEq, Eq)]
pub struct Image {
    pub alt: Option<String>,
    pub caption: Option<String>,
    pub source: ImageRef,
}

/// A run of text, as plain text.
#[derive(Debug, Clone, PartialEq, Eq)]
pub struct Inline {
    pub plain: String,
}

impl Inline {
    pub open spec fn view(&self) -> Seq<char> {
        self.plain@
    }

    pub fn text(t: &str) -> (r: Self)
        ensures
            r@ == t@,
    {
        Inline { plain: t.to_owned() }
    }

    pub fn to_plain(&self) -> (r: String)
        ensures
            r@ == self@,
    {
        self.plain.clone()
    }
}

/// One block of a document.
#[derive(Debug)]
pub enum Block {
    Heading { level: u8, text: Inline },
    Paragraph(Inline),
    Raw { markdown: String },
    Image(Image),
    Quote(Vec<Block>),
    List { ordered: bool, items: Vec<Vec<Block>> },
    Embedded { name: String, doc: Box<Document> },
    /// A block that no rule here looks into.
    Other,
}

#[derive(Debug)]
pub struct Document {
    pub title: Option<String>,
    pub metadata: Metadata,
    pub blocks: Vec<Block>,
    pub warnings: Vec<Warning>,
}

/// What an [`ImageRef`] says.
pub enum ImageRefView {
    Resource(Seq<char>),
    Url(Seq<char>),
    Other,
}

/// What an [`Image`] says.
pub struct ImageView {
    pub alt: Option<Seq<char>>,
    pub caption: Option<Seq<char>>,
    pub source: ImageRefView,
}

/// What a [`Block`] says.
pub enum BlockView {
    Heading { level: u8, text: Seq<char> },
    Paragraph(Seq<char>),
    Raw { markdown: Seq<char> },
    Image(ImageView),
    Quote(Seq<BlockView>),
    List { ordered: bool, items: Seq<Seq<BlockView>> },
    Embedded { name: Seq<char>, doc: Box<DocumentView> },
    Other,
}

/// What a [`Document`] says.
pub struct DocumentView {
    pub title: Option<Seq<char>>,
    pub metadata: Map<Seq<char>, Seq<char>>,
    pub blocks: Seq<BlockView>,
    pub warnings: Seq<WarningView>,
}

impl ImageRef {
    pub open spec fn view(&self) -> ImageRefView {
        match self {
            ImageRef::Resource(uri) => ImageRefView::Resource(uri@),
            ImageRef::Url(url) => ImageRefView::Url(url@),
            ImageRef::Other => ImageRefView::Other,
        }
    }
}

impl Image {
    pub open spec fn view(&self) -> ImageView {
        ImageView {
            alt: text::text_of(self.alt),
            caption: text::text_of(self.caption),
            source: self.source@,
        }
    }
}

impl Block {
    pub open spec fn view(&self) -> BlockView
        decreases self,
    {
        match self {
            Block::Heading { level, text } => BlockView::Heading { level: *level, text: text@ },
            Block::Paragraph(text) => BlockView::Paragraph(text@),
            Block::Raw { markdown } => BlockView::Raw { markdown: markdown@ },
            Block::Image(image) => BlockView::Image(image@),
            Block::Quote(inner) => BlockView::Quote(blocks_of(inner@)),
            Block::List { ordered, items } => BlockView::List {
                ordered: *ordered,
                items: items_of(items@),
            },
            Block::Embedded { name, doc } => BlockView::Embedded {
                name: name@,
                doc: Box::new(doc.view()),
            },
            Block::Other => BlockView::Other,
        }
    }
}

/// What each of a list of blocks says.
pub open spec fn blocks_of(v: Seq<Block>) -> Seq<BlockView>
    decreases v,
{
    Seq::new(
        v.len(),
        |i: int|
            if 0 <= i < v.len() {
                v[i].view()
            } else {
                BlockView::Other
            },
    )
}

/// What each item of a list block says.
pub open spec fn items_of(v: Seq<Vec<Block>>) -> Seq<Seq<BlockView>>
    decreases v,
{
    Seq::new(
        v.len(),
        |i: int|
            if 0 <= i < v.len() {
                blocks_of(v[i]@)
            } else {
                Seq::empty()
            },
    )
}

impl Document {
    pub open spec fn view(&self) -> DocumentView
        decreases self,
    {
        DocumentView {
            title: text::text_of(self.title),
            metadata: self.metadata@,
            blocks: blocks_of(self.blocks@),
            warnings: warnings_of(self.warnings@),
        }
    }
}

impl Default for Document {
    fn default() -> (r: Self)
        ensures
            r@.title is None,
            r@.metadata == Map::<Seq<char>, Seq<char>>::empty(),
            r@.blocks == Seq::<BlockView>::empty(),
            r@.warnings == Seq::<WarningView>::empty(),
    {
        let r = Document {
            title: None,
            metadata: Metadata::default(),
            blocks: Vec::new(),
            warnings: Vec::new(),
        };
        assert(r@.blocks =~= Seq::<BlockView>::empty());
        assert(r@.warnings =~= Seq::<WarningView>::empty());
        r
    }
}

} // verus!
