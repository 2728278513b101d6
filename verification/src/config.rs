//! Profile configuration: the parts of a profile that need a host.

use vstd::prelude::*;

verus! {

/// One named conversion profile. Both entities read the same map, so a tool
/// call and a pipeline step cannot silently render one document differently.
#[derive(Debug, Clone, PartialEq, Eq)]
pub struct ProfileConfig {
    /// Which acquisition modes this profile accepts. There is no filesystem
    /// mode.
    pub sources: Sources,
    pub url: UrlOptions,
    pub llm: LlmOptions,
    /// What the conversion engine was given, as far as the rules here read it.
    pub convert: ConvertOptions,
}

/// The engine options that profile rules look at.
#[derive(Debug, Clone, PartialEq, Eq)]
pub struct ConvertOptions {
    pub limits: Limits,
}

/// Ceilings on one conversion.
#[derive(Debug, Clone, PartialEq, Eq)]
pub struct Limits {
    pub max_input_bytes: u64,
    pub max_output_bytes: u64,
    pub max_expanded_bytes: u64,
    pub timeout_ms: u64,
    pub max_depth: u32,
}

/// Accepted input modes, in the order the plugin looks for them.
#[derive(Debug, Clone, PartialEq, Eq, Structural)]
pub struct Sources {
    /// `content` (base64) or `text` in the tool arguments.
    pub inline: bool,
    /// `mcpg-resource://`, read through the host's content store.
    pub resource: bool,
    /// `https://`. Opt-in.
    pub url: bool,
}

pub fn yes() -> (r: bool)
    ensures
        r,
{
    true
}

impl Default for Sources {
    fn default() -> (r: Self)
        ensures
            r == (Sources { inline: true, resource: true, url: false }),
    {
        Sources { inline: true, resource: true, url: false }
    }
}

#[derive(Debug, Clone, PartialEq, Eq)]
pub struct UrlOptions {
    /// Allow fetching from private, loopback and link-local addresses. Off by
    /// default: a caller-supplied URL that reaches a cloud metadata address is
    /// the classic exfiltration path.
    pub allow_private_addresses: bool,
    pub max_redirects: u32,
    pub timeout_ms: u64,
    /// Host allowlist. Empty means any host that passes the address guard.
    pub allow_hosts: Vec<String>,
}

pub fn d_redirects() -> (r: u32)
    ensures
        r == 3,
{
    3
}

pub fn d_timeout() -> (r: u64)
    ensures
        r == 20_000,
{
    20_000
}

impl Default for UrlOptions {
    fn default() -> (r: Self)
        ensures
            !r.allow_private_addresses,
            r.max_redirects == 3,
            r.timeout_ms == 20_000,
            r.allow_hosts@.len() == 0,
    {
        UrlOptions {
            allow_private_addresses: false,
            max_redirects: d_redirects(),
            timeout_ms: d_timeout(),
            allow_hosts: Vec::new(),
        }
    }
}

/// Optional model-driven enrichment.
///
/// The converter never holds a provider credential: `binding` names an
/// existing LLM binding and every call is dispatched through the host.
#[derive(Debug, Clone, PartialEq, Eq)]
pub struct LlmOptions {
    /// Name of a configured tool backed by an LLM binding. `None` disables
    /// enrichment entirely.
    pub binding: Option<String>,
    pub enrich: EnrichOptions,
    pub max_calls_per_document: u32,
    /// Cache captions by content hash.
    pub cache: bool,
    /// Prompt for image captioning.
    pub image_prompt: Option<String>,
    pub audio_prompt: Option<String>,
    /// Prompt for reading a scanned PDF.
    pub pdf_prompt: Option<String>,
}

pub fn d_max_calls() -> (r: u32)
    ensures
        r == 8,
{
    8
}

impl Default for LlmOptions {
    fn default() -> (r: Self)
        ensures
            r.binding is None,
            !r.enrich.wanted(),
            r.max_calls_per_document == 8,
            r.cache,
            r.image_prompt is None,
            r.audio_prompt is None,
            r.pdf_prompt is None,
    {
        LlmOptions {
            binding: None,
            enrich: EnrichOptions::default(),
            max_calls_per_document: d_max_calls(),
            cache: true,
            image_prompt: None,
            audio_prompt: None,
            pdf_prompt: None,
        }
    }
}

#[derive(Debug, Clone, PartialEq, Eq, Structural)]
pub struct EnrichOptions {
    pub images: ImageEnrichment,
    pub audio: AudioEnrichment,
    pub pdf: PdfEnrichment,
}

impl EnrichOptions {
    /// Whether any enrichment is switched on.
    pub open spec fn wanted(self) -> bool {
        self.images != ImageEnrichment::Off || self.audio != AudioEnrichment::Off || self.pdf
            != PdfEnrichment::Off
    }
}

impl Default for EnrichOptions {
    fn default() -> (r: Self)
        ensures
            r == (EnrichOptions {
                images: ImageEnrichment::Off,
                audio: AudioEnrichment::Off,
                pdf: PdfEnrichment::Off,
            }),
    {
        EnrichOptions {
            images: ImageEnrichment::Off,
            audio: AudioEnrichment::Off,
            pdf: PdfEnrichment::Off,
        }
    }
}

/// What to do with a PDF whose pages carry no text layer.
///
/// A separate knob from `images` because this sends a whole document rather
/// than one picture.
#[derive(Debug, Clone, Copy, PartialEq, Eq, Structural)]
pub enum PdfEnrichment {
    Off,
    /// Send the document to the vision model and use what it reads back.
    Ocr,
}

impl Default for PdfEnrichment {
    fn default() -> (r: Self)
        ensures
            r == PdfEnrichment::Off,
    {
        PdfEnrichment::Off
    }
}

impl PdfEnrichment {
    #[must_use]
    pub fn is_on(self) -> (r: bool)
        ensures
            r == (self != PdfEnrichment::Off),
    {
        matches!(self, PdfEnrichment::Ocr)
    }
}

#[derive(Debug, Clone, Copy, PartialEq, Eq, Structural)]
pub enum ImageEnrichment {
    Off,
    /// Describe what the image depicts.
    Caption,
    /// Read the text in the image.
    Ocr,
    CaptionAndOcr,
}

impl Default for ImageEnrichment {
    fn default() -> (r: Self)
        ensures
            r == ImageEnrichment::Off,
    {
        ImageEnrichment::Off
    }
}

impl ImageEnrichment {
    /// Whether a caption is asked for.
    pub open spec fn captions(self) -> bool {
        self == ImageEnrichment::Caption || self == ImageEnrichment::CaptionAndOcr
    }

    /// Whether the text in the image is asked for.
    pub open spec fn reads(self) -> bool {
        self == ImageEnrichment::Ocr || self == ImageEnrichment::CaptionAndOcr
    }

    #[must_use]
    pub fn is_on(self) -> (r: bool)
        ensures
            r == (self != ImageEnrichment::Off),
    {
        !matches!(self, ImageEnrichment::Off)
    }

    #[must_use]
    pub fn as_str(self) -> (r: &'static str)
        ensures
            r@ == match self {
                ImageEnrichment::Off => "off"@,
                ImageEnrichment::Caption => "caption"@,
                ImageEnrichment::Ocr => "ocr"@,
                ImageEnrichment::CaptionAndOcr => "caption+ocr"@,
            },
    {
        match self {
            ImageEnrichment::Off => "off",
            ImageEnrichment::Caption => "caption",
            ImageEnrichment::Ocr => "ocr",
            ImageEnrichment::CaptionAndOcr => "caption+ocr",
        }
    }
}

#[derive(Debug, Clone, Copy, PartialEq, Eq, Structural)]
pub enum AudioEnrichment {
    Off,
    Transcribe,
}

impl Default for AudioEnrichment {
    fn default() -> (r: Self)
        ensures
            r == AudioEnrichment::Off,
    {
        AudioEnrichment::Off
    }
}

impl AudioEnrichment {
    #[must_use]
    pub fn is_on(self) -> (r: bool)
        ensures
            r == (self != AudioEnrichment::Off),
    {
        matches!(self, AudioEnrichment::Transcribe)
    }
}

impl ProfileConfig {
    /// The default profile around the given engine options.
    pub fn with_engine_options(convert: ConvertOptions) -> (r: Self)
        ensures
            r.sources == (Sources { inline: true, resource: true, url: false }),
            !r.url.allow_private_addresses,
            r.url.max_redirects == 3,
            r.url.timeout_ms == 20_000,
            r.url.allow_hosts@.len() == 0,
            r.llm.binding is None,
            !r.llm.enrich.wanted(),
            r.llm.max_calls_per_document == 8,
            r.llm.cache,
            r.llm.image_prompt is None,
            r.llm.audio_prompt is None,
            r.llm.pdf_prompt is None,
            r.convert == convert,
    {
        ProfileConfig {
            sources: Sources::default(),
            url: UrlOptions::default(),
            llm: LlmOptions::default(),
            convert,
        }
    }
}

/// A profile after validation: the compiled engine plus the host-facing part.
/// What the engine is, is the caller's business.
#[derive(Debug)]
pub struct Profile<G> {
    pub name: String,
    pub engine: G,
    pub config: ProfileConfig,
}

} // verus!
