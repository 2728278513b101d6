//! Input acquisition: where the bytes come from.
//!
//! Three modes, and deliberately no fourth. There is no local-filesystem mode:
//! a gateway process that reads a path which the model chose would hand out
//! any file it can reach. An operator who needs a local file converts it
//! through a source that already has authenticated, audited reach into that
//! filesystem and hands this plugin an `mcpg-resource://` URI.

use vstd::prelude::*;

use crate::codec;
use crate::config::ProfileConfig;
use crate::error;
use crate::error::{BackendError, ErrorView};
use crate::fetch;
use crate::fetch::{Fetch, Step, StepView};
use crate::stream::{StreamInfo, StreamInfoView};
use crate::text;

verus! {

/// A reply of the content store, as bytes or text.
pub open spec fn reply_of(r: Result<Option<Vec<u8>>, String>) -> Result<
    Option<Seq<u8>>,
    Seq<char>,
> {
    match r {
        Ok(Some(bytes)) => Ok(Some(bytes@)),
        Ok(None) => Ok(None),
        Err(e) => Err(e@),
    }
}

/// One question to the content store, with the reply.
pub struct Lookup {
    pub uri: Seq<char>,
    pub reply: Result<Option<Seq<u8>>, Seq<char>>,
}

/// The one host capability acquisition needs. A trait so every acquisition
/// path is testable without a gateway.
pub trait ContentSource {
    /// What the store was asked so far, and what it replied. It is there for
    /// the contracts alone: a store that is held to them keeps it in a ghost
    /// field.
    open spec fn lookups(&self) -> Seq<Lookup> {
        Seq::empty()
    }

    /// Read a `mcpg-resource://` URI. `Ok(None)` means it did not resolve.
    fn fetch_resource(&mut self, uri: &str) -> (r: Result<Option<Vec<u8>>, String>)
        ensures
            final(self).lookups() == old(self).lookups().push(
                Lookup { uri: uri@, reply: reply_of(r) },
            ),
    ;
}

/// The tool's arguments. Exactly one of the source fields may be set.
#[derive(Debug, Clone)]
pub struct ConvertArgs {
    /// Base64-encoded bytes.
    pub content: Option<String>,
    /// Text that is already text.
    pub text: Option<String>,
    /// `mcpg-resource://…`, or an `https://…` URL when the profile allows it.
    pub uri: Option<String>,
    /// Hint: the original filename. Drives extension-based detection.
    pub filename: Option<String>,
    /// Hint: the declared content type.
    pub mimetype: Option<String>,
    /// Hint: the character set for text formats.
    pub charset: Option<String>,
}

impl Default for ConvertArgs {
    fn default() -> (r: Self)
        ensures
            r.content is None,
            r.text is None,
            r.uri is None,
            r.filename is None,
            r.mimetype is None,
            r.charset is None,
    {
        ConvertArgs {
            content: None,
            text: None,
            uri: None,
            filename: None,
            mimetype: None,
            charset: None,
        }
    }
}

/// Acquired bytes plus what is known about them.
#[derive(Debug)]
pub struct Acquired {
    pub bytes: Vec<u8>,
    pub info: StreamInfo,
    /// Which mode produced the bytes. A metric label.
    pub mode: &'static str,
}

/// What an [`Acquired`] says.
pub struct AcquiredView {
    pub bytes: Seq<u8>,
    pub info: StreamInfoView,
    pub mode: Seq<char>,
}

impl Acquired {
    pub open spec fn view(&self) -> AcquiredView {
        AcquiredView { bytes: self.bytes@, info: self.info@, mode: self.mode@ }
    }
}

/// What arguments ask for.
pub enum Request {
    Refused(Seq<char>),
    /// The bytes came with the call.
    Inline(AcquiredView),
    /// The bytes are in the content store.
    Stored { uri: Seq<char>, info: StreamInfoView },
    /// The bytes are at a URL.
    Remote { url: Seq<char>, info: StreamInfoView },
}

/// How many of the source fields are set.
pub open spec fn sources_named(args: ConvertArgs) -> nat {
    (if args.content is Some {
        1nat
    } else {
        0
    }) + (if args.text is Some {
        1nat
    } else {
        0
    }) + (if args.uri is Some {
        1nat
    } else {
        0
    })
}

/// What the hints say of the bytes.
pub open spec fn hints(args: ConvertArgs) -> StreamInfoView {
    let info = StreamInfoView::blank();
    let info = match args.filename {
        Some(f) => info.named(f@),
        None => info,
    };
    let info = match args.mimetype {
        Some(m) => info.typed(m@),
        None => info,
    };
    match args.charset {
        Some(c) => info.encoded(c@),
        None => info,
    }
}

/// What is said where the profile does not accept a mode.
pub open spec fn not_enabled(mode: Seq<char>) -> Seq<char> {
    "the "@ + text::quoted(mode) + " source is not enabled for this profile"@
}

/// The bytes that a base64 text stands for, or what is wrong with it.
pub open spec fn decoded(s: Seq<char>) -> Result<Seq<u8>, Seq<char>> {
    match codec::base64_value(s) {
        Some(bytes) => Ok(bytes),
        None => Err(codec::base64_fault(s)),
    }
}

/// What stands after `data:` in a URI, read as a document.
pub open spec fn data_uri(rest: Seq<char>, info: StreamInfoView) -> Result<
    AcquiredView,
    Seq<char>,
> {
    match text::cut(rest, ","@) {
        None => Err("malformed data: URI (no comma)"@),
        Some((meta, payload)) => {
            let mime = text::trimmed(text::before_any(meta, ";"@));
            let info = if mime.len() > 0 {
                info.typed_or(Some(mime))
            } else {
                info
            };
            if text::has(meta, "base64"@) {
                match decoded(payload) {
                    Ok(bytes) => Ok(AcquiredView { bytes, info, mode: "inline"@ }),
                    Err(e) => Err("data: URI payload is not valid base64: "@ + e),
                }
            } else {
                Ok(
                    AcquiredView {
                        bytes: vstd::utf8::encode_utf8(payload),
                        info,
                        mode: "inline"@,
                    },
                )
            }
        },
    }
}

/// Whether a URI names a place in a local filesystem.
pub open spec fn is_local(uri: Seq<char>) -> bool {
    ||| "file:"@.is_prefix_of(uri)
    ||| "/"@.is_prefix_of(uri)
    ||| "./"@.is_prefix_of(uri)
}

/// The refusal that a local path meets.
pub open spec fn no_local_paths() -> Seq<char> {
    "local filesystem paths are not supported and will not be: fetch the file \
             through a backend that has audited access to it (sftp, smb, s3) and pass \
             the resulting mcpg-resource:// URI"@
}

/// What a URI asks for.
pub open spec fn uri_request(uri: Seq<char>, cfg: ProfileConfig, info: StreamInfoView) -> Request {
    if "mcpg-resource://"@.is_prefix_of(uri) {
        if cfg.sources.resource {
            Request::Stored { uri, info }
        } else {
            Request::Refused(not_enabled("resource"@))
        }
    } else if "data:"@.is_prefix_of(uri) {
        if cfg.sources.inline {
            match data_uri(uri.skip("data:"@.len() as int), info) {
                Ok(acquired) => Request::Inline(acquired),
                Err(message) => Request::Refused(message),
            }
        } else {
            Request::Refused(not_enabled("inline"@))
        }
    } else if "http://"@.is_prefix_of(uri) || "https://"@.is_prefix_of(uri) {
        if cfg.sources.url {
            Request::Remote { url: uri, info }
        } else {
            Request::Refused(not_enabled("url"@))
        }
    } else if is_local(uri) {
        Request::Refused(no_local_paths())
    } else {
        Request::Refused(
            "unsupported uri scheme in "@ + text::quoted(uri)
                + " — expected mcpg-resource://, data:, \
         or https:// (when the profile enables the url source)"@,
        )
    }
}

/// What arguments ask for under a profile.
pub open spec fn request_of(args: ConvertArgs, cfg: ProfileConfig) -> Request {
    let info = hints(args);
    if sources_named(args) == 0 {
        Request::Refused("one of `content`, `text` or `uri` is required"@)
    } else if sources_named(args) > 1 {
        Request::Refused("give exactly one of `content`, `text` or `uri`"@)
    } else if let Some(t) = args.text {
        if cfg.sources.inline {
            Request::Inline(
                AcquiredView {
                    bytes: vstd::utf8::encode_utf8(t@),
                    info: info.encoded_or("utf-8"@),
                    mode: "inline"@,
                },
            )
        } else {
            Request::Refused(not_enabled("inline"@))
        }
    } else if let Some(b64) = args.content {
        if cfg.sources.inline {
            match decoded(text::trimmed(b64@)) {
                Ok(bytes) => Request::Inline(AcquiredView { bytes, info, mode: "inline"@ }),
                Err(e) => Request::Refused("`content` is not valid base64: "@ + e),
            }
        } else {
            Request::Refused(not_enabled("inline"@))
        }
    } else {
        uri_request(text::trimmed(args.uri->0@), cfg, info)
    }
}

/// What a reply of the content store amounts to.
pub open spec fn from_store(
    uri: Seq<char>,
    info: StreamInfoView,
    reply: Result<Option<Seq<u8>>, Seq<char>>,
) -> Result<AcquiredView, ErrorView> {
    match reply {
        Err(e) => Err(ErrorView::Transport { message: "content store: "@ + e }),
        Ok(None) => Err(
            error::refusal(
                uri
                    + " did not resolve — it may have expired or belong to another session"@,
            ),
        ),
        Ok(Some(bytes)) => Ok(
            AcquiredView { bytes, info: info.located(uri), mode: "resource"@ },
        ),
    }
}

/// Where acquisition stands at once, or after the content store has replied.
pub open spec fn step_of(r: Result<AcquiredView, ErrorView>) -> StepView {
    match r {
        Ok(acquired) => StepView::Done(acquired),
        Err(e) => StepView::Fail(e),
    }
}

/// Whether a request comes to `step`, where the content store had been asked
/// `before` and then `after`: it is asked once for a stored resource, and for
/// nothing else.
pub open spec fn answers(
    request: Request,
    cfg: ProfileConfig,
    before: Seq<Lookup>,
    after: Seq<Lookup>,
    step: StepView,
) -> bool {
    match request {
        Request::Refused(message) => after == before && step == StepView::Fail(
            error::refusal(message),
        ),
        Request::Inline(acquired) => after == before && step == StepView::Done(acquired),
        Request::Remote { url, info } => after == before && step == fetch::begun(url, cfg, info),
        Request::Stored { uri, info } => {
            let reply = after.last().reply;
            &&& after == before.push(Lookup { uri, reply })
            &&& step == step_of(from_store(uri, info, reply))
        },
    }
}

/// Whether `step` is what acquisition comes to, given what the content store
/// was asked and replied.
pub open spec fn acquires(
    args: ConvertArgs,
    cfg: ProfileConfig,
    before: Seq<Lookup>,
    after: Seq<Lookup>,
    step: StepView,
) -> bool {
    answers(request_of(args, cfg), cfg, before, after, step)
}

fn require(enabled: bool, mode: &str) -> (r: Result<(), BackendError>)
    ensures
        r is Ok <==> enabled,
        r matches Err(e) ==> e@ == error::refusal(not_enabled(mode@)),
{
    if enabled {
        Ok(())
    } else {
        Err(
            error::invalid(
                text::concat3(
                    "the ",
                    text::debug_text(mode).as_str(),
                    " source is not enabled for this profile",
                ),
            ),
        )
    }
}

fn decode_data_uri(rest: &str, info: StreamInfo) -> (r: Result<Acquired, BackendError>)
    ensures
        match data_uri(rest@, info@) {
            Ok(acquired) => r is Ok && r->Ok_0@ == acquired,
            Err(message) => r is Err && r->Err_0@ == error::refusal(message),
        },
{
    let (meta, payload) = match text::split_once(rest, ",") {
        Some(parts) => parts,
        None => {
            return Err(error::invalid("malformed data: URI (no comma)".to_owned()));
        },
    };
    let mut info = info;
    let mime = text::trim(text::up_to_any(meta, ";"));
    if !mime.is_empty() && info.mimetype.is_none() {
        info = info.with_mimetype(mime);
    }
    let bytes = if text::contains(meta, "base64") {
        match codec::decode_base64(payload) {
            Ok(bytes) => bytes,
            Err(e) => {
                return Err(
                    error::invalid(
                        text::concat2("data: URI payload is not valid base64: ", e.as_str()),
                    ),
                );
            },
        }
    } else {
        payload.as_bytes_vec()
    };
    Ok(Acquired { bytes, info, mode: "inline" })
}

/// Takes a reply of the content store into account.
pub fn read_from_store(
    uri: &str,
    info: StreamInfo,
    reply: Result<Option<Vec<u8>>, String>,
) -> (r: Result<Acquired, BackendError>)
    ensures
        match from_store(uri@, info@, reply_of(reply)) {
            Ok(acquired) => r is Ok && r->Ok_0@ == acquired,
            Err(e) => r is Err && r->Err_0@ == e,
        },
{
    match reply {
        Err(e) => Err(
            BackendError::Transport { message: text::concat2("content store: ", e.as_str()) },
        ),
        Ok(None) => Err(
            error::invalid(
                text::concat2(
                    uri,
                    " did not resolve — it may have expired or belong to another session",
                ),
            ),
        ),
        Ok(Some(bytes)) => Ok(Acquired { bytes, info: info.with_url(uri), mode: "resource" }),
    }
}

fn step<'a>(r: Result<Acquired, BackendError>) -> (s: Step<'a>)
    ensures
        match r {
            Ok(acquired) => s@ == StepView::Done(acquired@),
            Err(e) => s@ == StepView::Fail(e@),
        },
        !(s is Wait),
{
    match r {
        Ok(acquired) => Step::Done(acquired),
        Err(e) => Step::Fail(e),
    }
}

fn info_from(args: &ConvertArgs) -> (r: StreamInfo)
    ensures
        r@ == hints(*args),
{
    let mut info = StreamInfo::new();
    if let Some(f) = &args.filename {
        info = info.with_filename(f.as_str());
    }
    if let Some(m) = &args.mimetype {
        info = info.with_mimetype(m.as_str());
    }
    if let Some(c) = &args.charset {
        info = info.with_charset(c.as_str());
    }
    info
}

fn acquire_uri<'a, S: ContentSource>(
    uri: &str,
    cfg: &'a ProfileConfig,
    store: &mut S,
    info: StreamInfo,
) -> (r: Step<'a>)
    ensures
        r.under(*cfg),
        answers(
            uri_request(uri@, *cfg, info@),
            *cfg,
            old(store).lookups(),
            final(store).lookups(),
            r@,
        ),
{
    if text::starts_with(uri, "mcpg-resource://") {
        if let Err(e) = require(cfg.sources.resource, "resource") {
            return Step::Fail(e);
        }
        let reply = store.fetch_resource(uri);
        return step(read_from_store(uri, info, reply));
    }
    if let Some(rest) = text::strip_prefix(uri, "data:") {
        if let Err(e) = require(cfg.sources.inline, "inline") {
            return Step::Fail(e);
        }
        return step(decode_data_uri(rest, info));
    }
    if text::starts_with(uri, "http://") || text::starts_with(uri, "https://") {
        if let Err(e) = require(cfg.sources.url, "url") {
            return Step::Fail(e);
        }
        return Fetch::begin(uri, cfg, info);
    }
    // Naming the refused schemes explicitly beats a generic parse error: an
    // operator reaching for a `file:` URI should learn that it is a deliberate
    // omission, not a gap.
    if text::starts_with(uri, "file:") || text::starts_with(uri, "/") || text::starts_with(
        uri,
        "./",
    ) {
        return Step::Fail(
            error::invalid(
                "local filesystem paths are not supported and will not be: fetch the file \
             through a backend that has audited access to it (sftp, smb, s3) and pass \
             the resulting mcpg-resource:// URI".to_owned(),
            ),
        );
    }
    Step::Fail(
        error::invalid(
            text::concat3(
                "unsupported uri scheme in ",
                text::debug_text(uri).as_str(),
                " — expected mcpg-resource://, data:, \
         or https:// (when the profile enables the url source)",
            ),
        ),
    )
}

/// Resolve arguments into bytes, or into the fetch that brings them.
///
/// The content store is asked once, for the URI that the call names, where it
/// names a stored resource as its one source and the profile enables that
/// source; otherwise it is left alone.
pub fn acquire<'a, S: ContentSource>(
    args: &ConvertArgs,
    cfg: &'a ProfileConfig,
    store: &mut S,
) -> (r: Step<'a>)
    ensures
        acquires(*args, *cfg, old(store).lookups(), final(store).lookups(), r@),
        r.under(*cfg),
{
    let mut named: u8 = 0;
    if args.content.is_some() {
        named = named + 1;
    }
    if args.text.is_some() {
        named = named + 1;
    }
    if args.uri.is_some() {
        named = named + 1;
    }
    if named == 0 {
        return Step::Fail(
            error::invalid("one of `content`, `text` or `uri` is required".to_owned()),
        );
    }
    if named > 1 {
        return Step::Fail(
            error::invalid("give exactly one of `content`, `text` or `uri`".to_owned()),
        );
    }
    let info = info_from(args);
    if let Some(t) = &args.text {
        if let Err(e) = require(cfg.sources.inline, "inline") {
            return Step::Fail(e);
        }
        let bytes = t.as_str().as_bytes_vec();
        // A caller who handed over a string has told us it is text; without
        // this the detector would have to guess at a charset it knows.
        let info = if info.charset.is_none() {
            info.with_charset("utf-8")
        } else {
            info
        };
        return Step::Done(Acquired { bytes, info, mode: "inline" });
    }
    if let Some(b64) = &args.content {
        if let Err(e) = require(cfg.sources.inline, "inline") {
            return Step::Fail(e);
        }
        return match codec::decode_base64(text::trim(b64.as_str())) {
            Ok(bytes) => Step::Done(Acquired { bytes, info, mode: "inline" }),
            Err(e) => Step::Fail(
                error::invalid(text::concat2("`content` is not valid base64: ", e.as_str())),
            ),
        };
    }
    match &args.uri {
        Some(uri) => acquire_uri(text::trim(uri.as_str()), cfg, store, info),
        None => vstd::pervasive::unreached(),
    }
}

/// No profile makes a local path readable: such a URI is refused, with the
/// reason, whatever the profile enables.
pub proof fn local_paths_are_always_refused(uri: Seq<char>, cfg: ProfileConfig, info: StreamInfoView)
    requires
        is_local(uri),
    ensures
        uri_request(uri, cfg, info) == Request::Refused(no_local_paths()),
{
    reveal_strlit("file:");
    reveal_strlit("/");
    reveal_strlit("./");
    reveal_strlit("mcpg-resource://");
    reveal_strlit("data:");
    reveal_strlit("http://");
    reveal_strlit("https://");
    text::lemma_prefix_starts(uri, "file:"@);
    text::lemma_prefix_starts(uri, "/"@);
    text::lemma_prefix_starts(uri, "./"@);
    text::lemma_prefix_starts(uri, "mcpg-resource://"@);
    text::lemma_prefix_starts(uri, "data:"@);
    text::lemma_prefix_starts(uri, "http://"@);
    text::lemma_prefix_starts(uri, "https://"@);
}

/// Exactly one source field is accepted.
pub proof fn exactly_one_source_is_accepted(args: ConvertArgs, cfg: ProfileConfig)
    requires
        sources_named(args) != 1,
    ensures
        request_of(args, cfg) is Refused,
{
}

/// What is acquired was acquired in a mode that the profile enables, and a
/// fetch is begun only where the profile enables it.
pub proof fn only_enabled_sources_are_used(
    args: ConvertArgs,
    cfg: ProfileConfig,
    before: Seq<Lookup>,
    after: Seq<Lookup>,
    step: StepView,
)
    requires
        acquires(args, cfg, before, after, step),
    ensures
        match step {
            StepView::Done(acquired) => {
                ||| acquired.mode == "inline"@ && cfg.sources.inline
                ||| acquired.mode == "resource"@ && cfg.sources.resource
            },
            StepView::Wait(_, _) => cfg.sources.url,
            StepView::Fail(_) => true,
        },
{
}

/// The content store is asked at most once, and only where the profile enables
/// it and the one source that the call names is in it.
pub proof fn the_store_is_asked_at_most_once(
    args: ConvertArgs,
    cfg: ProfileConfig,
    before: Seq<Lookup>,
    after: Seq<Lookup>,
    step: StepView,
)
    requires
        acquires(args, cfg, before, after, step),
    ensures
        before.is_prefix_of(after),
        after.len() <= before.len() + 1,
        after != before ==> {
            &&& cfg.sources.resource
            &&& sources_named(args) == 1
            &&& args.uri is Some
            &&& after.last().uri == text::trimmed(args.uri->0@)
            &&& "mcpg-resource://"@.is_prefix_of(after.last().uri)
        },
{
}

/// The content store is only asked for what the caller named with an
/// `mcpg-resource://` URI.
pub proof fn only_resource_uris_are_stored(args: ConvertArgs, cfg: ProfileConfig)
    ensures
        request_of(args, cfg) matches Request::Stored { uri, .. } ==> {
            &&& args.uri is Some
            &&& uri == text::trimmed(args.uri->0@)
            &&& "mcpg-resource://"@.is_prefix_of(uri)
            &&& cfg.sources.resource
        },
{
}

/// Bytes that travel as base64 arrive unchanged, whatever white space stands
/// around them.
pub proof fn encoded_content_arrives(
    args: ConvertArgs,
    cfg: ProfileConfig,
    bytes: Seq<u8>,
    before: Seq<char>,
    after: Seq<char>,
)
    requires
        cfg.sources.inline,
        sources_named(args) == 1,
        args.content is Some,
        args.content->0@ == before + codec::base64_text(bytes) + after,
        text::blank(before),
        text::blank(after),
    ensures
        request_of(args, cfg) == Request::Inline(
            AcquiredView { bytes, info: hints(args), mode: "inline"@ },
        ),
{
    codec::lemma_base64_is_trimmed(bytes, before, after);
    codec::base64_round_trip(bytes);
}

} // verus!
