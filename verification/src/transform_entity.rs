//! The `transform` entity: convert a document already in a payload.
//!
//! This is the half the gateway invokes. It is pure compute: no host handle,
//! no I/O, no enrichment. It shares the profile registry with the backend
//! entity, so a document converted here and the same document converted
//! through the tool render identically.

use vstd::prelude::*;

use crate::codec;
use crate::config::Profile;
use crate::convert::{ConvertError, Converted, ConvertedView, WarningOut};
use crate::document::WarningView;
use crate::error;
use crate::json;
use crate::json::{Json, JsonView};
use crate::source;
use crate::state;
use crate::state::MarkdownState;
use crate::stream::{StreamInfo, StreamInfoView};
use crate::text;

verus! {

/// The source mode of a conversion in flight. A metric label.
pub const MODE: &'static str = "transform";

/// Which dispatch phase a global transform fires on.
#[derive(Debug, Clone, Copy, PartialEq, Eq, Structural)]
pub enum Phase {
    Arguments,
    Result,
    Both,
}

impl Default for Phase {
    fn default() -> (r: Self)
        ensures
            r == Phase::Both,
    {
        Phase::Both
    }
}

/// How the targeted value encodes the document.
#[derive(Debug, Clone, Copy, PartialEq, Eq, Structural)]
pub enum Encoding {
    /// The value is a JSON string holding base64.
    Base64,
    /// The value is a JSON string holding the document as text.
    Text,
    /// Decide from the value: a valid base64 string that decodes to
    /// non-textual bytes is treated as base64, otherwise as text.
    Auto,
}

impl Default for Encoding {
    fn default() -> (r: Self)
        ensures
            r == Encoding::Auto,
    {
        Encoding::Auto
    }
}

/// What the operator writes on the step.
#[derive(Debug)]
pub struct TransformConfig {
    /// Which registered profile to use. Optional when exactly one exists.
    pub profile: Option<String>,
    /// JSON Pointer to the sub-value to convert and replace. When omitted, the
    /// whole value is converted.
    pub pointer: Option<String>,
    pub phase: Phase,
    pub encoding: Encoding,
    /// Filename hint, when the payload carries no name of its own.
    pub filename: Option<String>,
    pub mimetype: Option<String>,
    /// Emit the full result object rather than the Markdown string.
    pub verbose: bool,
}

impl Default for TransformConfig {
    fn default() -> (r: Self)
        ensures
            r.profile is None,
            r.pointer is None,
            r.phase == Phase::Both,
            r.encoding == Encoding::Auto,
            r.filename is None,
            r.mimetype is None,
            !r.verbose,
    {
        TransformConfig {
            profile: None,
            pointer: None,
            phase: Phase::default(),
            encoding: Encoding::default(),
            filename: None,
            mimetype: None,
            verbose: false,
        }
    }
}

/// What a transform answers the gateway.
#[derive(Debug)]
pub enum TransformResult {
    Unchanged,
    Modified { value: Json },
    Error { message: String },
}

/// A container signature, or bytes that plainly are not text.
pub open spec fn binary(bytes: Seq<u8>) -> bool {
    &&& bytes.len() >= 4
    &&& {
        ||| seq![0x50u8, 0x4b, 0x03, 0x04].is_prefix_of(bytes)
        ||| seq![0x25u8, 0x50, 0x44, 0x46, 0x2d].is_prefix_of(bytes)
        ||| seq![0xd0u8, 0xcf, 0x11, 0xe0].is_prefix_of(bytes)
        ||| bytes.contains(0)
    }
}

/// A container signature, or bytes that plainly are not text.
pub fn looks_binary(bytes: &[u8]) -> (r: bool)
    ensures
        r == binary(bytes@),
{
    if bytes.len() < 4 {
        return false;
    }
    let zip = bytes[0] == 0x50 && bytes[1] == 0x4b && bytes[2] == 0x03 && bytes[3] == 0x04;
    let pdf = bytes.len() >= 5 && bytes[0] == 0x25 && bytes[1] == 0x50 && bytes[2] == 0x44
        && bytes[3] == 0x46 && bytes[4] == 0x2d;
    let compound = bytes[0] == 0xd0 && bytes[1] == 0xcf && bytes[2] == 0x11 && bytes[3] == 0xe0;
    proof {
        let b = bytes@;
        let (z, c) = (seq![0x50u8, 0x4b, 0x03, 0x04], seq![0xd0u8, 0xcf, 0x11, 0xe0]);
        let p = seq![0x25u8, 0x50, 0x44, 0x46, 0x2d];
        if zip {
            assert(z =~= b.take(4));
        }
        if compound {
            assert(c =~= b.take(4));
        }
        if pdf {
            assert(p =~= b.take(5));
        }
        assert(b.take(4)[0] == b[0] && b.take(4)[1] == b[1] && b.take(4)[2] == b[2] && b.take(
            4,
        )[3] == b[3]);
        if b.len() >= 5 {
            assert(b.take(5)[0] == b[0] && b.take(5)[1] == b[1] && b.take(5)[2] == b[2]
                && b.take(5)[3] == b[3] && b.take(5)[4] == b[4]);
        }
        assert(zip == z.is_prefix_of(b));
        assert(compound == c.is_prefix_of(b));
        assert(pdf == p.is_prefix_of(b));
    }
    if zip || pdf || compound {
        return true;
    }
    let mut i: usize = 0;
    while i < bytes.len()
        invariant
            4 <= bytes@.len(),
            i <= bytes@.len(),
            forall|j: int| 0 <= j < i ==> bytes@[j] != 0,
        decreases bytes@.len() - i,
    {
        if bytes[i] == 0 {
            assert(bytes@.contains(0));
            return true;
        }
        i = i + 1;
    }
    false
}

/// The bytes that a value stands for, and whether they are its text.
pub open spec fn document_in(raw: Seq<char>, encoding: Encoding) -> Result<
    (Seq<u8>, bool),
    Seq<char>,
> {
    match encoding {
        Encoding::Text => Ok((vstd::utf8::encode_utf8(raw), true)),
        Encoding::Base64 => match source::decoded(text::trimmed(raw)) {
            Ok(bytes) => Ok((bytes, false)),
            Err(e) => Err("value is not valid base64: "@ + e),
        },
        Encoding::Auto => match codec::base64_value(text::trimmed(raw)) {
            Some(bytes) if binary(bytes) => Ok((bytes, false)),
            _ => Ok((vstd::utf8::encode_utf8(raw), true)),
        },
    }
}

/// Returns the bytes and whether they came from the text path.
pub fn decode(raw: &str, encoding: Encoding) -> (r: Result<(Vec<u8>, bool), String>)
    ensures
        match document_in(raw@, encoding) {
            Ok((bytes, is_text)) => r is Ok && r->Ok_0.0@ == bytes && r->Ok_0.1 == is_text,
            Err(message) => r is Err && r->Err_0@ == message,
        },
{
    match encoding {
        Encoding::Text => Ok((raw.as_bytes_vec(), true)),
        Encoding::Base64 => match codec::decode_base64(text::trim(raw)) {
            Ok(bytes) => Ok((bytes, false)),
            Err(e) => Err(text::concat2("value is not valid base64: ", e.as_str())),
        },
        Encoding::Auto => {
            // Prefer base64 only when the decode succeeds and the result does
            // not look like text. Plain ASCII prose is frequently valid
            // base64, and decoding it would silently corrupt the document.
            if let Ok(bytes) = codec::decode_base64(text::trim(raw)) {
                if looks_binary(bytes.as_slice()) {
                    return Ok((bytes, false));
                }
            }
            Ok((raw.as_bytes_vec(), true))
        },
    }
}

/// What a value is, in words.
pub open spec fn kind_in_words(v: JsonView) -> Seq<char> {
    match v {
        JsonView::Null => "null"@,
        JsonView::Bool(_) => "a boolean"@,
        JsonView::Number(_) => "a number"@,
        JsonView::Str(_) => "a string"@,
        JsonView::Array(_) => "an array"@,
        JsonView::Object(_) => "an object"@,
    }
}

fn kind_of(v: &Json) -> (r: &'static str)
    ensures
        r@ == kind_in_words(v@),
{
    match v {
        Json::Null => "null",
        Json::Bool(_) => "a boolean",
        Json::Number(_) => "a number",
        Json::Str(_) => "a string",
        Json::Array(_) => "an array",
        Json::Object(_) => "an object",
    }
}

/// Why a step that names no profile gets none.
pub open spec fn no_sole_profile(names: Seq<Seq<char>>) -> Seq<char> {
    if names.len() == 0 {
        "no markdown profile is registered; configure a markdown backend \
                     binding, or give this step an inline profile"@
    } else {
        "several markdown profiles are registered ("@ + text::joined(names, ", "@)
            + "); name one with \
                         `profile:` rather than letting the step guess"@
    }
}

/// The name of the profile that a step uses, or the reason why it has none.
pub open spec fn profile_named<G>(
    profile: Option<Seq<char>>,
    profiles: Map<Seq<char>, Profile<G>>,
    names: Seq<Seq<char>>,
) -> Result<Seq<char>, Seq<char>> {
    match profile {
        Some(name) => if profiles.contains_key(name) {
            Ok(name)
        } else {
            Err(error::described(state::unknown_profile(name, names)))
        },
        None => if names.len() == 1 {
            Ok(names[0])
        } else {
            Err(no_sole_profile(names))
        },
    }
}

/// The profile that a step uses.
pub fn resolve_profile<'a, G>(cfg: &TransformConfig, profiles: &'a MarkdownState<G>) -> (r: Result<
    &'a Profile<G>,
    String,
>)
    ensures
        match profile_named(text::text_of(cfg.profile), profiles@, profiles.names()) {
            Ok(name) => profiles@.contains_key(name) && r == Ok::<&Profile<G>, String>(
                &profiles@[name],
            ),
            Err(message) => r is Err && r->Err_0@ == message,
        },
{
    match &cfg.profile {
        Some(name) => match profiles.profile(name.as_str()) {
            Ok(p) => Ok(p),
            Err(e) => Err(e.describe()),
        },
        None => match profiles.sole_profile() {
            Some(p) => Ok(p),
            None => {
                let names = profiles.profile_names();
                if names.len() == 0 {
                    assert(profiles.names().len() == 0);
                    Err(
                        "no markdown profile is registered; configure a markdown backend \
                     binding, or give this step an inline profile".to_owned(),
                    )
                } else {
                    assert(profiles.names().len() != 0);
                    Err(
                        text::concat3(
                            "several markdown profiles are registered (",
                            text::join(&names, ", ").as_str(),
                            "); name one with \
                         `profile:` rather than letting the step guess",
                        ),
                    )
                }
            },
        },
    }
}

/// What the step's hints say of the bytes.
pub open spec fn step_info(cfg: TransformConfig, is_text: bool) -> StreamInfoView {
    let info = StreamInfoView::blank();
    let info = match cfg.filename {
        Some(f) => info.named(f@),
        None => info,
    };
    let info = match cfg.mimetype {
        Some(m) => info.typed(m@),
        None => info,
    };
    if is_text {
        info.encoded_or("utf-8"@)
    } else {
        info
    }
}

/// What a step has to do.
pub enum Plan {
    Unchanged,
    Error(Seq<char>),
    /// Convert these bytes under this profile.
    Convert { profile: Seq<char>, bytes: Seq<u8>, info: StreamInfoView },
}

/// The place in the value that a step converts.
pub open spec fn pointer_of(cfg: TransformConfig) -> Seq<char> {
    match cfg.pointer {
        Some(p) => p@,
        None => Seq::empty(),
    }
}

/// Whether a step fires on a phase.
pub open spec fn fires(cfg: TransformConfig, phase: Phase) -> bool {
    cfg.phase == Phase::Both || cfg.phase == phase
}

/// What a step has to do with a value.
pub open spec fn planned<G>(
    value: JsonView,
    cfg: TransformConfig,
    phase: Phase,
    profiles: Map<Seq<char>, Profile<G>>,
    names: Seq<Seq<char>>,
) -> Plan {
    let pointer = pointer_of(cfg);
    if !fires(cfg, phase) {
        Plan::Unchanged
    } else {
        match profile_named(text::text_of(cfg.profile), profiles, names) {
            Err(message) => Plan::Error(message),
            Ok(profile) => match json::found(value, pointer) {
                None => Plan::Error("pointer "@ + text::quoted(pointer) + " not found in value"@),
                Some(JsonView::Str(raw)) => match document_in(raw, cfg.encoding) {
                    Err(message) => Plan::Error(message),
                    Ok((bytes, is_text)) => Plan::Convert {
                        profile,
                        bytes,
                        info: step_info(cfg, is_text),
                    },
                },
                Some(target) => Plan::Error(
                    "pointer "@ + text::quoted(pointer) + " targets "@ + kind_in_words(target)
                        + ", but the markdown transform needs a string \
                     holding the document (base64 or text)"@,
                ),
            },
        }
    }
}

/// What a step has to do, or already answers.
pub enum Prepared<'a, G> {
    Answer(TransformResult),
    Convert { profile: &'a Profile<G>, bytes: Vec<u8>, info: StreamInfo },
}

fn failed<'a, G>(message: String) -> (r: Prepared<'a, G>)
    ensures
        r == Prepared::<G>::Answer(TransformResult::Error { message }),
{
    Prepared::Answer(TransformResult::Error { message })
}

/// Find the document that a step converts.
pub fn prepare<'a, G>(
    value: &Json,
    cfg: &TransformConfig,
    phase: Phase,
    profiles: &'a MarkdownState<G>,
) -> (r: Prepared<'a, G>)
    ensures
        match planned(value@, *cfg, phase, profiles@, profiles.names()) {
            Plan::Unchanged => r == Prepared::<G>::Answer(TransformResult::Unchanged),
            Plan::Error(message) => {
                &&& r is Answer
                &&& r->Answer_0 is Error
                &&& r->Answer_0->message@ == message
            },
            Plan::Convert { profile, bytes, info } => {
                &&& r is Convert
                &&& profiles@.contains_key(profile)
                &&& *r->profile == profiles@[profile]
                &&& r->bytes@ == bytes
                &&& r->info@ == info
            },
        },
{
    if cfg.phase != Phase::Both && cfg.phase != phase {
        return Prepared::Answer(TransformResult::Unchanged);
    }
    let profile = match resolve_profile(cfg, profiles) {
        Ok(p) => p,
        Err(message) => {
            return failed(message);
        },
    };
    proof {
        reveal_strlit("");
        assert(""@ =~= Seq::empty());
    }
    let ptr = match &cfg.pointer {
        Some(p) => p.as_str(),
        None => "",
    };
    let target = match value.pointer(ptr) {
        Some(t) => t,
        None => {
            return failed(
                text::concat3("pointer ", text::debug_text(ptr).as_str(), " not found in value"),
            );
        },
    };
    let raw = match target {
        Json::Str(s) => s.as_str(),
        _ => {
            return failed(
                text::concat5(
                    "pointer ",
                    text::debug_text(ptr).as_str(),
                    " targets ",
                    kind_of(target),
                    ", but the markdown transform needs a string \
                     holding the document (base64 or text)",
                ),
            );
        },
    };
    let (bytes, is_text) = match decode(raw, cfg.encoding) {
        Ok(v) => v,
        Err(message) => {
            return failed(message);
        },
    };
    let mut info = StreamInfo::new();
    if let Some(f) = &cfg.filename {
        info = info.with_filename(f.as_str());
    }
    if let Some(m) = &cfg.mimetype {
        info = info.with_mimetype(m.as_str());
    }
    if is_text && info.charset.is_none() {
        info = info.with_charset("utf-8");
    }
    Prepared::Convert { profile, bytes, info }
}

/// A warning as a JSON object.
pub open spec fn warning_json(w: WarningView) -> JsonView {
    JsonView::Object(
        seq![("kind"@, JsonView::Str(w.kind)), ("message"@, JsonView::Str(w.message))],
    )
}

/// The title as a member, where there is one.
pub open spec fn title_member(title: Option<Seq<char>>) -> Seq<(Seq<char>, JsonView)> {
    match title {
        Some(t) => seq![("title"@, JsonView::Str(t))],
        None => Seq::empty(),
    }
}

/// A whole result as a JSON object. The warnings are always there, the title
/// only where there is one.
pub open spec fn result_json(c: ConvertedView) -> JsonView {
    JsonView::Object(
        seq![("markdown"@, JsonView::Str(c.markdown))] + title_member(c.title) + seq![
            ("format"@, JsonView::Str(c.format)),
            ("detected_via"@, JsonView::Str(c.detected_via)),
            (
                "warnings"@,
                JsonView::Array(c.warnings.map_values(|w: WarningView| warning_json(w))),
            ),
        ],
    )
}

fn warnings_json(warnings: &Vec<WarningOut>) -> (r: Vec<Json>)
    ensures
        json::elements_of(r@) == crate::convert::reported(warnings@).map_values(
            |w: WarningView| warning_json(w),
        ),
{
    let ghost want = crate::convert::reported(warnings@).map_values(
        |w: WarningView| warning_json(w),
    );
    let mut r: Vec<Json> = Vec::new();
    let mut i: usize = 0;
    assert(json::elements_of(r@) =~= want.take(0));
    while i < warnings.len()
        invariant
            i <= warnings@.len(),
            want == crate::convert::reported(warnings@).map_values(
                |w: WarningView| warning_json(w),
            ),
            json::elements_of(r@) == want.take(i as int),
        decreases warnings@.len() - i,
    {
        let w = &warnings[i];
        let ghost before = json::elements_of(r@);
        let item = json::pair(
            "kind",
            json::string(w.kind.as_str()),
            "message",
            json::string(w.message.as_str()),
        );
        assert(item@ == want[i as int]);
        r.push(item);
        assert(json::elements_of(r@) =~= before.push(item@));
        assert(json::elements_of(r@) =~= want.take(i + 1));
        i = i + 1;
    }
    assert(want.take(i as int) =~= want);
    r
}

impl Converted {
    /// The whole result as a JSON object.
    pub fn to_json(&self) -> (r: Json)
        ensures
            r@ == result_json(self@),
    {
        let mut members = vec![json::member("markdown", json::string(self.markdown.as_str()))];
        assert(json::members_of(members@) =~= seq![
            ("markdown"@, JsonView::Str(self.markdown@)),
        ]);
        if let Some(t) = &self.title {
            members.push(json::member("title", json::string(t.as_str())));
        }
        let ghost head = seq![("markdown"@, JsonView::Str(self.markdown@))] + title_member(
            self@.title,
        );
        assert(json::members_of(members@) =~= head);
        members.push(json::member("format", json::string(self.format.as_str())));
        members.push(json::member("detected_via", json::string(self.detected_via.as_str())));
        members.push(json::member("warnings", Json::Array(warnings_json(&self.warnings))));
        assert(json::members_of(members@) =~= result_json(self@)->Object_0);
        Json::Object(members)
    }
}

/// What a conversion puts in the place of the document.
pub open spec fn product(cfg: TransformConfig, c: ConvertedView) -> JsonView {
    if cfg.verbose {
        result_json(c)
    } else {
        JsonView::Str(c.markdown)
    }
}

/// Put the outcome of a conversion in the place of the document.
pub fn finish(
    value: Json,
    cfg: &TransformConfig,
    converted: Result<Converted, ConvertError>,
) -> (r: TransformResult)
    ensures
        match converted {
            Err(e) => r is Error && r->message@ == e.text@,
            Ok(c) => if json::found(value@, pointer_of(*cfg)) is Some {
                r is Modified && r->value@ == json::put(
                    value@,
                    json::path_of(pointer_of(*cfg))->0,
                    product(*cfg, c@),
                )
            } else {
                r is Error && r->message@ == "pointer "@ + text::quoted(pointer_of(*cfg))
                    + " not assignable"@
            },
        },
{
    let converted = match converted {
        Ok(c) => c,
        Err(e) => {
            return TransformResult::Error { message: e.text };
        },
    };
    let produced = if cfg.verbose {
        converted.to_json()
    } else {
        Json::Str(converted.markdown)
    };
    proof {
        reveal_strlit("");
        assert(""@ =~= Seq::empty());
    }
    let ptr = match &cfg.pointer {
        Some(p) => p.as_str(),
        None => "",
    };
    let mut out = value;
    if out.replace(ptr, produced) {
        TransformResult::Modified { value: out }
    } else {
        TransformResult::Error {
            message: text::concat3(
                "pointer ",
                text::debug_text(ptr).as_str(),
                " not assignable",
            ),
        }
    }
}

/// What the author of an unreadable step is told.
pub fn unreadable_config(e: &str) -> (r: TransformResult)
    ensures
        r is Error,
        r->message@ == "markdown transform config: "@ + e@,
{
    TransformResult::Error { message: text::concat2("markdown transform config: ", e) }
}

/// A step leaves the other phase untouched.
pub proof fn the_other_phase_is_untouched<G>(
    value: JsonView,
    cfg: TransformConfig,
    phase: Phase,
    profiles: Map<Seq<char>, Profile<G>>,
    names: Seq<Seq<char>>,
)
    ensures
        planned(value, cfg, phase, profiles, names) is Unchanged <==> !fires(cfg, phase),
{
}

/// What a step was asked to convert, it can put back: the place it found is
/// there to be written.
pub proof fn what_was_found_can_be_replaced<G>(
    value: JsonView,
    cfg: TransformConfig,
    phase: Phase,
    profiles: Map<Seq<char>, Profile<G>>,
    names: Seq<Seq<char>>,
)
    requires
        planned(value, cfg, phase, profiles, names) is Convert,
    ensures
        json::found(value, pointer_of(cfg)) is Some,
        fires(cfg, phase),
{
}

/// A pointer replaces its own field, and only that. With what was there put
/// back the value is what it was; every place that lies neither in it nor
/// around it stays; and what lies around it is changed only there.
pub proof fn a_pointer_replaces_only_its_own_field(
    value: JsonView,
    pointer: Seq<char>,
    new: JsonView,
    other: Seq<char>,
)
    requires
        json::found(value, pointer) is Some,
        json::path_of(other) is Some,
    ensures
        ({
            let path = json::path_of(pointer)->0;
            let place = json::path_of(other)->0;
            let after = json::put(value, path, new);
            &&& json::found(after, pointer) == Some(new)
            &&& json::put(after, path, json::found(value, pointer)->0) == value
            &&& !path.is_prefix_of(place) && !place.is_prefix_of(path) ==> json::found(after, other)
                == json::found(value, other)
            &&& place.is_prefix_of(path) ==> json::found(value, other) is Some && json::found(
                after,
                other,
            ) == Some(
                json::put(json::found(value, other)->0, path.skip(place.len() as int), new),
            )
        }),
{
    let path = json::path_of(pointer)->0;
    let place = json::path_of(other)->0;
    json::written_is_read(value, path, new);
    json::a_write_is_undone(value, path, new);
    if place.is_prefix_of(path) {
        json::lemma_way_is_there(value, path, place);
        json::enclosing_places_change_only_there(value, path, new, place);
    } else if !path.is_prefix_of(place) {
        json::other_places_stay(value, path, new, place);
    }
}

/// Prose that is incidentally valid base64 stays prose: bytes are only decoded
/// on their own account where they plainly are not text.
pub proof fn only_binary_content_is_decoded_unasked(raw: Seq<char>)
    ensures
        document_in(raw, Encoding::Auto) is Ok,
        (document_in(raw, Encoding::Auto)->Ok_0).1 ==> (document_in(raw, Encoding::Auto)->Ok_0).0
            == vstd::utf8::encode_utf8(raw),
        !(document_in(raw, Encoding::Auto)->Ok_0).1 ==> binary(
            (document_in(raw, Encoding::Auto)->Ok_0).0,
        ) && codec::base64_text((document_in(raw, Encoding::Auto)->Ok_0).0) == text::trimmed(raw),
{
}

/// Binary bytes that travel as base64 are recognised without being told, also
/// with white space around them.
pub proof fn encoded_binary_content_is_recognised(
    bytes: Seq<u8>,
    before: Seq<char>,
    after: Seq<char>,
)
    requires
        binary(bytes),
        text::blank(before),
        text::blank(after),
    ensures
        document_in(before + codec::base64_text(bytes) + after, Encoding::Auto) == Ok::<
            (Seq<u8>, bool),
            Seq<char>,
        >((bytes, false)),
{
    codec::lemma_base64_is_trimmed(bytes, before, after);
    codec::base64_round_trip(bytes);
}

/// The warnings of a verbose result are always there, even when there are
/// none.
pub proof fn warnings_are_never_omitted(c: ConvertedView)
    ensures
        json::at(result_json(c), seq!["warnings"@]) == Some(
            JsonView::Array(c.warnings.map_values(|w: WarningView| warning_json(w))),
        ),
        json::at(result_json(c), seq!["markdown"@]) == Some(JsonView::Str(c.markdown)),
        json::at(result_json(c), seq!["format"@]) == Some(JsonView::Str(c.format)),
        json::at(result_json(c), seq!["detected_via"@]) == Some(JsonView::Str(c.detected_via)),
{
    reveal_strlit("markdown");
    reveal_strlit("title");
    reveal_strlit("format");
    reveal_strlit("detected_via");
    reveal_strlit("warnings");
    reveal_with_fuel(json::member_from, 6);
    reveal_with_fuel(json::at, 2);
    assert("markdown"@[0] != "warnings"@[0]);
    let members = result_json(c)->Object_0;
    let n = title_member(c.title).len() as int;
    assert(members[0].0 == "markdown"@);
    assert(n == 1 ==> members[1].0 == "title"@);
    assert(members[n + 1].0 == "format"@);
    assert(members[n + 2].0 == "detected_via"@);
    assert(members[n + 3].0 == "warnings"@);
}

} // verus!
