//! The `backend` entity: `convert_to_markdown` as a tool.
//!
//! This is the half the model invokes. What it decides stands here: which
//! profile a binding uses, and what the tool tells a model about itself.

use vstd::hash_map::StringHashMap;
use vstd::prelude::*;

use crate::config::{Profile, ProfileConfig};
use crate::convert;
use crate::convert::{ConvertError, Converted};
use crate::error::{BackendError, ErrorView};
use crate::fetch::{Step, StepView};
use crate::json;
use crate::json::{Json, JsonView};
use crate::source;
use crate::source::{AcquiredView, ContentSource, ConvertArgs};
use crate::state;
use crate::state::MarkdownState;
use crate::text;
use crate::transform_entity;
use crate::transform_entity::{Encoding, TransformConfig};

verus! {

/// The kind of backend this is.
pub const KIND: &'static str = "markdown";

/// A profile as a binding carries it, with what came of compiling it.
pub struct Candidate<G> {
    pub config: ProfileConfig,
    pub engine: Result<G, String>,
}

/// Per-binding spec: it either names a shared profile or carries one inline.
/// An inline profile that could not be read is the reason why.
pub enum BindingSpec<G> {
    Named(String),
    Inline(Result<Candidate<G>, String>),
}

/// Which profile each binding uses.
pub struct Bindings {
    targets: StringHashMap<String>,
}

/// What the author of an unreadable binding is told.
pub open spec fn unreadable(binding: Seq<char>, message: Seq<char>) -> ErrorView {
    ErrorView::InvalidSpec {
        message: "markdown binding "@ + text::quoted(binding) + ": "@ + message,
    }
}

/// A binding cannot be read, for the reason given.
pub fn invalid_binding(binding: &str, message: &str) -> (r: BackendError)
    ensures
        r@ == unreadable(binding@, message@),
{
    let mut text = text::concat3("markdown binding ", text::debug_text(binding).as_str(), ": ");
    text.append(message);
    BackendError::InvalidSpec { message: text }
}

/// The name of the profile that a binding uses: the one it was given, or else
/// the one of its own name.
pub open spec fn target_of(bindings: Map<Seq<char>, Seq<char>>, binding: Seq<char>) -> Seq<char> {
    if bindings.contains_key(binding) {
        bindings[binding]
    } else {
        binding
    }
}

/// What registration refuses a binding with, if it does.
pub open spec fn binding_refusal<G>(binding: Seq<char>, spec: BindingSpec<G>) -> Option<ErrorView> {
    match spec {
        BindingSpec::Named(_) => None,
        BindingSpec::Inline(Err(e)) => Some(state::rejected(binding, e@)),
        BindingSpec::Inline(Ok(c)) => state::refusal_of(binding, c.config, c.engine),
    }
}

impl Bindings {
    /// The profile that each binding was given.
    pub closed spec fn view(&self) -> Map<Seq<char>, Seq<char>> {
        self.targets@.map_values(|s: String| s@)
    }

    pub fn new() -> (r: Self)
        ensures
            r@ == Map::<Seq<char>, Seq<char>>::empty(),
    {
        let r = Bindings { targets: StringHashMap::new() };
        assert(r@ =~= Map::<Seq<char>, Seq<char>>::empty());
        r
    }

    fn point(&mut self, binding: &str, target: String)
        ensures
            final(self)@ == old(self)@.insert(binding@, target@),
    {
        self.targets.insert(binding.to_owned(), target);
        assert(self@ =~= old(self)@.insert(binding@, target@));
    }

    /// Register a binding. Both kinds reach the same registry, which is what
    /// keeps the tool path and the pipeline path rendering identically.
    ///
    /// A named profile is not resolved here: the binding that names a profile
    /// may be registered before the one that defines it.
    pub fn register_profile<G>(
        &mut self,
        profiles: &mut MarkdownState<G>,
        binding: &str,
        spec: BindingSpec<G>,
    ) -> (r: Result<(), BackendError>)
        ensures
            match binding_refusal(binding@, spec) {
                Some(e) => {
                    &&& r is Err
                    &&& r->Err_0@ == e
                    &&& final(self)@ == old(self)@
                    &&& final(profiles)@ == old(profiles)@
                },
                None => {
                    &&& r is Ok
                    &&& match spec {
                        BindingSpec::Named(name) => {
                            &&& final(self)@ == old(self)@.insert(binding@, name@)
                            &&& final(profiles)@ == old(profiles)@
                        },
                        BindingSpec::Inline(c) => {
                            let added = final(profiles)@[binding@];
                            &&& final(self)@ == old(self)@.insert(binding@, binding@)
                            &&& final(profiles)@ == state::registered(
                                old(profiles)@,
                                binding@,
                                added,
                            )
                            &&& added.name@ == binding@
                            &&& added.config == c->Ok_0.config
                            &&& c->Ok_0.engine == Ok::<G, String>(added.engine)
                        },
                    }
                },
            },
    {
        let target = match spec {
            BindingSpec::Named(name) => name,
            BindingSpec::Inline(Err(e)) => {
                return Err(state::invalid_spec(binding, e.as_str()));
            },
            BindingSpec::Inline(Ok(c)) => {
                profiles.register(binding, c.config, c.engine)?;
                binding.to_owned()
            },
        };
        self.point(binding, target);
        Ok(())
    }

    /// The profile that a binding uses.
    pub fn profile_for<'a, G>(&self, profiles: &'a MarkdownState<G>, binding: &str) -> (r: Result<
        &'a Profile<G>,
        BackendError,
    >)
        ensures
            ({
                let name = target_of(self@, binding@);
                match r {
                    Ok(p) => profiles@.contains_key(name) && *p == profiles@[name],
                    Err(e) => !profiles@.contains_key(name) && e@ == state::unknown_profile(
                        name,
                        profiles.names(),
                    ),
                }
            }),
    {
        match self.targets.get(binding) {
            Some(name) => profiles.profile(name.as_str()),
            None => profiles.profile(binding),
        }
    }
}

/// A tool call and a pipeline step use one registry: the profile that a
/// binding leads to is the one that a step gets by naming it, and the one that
/// a step gets by naming none where no other is registered.
pub proof fn a_step_and_a_tool_use_the_same_profile<G>(
    bindings: Map<Seq<char>, Seq<char>>,
    profiles: Map<Seq<char>, Profile<G>>,
    names: Seq<Seq<char>>,
    binding: Seq<char>,
)
    requires
        state::lists(names, profiles),
        profiles.contains_key(target_of(bindings, binding)),
    ensures
        ({
            let name = target_of(bindings, binding);
            &&& transform_entity::profile_named(Some(name), profiles, names) == Ok::<
                Seq<char>,
                Seq<char>,
            >(name)
            &&& names.len() == 1 ==> transform_entity::profile_named(None, profiles, names) == Ok::<
                Seq<char>,
                Seq<char>,
            >(name)
        }),
{
    assert(names.contains(target_of(bindings, binding)));
}

/// Text reaches the engine in the same bytes and with the same hints, whether
/// it comes through the tool or through a step.
pub proof fn text_reaches_the_engine_the_same_both_ways(
    args: ConvertArgs,
    config: ProfileConfig,
    cfg: TransformConfig,
)
    requires
        config.sources.inline,
        source::sources_named(args) == 1,
        args.text is Some,
        args.charset is None,
        text::text_of(args.filename) == text::text_of(cfg.filename),
        text::text_of(args.mimetype) == text::text_of(cfg.mimetype),
    ensures
        ({
            let (bytes, is_text) = transform_entity::document_in(
                args.text->0@,
                Encoding::Text,
            )->Ok_0;
            source::request_of(args, config) == source::Request::Inline(
                AcquiredView {
                    bytes,
                    info: transform_entity::step_info(cfg, is_text),
                    mode: "inline"@,
                },
            )
        }),
{
}

/// Base64 content reaches the engine in the same bytes and with the same hints
/// both ways, and is refused both ways.
pub proof fn content_reaches_the_engine_the_same_both_ways(
    args: ConvertArgs,
    config: ProfileConfig,
    cfg: TransformConfig,
)
    requires
        config.sources.inline,
        source::sources_named(args) == 1,
        args.content is Some,
        args.charset is None,
        text::text_of(args.filename) == text::text_of(cfg.filename),
        text::text_of(args.mimetype) == text::text_of(cfg.mimetype),
    ensures
        match transform_entity::document_in(args.content->0@, Encoding::Base64) {
            Ok((bytes, is_text)) => source::request_of(args, config) == source::Request::Inline(
                AcquiredView {
                    bytes,
                    info: transform_entity::step_info(cfg, is_text),
                    mode: "inline"@,
                },
            ),
            Err(_) => source::request_of(args, config) is Refused,
        },
{
}

/// What a call carries.
pub enum Payload {
    /// Nothing at all.
    Empty,
    /// Arguments.
    Read(ConvertArgs),
    /// Something that is no arguments, with the reason why.
    Unreadable(String),
}

impl Payload {
    /// The arguments of a call. An empty payload is a call without arguments.
    pub fn arguments(self) -> (r: Result<ConvertArgs, BackendError>)
        ensures
            match self {
                Payload::Empty => {
                    &&& r is Ok
                    &&& r->Ok_0.content is None
                    &&& r->Ok_0.text is None
                    &&& r->Ok_0.uri is None
                    &&& r->Ok_0.filename is None
                    &&& r->Ok_0.mimetype is None
                    &&& r->Ok_0.charset is None
                },
                Payload::Read(args) => r == Ok::<ConvertArgs, BackendError>(args),
                Payload::Unreadable(e) => r is Err && r->Err_0@ == (ErrorView::Transport {
                    message: "markdown arguments: "@ + e@,
                }),
            },
    {
        match self {
            Payload::Empty => Ok(ConvertArgs::default()),
            Payload::Read(args) => Ok(args),
            Payload::Unreadable(e) => Err(
                BackendError::Transport {
                    message: text::concat2("markdown arguments: ", e.as_str()),
                },
            ),
        }
    }
}

/// Begin to serve a call under the profile of its binding: read the arguments,
/// and set out to acquire the document.
pub fn begin<'a, G, S: ContentSource>(
    profile: &'a Profile<G>,
    payload: Payload,
    store: &mut S,
) -> (r: Result<Step<'a>, BackendError>)
    ensures
        !(payload is Read) ==> final(store).lookups() == old(store).lookups(),
        match payload {
            Payload::Unreadable(e) => r is Err && r->Err_0@ == (ErrorView::Transport {
                message: "markdown arguments: "@ + e@,
            }),
            Payload::Read(args) => {
                &&& r is Ok
                &&& source::acquires(
                    args,
                    profile.config,
                    old(store).lookups(),
                    final(store).lookups(),
                    r->Ok_0@,
                )
                &&& r->Ok_0.under(profile.config)
            },
            Payload::Empty => r is Ok && r->Ok_0@ == StepView::Fail(
                ErrorView::Transport {
                    message: "one of `content`, `text` or `uri` is required"@,
                },
            ),
        },
{
    let args = payload.arguments()?;
    Ok(source::acquire(&args, &profile.config, store))
}

/// What a call is answered with.
pub struct Response {
    pub converted: Converted,
    /// Whether the Markdown was cut short.
    pub truncated: bool,
}

/// Answer a call with what came of its conversion.
pub fn respond(converted: Result<Converted, ConvertError>) -> (r: Result<Response, BackendError>)
    ensures
        match converted {
            Ok(c) => {
                &&& r is Ok
                &&& r->Ok_0.converted == c
                &&& r->Ok_0.truncated == convert::cut_short(c@)
            },
            Err(e) => r is Err && r->Err_0@ == convert::told_of(e),
        },
{
    match converted {
        Ok(converted) => {
            let truncated = convert::truncated(&converted);
            Ok(Response { converted, truncated })
        },
        Err(e) => Err(convert::to_backend_error(&e)),
    }
}

/// The result of a conversion could not be written out, for the reason given.
pub fn unwritable(e: &str) -> (r: BackendError)
    ensures
        r@ == (ErrorView::Transport {
            message: "serialising the conversion result: "@ + e@,
        }),
{
    BackendError::Transport { message: text::concat2("serialising the conversion result: ", e) }
}

/// A string argument with this description.
pub open spec fn argument(description: Seq<char>) -> JsonView {
    JsonView::Object(
        seq![("type"@, JsonView::Str("string"@)), ("description"@, JsonView::Str(description))],
    )
}

/// The arguments that the tool offers.
pub open spec fn offered() -> Seq<(Seq<char>, JsonView)> {
    seq![
        ("content"@, argument("The document, base64-encoded."@)),
        (
            "text"@,
            argument("The document, when it is already text. Avoids a base64 round trip."@),
        ),
        (
            "uri"@,
            argument(
                "mcpg-resource:// URI from the gateway content store, a data: URI, \
                                    or an https:// URL when the profile enables the url source. \
                                    Local filesystem paths are not supported."@,
            ),
        ),
        (
            "filename"@,
            argument(
                "Original filename. Drives format detection when the bytes carry no signature."@,
            ),
        ),
        (
            "mimetype"@,
            argument("Declared content type. A hint: content signatures outrank it."@),
        ),
        (
            "charset"@,
            argument("Character set for text formats. Detected when omitted."@),
        ),
    ]
}

/// What a model reads of the tool's arguments.
pub open spec fn input_described() -> JsonView {
    JsonView::Object(
        seq![
            ("type"@, JsonView::Str("object"@)),
            ("properties"@, JsonView::Object(offered())),
            ("additionalProperties"@, JsonView::Bool(false)),
        ],
    )
}

fn describe_argument(name: &str, description: &str) -> (r: (String, Json))
    ensures
        r.0@ == name@,
        r.1@ == argument(description@),
{
    json::member(
        name,
        json::pair("type", json::string("string"), "description", json::string(description)),
    )
}

/// The schema of the tool's arguments.
pub fn input_schema() -> (r: Json)
    ensures
        r@ == input_described(),
{
    let properties = vec![
        describe_argument("content", "The document, base64-encoded."),
        describe_argument(
            "text",
            "The document, when it is already text. Avoids a base64 round trip.",
        ),
        describe_argument(
            "uri",
            "mcpg-resource:// URI from the gateway content store, a data: URI, \
                                    or an https:// URL when the profile enables the url source. \
                                    Local filesystem paths are not supported.",
        ),
        describe_argument(
            "filename",
            "Original filename. Drives format detection when the bytes carry no signature.",
        ),
        describe_argument(
            "mimetype",
            "Declared content type. A hint: content signatures outrank it.",
        ),
        describe_argument("charset", "Character set for text formats. Detected when omitted."),
    ];
    assert(json::members_of(properties@) =~= offered());
    let schema = vec![
        json::member("type", json::string("object")),
        json::member("properties", Json::Object(properties)),
        json::member("additionalProperties", Json::Bool(false)),
    ];
    assert(json::members_of(schema@) =~= seq![
        ("type"@, JsonView::Str("object"@)),
        ("properties"@, JsonView::Object(offered())),
        ("additionalProperties"@, JsonView::Bool(false)),
    ]);
    Json::Object(schema)
}

/// The tool offers no `path` argument: the tool description is what a model
/// reads, and advertising one would invite exactly the request that cannot be
/// served.
pub proof fn no_path_is_offered()
    ensures
        json::member_from(offered(), "path"@, 0) is None,
        json::at(input_described(), seq!["properties"@, "path"@]) is None,
        json::at(input_described(), seq!["additionalProperties"@]) == Some(JsonView::Bool(false)),
{
    reveal_strlit("path");
    reveal_strlit("content");
    reveal_strlit("text");
    reveal_strlit("uri");
    reveal_strlit("filename");
    reveal_strlit("mimetype");
    reveal_strlit("charset");
    reveal_strlit("type");
    reveal_strlit("properties");
    reveal_strlit("additionalProperties");
    reveal_with_fuel(json::member_from, 8);
    reveal_with_fuel(json::at, 3);
    assert("text"@[0] != "path"@[0]);
    let path = seq!["properties"@, "path"@];
    assert(path.drop_first()[0] == "path"@);
    assert(json::step(input_described(), "properties"@) == Some(1int));
    assert(json::step(input_described(), "additionalProperties"@) == Some(2int));
}

/// A schema that only names a type.
pub open spec fn typed(name: Seq<char>) -> Seq<(Seq<char>, JsonView)> {
    seq![("type"@, JsonView::Str(name))]
}

/// The schema of one warning.
pub open spec fn warning_described() -> JsonView {
    JsonView::Object(
        seq![
            ("type"@, JsonView::Str("object"@)),
            (
                "required"@,
                JsonView::Array(seq![JsonView::Str("kind"@), JsonView::Str("message"@)]),
            ),
            (
                "properties"@,
                JsonView::Object(
                    seq![
                        ("kind"@, JsonView::Object(typed("string"@))),
                        ("message"@, JsonView::Object(typed("string"@))),
                    ],
                ),
            ),
        ],
    )
}

/// The fields of a result.
pub open spec fn returned() -> Seq<(Seq<char>, JsonView)> {
    seq![
        ("markdown"@, JsonView::Object(typed("string"@))),
        ("title"@, JsonView::Object(typed("string"@))),
        ("format"@, argument("Which converter ran."@)),
        (
            "detected_via"@,
            JsonView::Object(
                seq![
                    ("type"@, JsonView::Str("string"@)),
                    (
                        "enum"@,
                        JsonView::Array(
                            seq![
                                JsonView::Str("content"@),
                                JsonView::Str("extension"@),
                                JsonView::Str("declared"@),
                                JsonView::Str("none"@),
                            ],
                        ),
                    ),
                ],
            ),
        ),
        (
            "warnings"@,
            JsonView::Object(
                seq![
                    ("type"@, JsonView::Str("array"@)),
                    (
                        "description"@,
                        JsonView::Str(
                            "Degradations. Empty when the conversion lost nothing."@,
                        ),
                    ),
                    ("items"@, warning_described()),
                ],
            ),
        ),
    ]
}

/// What a model reads of the tool's result.
pub open spec fn output_described() -> JsonView {
    JsonView::Object(
        seq![
            ("type"@, JsonView::Str("object"@)),
            (
                "required"@,
                JsonView::Array(
                    seq![
                        JsonView::Str("markdown"@),
                        JsonView::Str("format"@),
                        JsonView::Str("detected_via"@),
                        JsonView::Str("warnings"@),
                    ],
                ),
            ),
            ("properties"@, JsonView::Object(returned())),
            ("additionalProperties"@, JsonView::Bool(false)),
        ],
    )
}

fn type_only(name: &str) -> (r: Json)
    ensures
        r@ == JsonView::Object(typed(name@)),
{
    let members = vec![json::member("type", json::string(name))];
    assert(json::members_of(members@) =~= typed(name@));
    Json::Object(members)
}

fn strings2(a: &str, b: &str) -> (r: Json)
    ensures
        r@ == JsonView::Array(seq![JsonView::Str(a@), JsonView::Str(b@)]),
{
    let items = vec![json::string(a), json::string(b)];
    assert(json::elements_of(items@) =~= seq![JsonView::Str(a@), JsonView::Str(b@)]);
    Json::Array(items)
}

fn strings4(a: &str, b: &str, c: &str, d: &str) -> (r: Json)
    ensures
        r@ == JsonView::Array(
            seq![JsonView::Str(a@), JsonView::Str(b@), JsonView::Str(c@), JsonView::Str(d@)],
        ),
{
    let items = vec![json::string(a), json::string(b), json::string(c), json::string(d)];
    assert(json::elements_of(items@) =~= seq![
        JsonView::Str(a@),
        JsonView::Str(b@),
        JsonView::Str(c@),
        JsonView::Str(d@),
    ]);
    Json::Array(items)
}

fn warning_schema() -> (r: Json)
    ensures
        r@ == warning_described(),
{
    let members = vec![
        json::member("type", json::string("object")),
        json::member("required", strings2("kind", "message")),
        json::member(
            "properties",
            json::pair("kind", type_only("string"), "message", type_only("string")),
        ),
    ];
    assert(json::members_of(members@) =~= warning_described()->Object_0);
    Json::Object(members)
}

/// The schema of the tool's result.
pub fn output_schema() -> (r: Json)
    ensures
        r@ == output_described(),
{
    let detected_via = json::pair(
        "type",
        json::string("string"),
        "enum",
        strings4("content", "extension", "declared", "none"),
    );
    let warnings = vec![
        json::member("type", json::string("array")),
        json::member(
            "description",
            json::string("Degradations. Empty when the conversion lost nothing."),
        ),
        json::member("items", warning_schema()),
    ];
    assert(json::members_of(warnings@) =~= seq![
        ("type"@, JsonView::Str("array"@)),
        (
            "description"@,
            JsonView::Str("Degradations. Empty when the conversion lost nothing."@),
        ),
        ("items"@, warning_described()),
    ]);
    let properties = vec![
        json::member("markdown", type_only("string")),
        json::member("title", type_only("string")),
        describe_argument("format", "Which converter ran."),
        json::member("detected_via", detected_via),
        json::member("warnings", Json::Object(warnings)),
    ];
    assert(json::members_of(properties@) =~= returned());
    let schema = vec![
        json::member("type", json::string("object")),
        json::member("required", strings4("markdown", "format", "detected_via", "warnings")),
        json::member("properties", Json::Object(properties)),
        json::member("additionalProperties", Json::Bool(false)),
    ];
    assert(json::members_of(schema@) =~= output_described()->Object_0);
    Json::Object(schema)
}

/// Result of one conversion, for callers that want the struct rather than the
/// serialised payload.
pub type ConversionResult = Converted;

} // verus!
