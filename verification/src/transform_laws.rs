//! What a transform step does with a value, and what it leaves alone.

use vstd::prelude::*;

use crate::codec;
use crate::config::Profile;
use crate::convert::ConvertedView;
use crate::json;
use crate::json::JsonView;
use crate::source_laws;
use crate::stream::StreamInfoView;
use crate::text;
use crate::transform_entity;
use crate::transform_entity::{Encoding, Phase, Plan, TransformConfig};

verus! {

/// A step that is set to one phase leaves a value of the other phase unchanged,
/// and nothing else: it works on the phase that it is set to, and where it is
/// set to both it works on either.
pub proof fn only_the_other_phase_is_left_unchanged<G>(
    value: JsonView,
    cfg: TransformConfig,
    phase: Phase,
    profiles: Map<Seq<char>, Profile<G>>,
    names: Seq<Seq<char>>,
)
    ensures
        ({
            let unchanged = transform_entity::planned(value, cfg, phase, profiles, names)
                is Unchanged;
            &&& cfg.phase is Arguments && phase is Result ==> unchanged
            &&& cfg.phase is Result && phase is Arguments ==> unchanged
            &&& cfg.phase is Arguments && phase is Arguments ==> !unchanged
            &&& cfg.phase is Result && phase is Result ==> !unchanged
            &&& cfg.phase is Both ==> !unchanged
            &&& phase is Both && !(cfg.phase is Both) ==> unchanged
        }),
{
}

/// Whether a step works on a value of this phase.
pub open spec fn works_on(cfg: TransformConfig, phase: Phase) -> bool {
    match cfg.phase {
        Phase::Arguments => phase is Arguments,
        Phase::Result => phase is Result,
        Phase::Both => true,
    }
}

/// What is known of the document that a step converts are the hints of its
/// configuration, with UTF-8 as the character set of text and none of bytes.
pub proof fn a_step_passes_its_hints_on<G>(
    value: JsonView,
    cfg: TransformConfig,
    phase: Phase,
    profiles: Map<Seq<char>, Profile<G>>,
    names: Seq<Seq<char>>,
)
    requires
        transform_entity::planned(value, cfg, phase, profiles, names) is Convert,
    ensures
        ({
            let info = transform_entity::planned(value, cfg, phase, profiles, names)->info;
            &&& match cfg.filename {
                Some(f) => info.filename == Some(f@) && source_laws::follows_last_dot(
                    f@,
                    info.extension,
                ),
                None => info.filename is None && info.extension is None,
            }
            &&& match cfg.mimetype {
                Some(m) => {
                    &&& info.content_type == Some(m@)
                    &&& info.mimetype is Some
                    &&& source_laws::without_parameters(m@, info.mimetype->0)
                },
                None => info.content_type is None && info.mimetype is None,
            }
            &&& info.charset is Some ==> info.charset == Some("utf-8"@)
            &&& cfg.encoding is Text ==> info.charset is Some
            &&& cfg.encoding is Base64 ==> info.charset is None
            &&& info.url is None
        }),
{
    let blank = StreamInfoView::blank();
    let named = match cfg.filename {
        Some(f) => blank.named(f@),
        None => blank,
    };
    if let Some(f) = cfg.filename {
        source_laws::a_name_brings_its_extension(blank, f@);
    }
    if let Some(m) = cfg.mimetype {
        source_laws::a_content_type_brings_its_essence(named, m@);
    }
}

/// Whether bytes plainly are no text: they begin as an archive, a PDF or a
/// compound document does, or hold a zero byte.
pub open spec fn plainly_binary(b: Seq<u8>) -> bool {
    &&& b.len() >= 4
    &&& {
        ||| b[0] == 80 && b[1] == 75 && b[2] == 3 && b[3] == 4
        ||| b.len() >= 5 && b[0] == 37 && b[1] == 80 && b[2] == 68 && b[3] == 70 && b[4] == 45
        ||| b[0] == 208 && b[1] == 207 && b[2] == 17 && b[3] == 224
        ||| exists|i: int| 0 <= i < b.len() && #[trigger] b[i] == 0
    }
}

/// Bytes are taken for binary exactly where they plainly are no text.
pub proof fn binary_is_told_by_its_first_bytes(b: Seq<u8>)
    ensures
        transform_entity::binary(b) <==> plainly_binary(b),
{
    let (z, c) = (seq![0x50u8, 0x4b, 0x03, 0x04], seq![0xd0u8, 0xcf, 0x11, 0xe0]);
    let p = seq![0x25u8, 0x50, 0x44, 0x46, 0x2d];
    if b.len() >= 4 {
        let t = b.take(4);
        assert(t[0] == b[0] && t[1] == b[1] && t[2] == b[2] && t[3] == b[3]);
        if b[0] == 80 && b[1] == 75 && b[2] == 3 && b[3] == 4 {
            assert(z =~= t);
        }
        if b[0] == 208 && b[1] == 207 && b[2] == 17 && b[3] == 224 {
            assert(c =~= t);
        }
    }
    if b.len() >= 5 {
        let t = b.take(5);
        assert(t[0] == b[0] && t[1] == b[1] && t[2] == b[2] && t[3] == b[3] && t[4] == b[4]);
        if b[0] == 37 && b[1] == 80 && b[2] == 68 && b[3] == 70 && b[4] == 45 {
            assert(p =~= t);
        }
    }
}

/// What a step converts is the text at its place: as it stands where the step
/// is set to text; decoded where it is set to base64, and refused where it is
/// none; and where the step is to decide, decoded exactly where it is the base64
/// text of bytes that plainly are no text.
pub proof fn a_step_reads_its_place_as_it_is_set<G>(
    value: JsonView,
    cfg: TransformConfig,
    phase: Phase,
    profiles: Map<Seq<char>, Profile<G>>,
    names: Seq<Seq<char>>,
    raw: Seq<char>,
    bytes: Seq<u8>,
)
    requires
        works_on(cfg, phase),
        transform_entity::profile_named(text::text_of(cfg.profile), profiles, names) is Ok,
        json::found(
            value,
            match cfg.pointer {
                Some(p) => p@,
                None => Seq::empty(),
            },
        ) == Some(JsonView::Str(raw)),
    ensures
        ({
            let plan = transform_entity::planned(value, cfg, phase, profiles, names);
            let plain = vstd::utf8::encode_utf8(raw);
            let encoded = text::trimmed(raw);
            match cfg.encoding {
                Encoding::Text => plan is Convert && plan->bytes == plain,
                Encoding::Base64 => {
                    &&& codec::base64_text(bytes) == encoded ==> plan is Convert && plan->bytes
                        == bytes
                    &&& plan is Convert ==> codec::base64_text(plan->bytes) == encoded
                    &&& !(plan is Convert) ==> plan == Plan::Error(
                        "value is not valid base64: "@ + codec::base64_fault(encoded),
                    )
                },
                Encoding::Auto => {
                    &&& plan is Convert
                    &&& codec::base64_text(bytes) == encoded && plainly_binary(bytes) ==> {
                        &&& plan->bytes == bytes
                        &&& plan->info.charset is None
                    }
                    &&& plan->bytes != plain ==> {
                        &&& codec::base64_text(plan->bytes) == encoded
                        &&& plainly_binary(plan->bytes)
                    }
                    &&& codec::base64_text(bytes) == encoded && !plainly_binary(bytes) ==> {
                        &&& plan->bytes == plain
                        &&& plan->info.charset == Some("utf-8"@)
                    }
                },
            }
        }),
{
    let encoded = text::trimmed(raw);
    if codec::base64_text(bytes) == encoded {
        codec::base64_round_trip(bytes);
    }
    binary_is_told_by_its_first_bytes(bytes);
    if let Some(b) = codec::base64_value(encoded) {
        binary_is_told_by_its_first_bytes(b);
    }
}

/// A place that is not there, or holds no text, is told with its pointer and
/// with what it holds.
pub proof fn a_place_that_holds_no_text_is_told<G>(
    value: JsonView,
    cfg: TransformConfig,
    phase: Phase,
    profiles: Map<Seq<char>, Profile<G>>,
    names: Seq<Seq<char>>,
)
    requires
        works_on(cfg, phase),
        transform_entity::profile_named(text::text_of(cfg.profile), profiles, names) is Ok,
    ensures
        ({
            let plan = transform_entity::planned(value, cfg, phase, profiles, names);
            let pointer = match cfg.pointer {
                Some(p) => p@,
                None => Seq::empty(),
            };
            let holds = |what: Seq<char>|
                plan == Plan::Error(
                    "pointer "@ + text::quoted(pointer) + " targets "@ + what
                        + ", but the markdown transform needs a string \
                     holding the document (base64 or text)"@,
                );
            match json::found(value, pointer) {
                None => plan == Plan::Error(
                    "pointer "@ + text::quoted(pointer) + " not found in value"@,
                ),
                Some(JsonView::Str(_)) => true,
                Some(JsonView::Null) => holds("null"@),
                Some(JsonView::Bool(_)) => holds("a boolean"@),
                Some(JsonView::Number(_)) => holds("a number"@),
                Some(JsonView::Array(_)) => holds("an array"@),
                Some(JsonView::Object(_)) => holds("an object"@),
            }
        }),
{
}

/// A step converts under the profile that it names, where it is registered, and
/// under the only one where it names none. It guesses at none, and tells which
/// ones there are.
pub proof fn a_step_guesses_at_no_profile<G>(
    value: JsonView,
    cfg: TransformConfig,
    phase: Phase,
    profiles: Map<Seq<char>, Profile<G>>,
    names: Seq<Seq<char>>,
)
    requires
        works_on(cfg, phase),
    ensures
        ({
            let plan = transform_entity::planned(value, cfg, phase, profiles, names);
            match cfg.profile {
                Some(name) => if profiles.contains_key(name@) {
                    plan is Convert ==> plan->profile == name@
                } else {
                    plan == Plan::Error(
                        "ProfileNotFound { backend_name: "@ + text::quoted(
                            name@ + " (registered markdown profiles: "@ + text::joined(
                                names,
                                ", "@,
                            ) + ")"@,
                        ) + " }"@,
                    )
                },
                None => {
                    &&& names.len() == 1 && plan is Convert ==> plan->profile == names[0]
                    &&& names.len() == 0 ==> plan == Plan::Error(
                        "no markdown profile is registered; configure a markdown backend \
                     binding, or give this step an inline profile"@,
                    )
                    &&& names.len() > 1 ==> plan == Plan::Error(
                        "several markdown profiles are registered ("@ + text::joined(names, ", "@)
                            + "); name one with \
                         `profile:` rather than letting the step guess"@,
                    )
                },
            }
        }),
{
}

/// Text under a registered profile is converted: a step owes a conversion
/// wherever it works, knows its profile, and finds text at its place.
pub proof fn a_step_owes_a_conversion<G>(
    value: JsonView,
    cfg: TransformConfig,
    phase: Phase,
    profiles: Map<Seq<char>, Profile<G>>,
    names: Seq<Seq<char>>,
)
    requires
        works_on(cfg, phase),
        match cfg.profile {
            Some(name) => profiles.contains_key(name@),
            None => names.len() == 1,
        },
        json::found(
            value,
            match cfg.pointer {
                Some(p) => p@,
                None => Seq::empty(),
            },
        ) is Some,
        json::found(
            value,
            match cfg.pointer {
                Some(p) => p@,
                None => Seq::empty(),
            },
        )->0 is Str,
        !(cfg.encoding is Base64),
    ensures
        transform_entity::planned(value, cfg, phase, profiles, names) is Convert,
{
}

/// What a step puts in place is the Markdown alone, or, where it is set to be
/// verbose, the whole result with each warning by its kind and its message, in
/// order, and with the title where there is one.
pub proof fn a_step_puts_the_markdown_in_place(cfg: TransformConfig, c: ConvertedView)
    ensures
        ({
            let put = transform_entity::product(cfg, c);
            &&& !cfg.verbose ==> put == JsonView::Str(c.markdown)
            &&& cfg.verbose ==> {
                &&& put is Object
                &&& json::at(put, seq!["markdown"@]) == Some(JsonView::Str(c.markdown))
                &&& json::at(put, seq!["format"@]) == Some(JsonView::Str(c.format))
                &&& json::at(put, seq!["detected_via"@]) == Some(JsonView::Str(c.detected_via))
                &&& json::at(put, seq!["title"@]) == match c.title {
                    Some(t) => Some(JsonView::Str(t)),
                    None => None,
                }
                &&& json::at(put, seq!["warnings"@]) matches Some(JsonView::Array(told))
                    && told.len() == c.warnings.len() && forall|i: int|
                    0 <= i < told.len() ==> {
                        &&& json::at(#[trigger] told[i], seq!["kind"@]) == Some(
                            JsonView::Str(c.warnings[i].kind),
                        )
                        &&& json::at(told[i], seq!["message"@]) == Some(
                            JsonView::Str(c.warnings[i].message),
                        )
                    }
                &&& put->Object_0.len() == if c.title is Some {
                    5
                } else {
                    4int
                }
            }
        }),
{
    reveal_strlit("markdown");
    reveal_strlit("format");
    reveal_strlit("detected_via");
    reveal_strlit("title");
    reveal_strlit("warnings");
    reveal_strlit("kind");
    reveal_strlit("message");
    reveal_with_fuel(json::at, 2);
    reveal_with_fuel(json::member_from, 7);
    assert("markdown"@[1] == 'a' && "message"@[1] == 'e' && "kind"@[0] == 'k');
    assert("markdown"@.len() == 8 && "format"@.len() == 6 && "detected_via"@.len() == 12
        && "title"@.len() == 5 && "warnings"@.len() == 8);
    assert("markdown"@[0] == 'm' && "warnings"@[0] == 'w');
    let put = transform_entity::result_json(c);
    if let JsonView::Object(m) = put {
        if c.title is Some {
            assert(m[0].0 == "markdown"@);
            assert(m[1].0 == "title"@);
            assert(m[2].0 == "format"@);
            assert(m[3].0 == "detected_via"@);
            assert(m[4].0 == "warnings"@);
        } else {
            assert(m[0].0 == "markdown"@);
            assert(m[1].0 == "format"@);
            assert(m[2].0 == "detected_via"@);
            assert(m[3].0 == "warnings"@);
        }
    }
    assert(seq!["markdown"@].drop_first() =~= Seq::empty());
    assert(seq!["format"@].drop_first() =~= Seq::empty());
    assert(seq!["detected_via"@].drop_first() =~= Seq::empty());
    assert(seq!["title"@].drop_first() =~= Seq::empty());
    assert(seq!["warnings"@].drop_first() =~= Seq::empty());
    let told = c.warnings.map_values(|w| transform_entity::warning_json(w));
    assert forall|i: int| 0 <= i < told.len() implies {
        &&& json::at(#[trigger] told[i], seq!["kind"@]) == Some(JsonView::Str(c.warnings[i].kind))
        &&& json::at(told[i], seq!["message"@]) == Some(JsonView::Str(c.warnings[i].message))
    } by {
        assert(seq!["kind"@].drop_first() =~= Seq::empty());
        assert(seq!["message"@].drop_first() =~= Seq::empty());
        assert("kind"@.len() == 4 && "message"@.len() == 7);
    }
}

} // verus!
