//! What is sent to a model, what is taken from its reply, and what the tool
//! says of itself.

use vstd::prelude::*;

use crate::backend_entity;
use crate::enrich;
use crate::json;
use crate::json::JsonView;
use crate::json_laws;
use crate::text;
use crate::text_laws;

verus! {

/// What is sent is one message of the user: the prompt alone, or the resource
/// and then the prompt as text.
pub proof fn a_question_is_one_message_of_the_user(prompt: Seq<char>, uri: Seq<char>)
    ensures
        ({
            let v = enrich::dispatched(prompt, None);
            let m = json::at(v, seq!["messages"@])->0->Array_0;
            &&& json::at(v, seq!["messages"@]) is Some
            &&& json::at(v, seq!["messages"@])->0 is Array
            &&& m.len() == 1
            &&& json::at(m[0], seq!["role"@]) == Some(JsonView::Str("user"@))
            &&& json::at(m[0], seq!["content"@]) == Some(JsonView::Str(prompt))
        }),
        ({
            let v = enrich::dispatched(prompt, Some(uri));
            let m = json::at(v, seq!["messages"@])->0->Array_0;
            let c = json::at(m[0], seq!["content"@])->0->Array_0;
            &&& json::at(v, seq!["messages"@]) is Some
            &&& json::at(v, seq!["messages"@])->0 is Array
            &&& m.len() == 1
            &&& json::at(m[0], seq!["role"@]) == Some(JsonView::Str("user"@))
            &&& json::at(m[0], seq!["content"@]) is Some
            &&& json::at(m[0], seq!["content"@])->0 is Array
            &&& c.len() == 2
            &&& json::at(c[0], seq!["type"@]) == Some(JsonView::Str("resource"@))
            &&& json::at(c[0], seq!["uri"@]) == Some(JsonView::Str(uri))
            &&& json::at(c[1], seq!["type"@]) == Some(JsonView::Str("text"@))
            &&& json::at(c[1], seq!["text"@]) == Some(JsonView::Str(prompt))
        }),
{
    reveal_strlit("messages");
    reveal_strlit("role");
    reveal_strlit("content");
    reveal_strlit("type");
    reveal_strlit("uri");
    reveal_strlit("text");
    reveal_with_fuel(json::at, 2);
    reveal_with_fuel(json::member_from, 3);
    assert("role"@.len() == 4 && "content"@.len() == 7 && "uri"@.len() == 3);
    assert("type"@[1] == 'y' && "text"@[1] == 'e');
    assert(seq!["messages"@].drop_first() =~= Seq::empty());
    assert(seq!["role"@].drop_first() =~= Seq::empty());
    assert(seq!["content"@].drop_first() =~= Seq::empty());
    assert(seq!["type"@].drop_first() =~= Seq::empty());
    assert(seq!["uri"@].drop_first() =~= Seq::empty());
    assert(seq!["text"@].drop_first() =~= Seq::empty());
}

/// Where a reply may hold its text, in the order in which it is looked for: in
/// the shapes of tool results and of chat completions, under a plain name, or
/// as the whole reply.
pub open spec fn places() -> Seq<Seq<Seq<char>>> {
    seq![
        seq!["content"@, "0"@, "text"@],
        seq!["message"@, "content"@],
        seq!["choices"@, "0"@, "message"@, "content"@],
        seq!["text"@],
        seq!["output"@],
        Seq::empty(),
    ]
}

/// Whether a reply holds this text at a place, and it is not blank.
pub open spec fn speaks(v: JsonView, place: Seq<Seq<char>>, t: Seq<char>) -> bool {
    &&& json::at(v, place) == Some(JsonView::Str(t))
    &&& !text::blank(t)
}

proof fn lemma_plain(token: Seq<char>)
    requires
        !token.contains('~'),
        !token.contains('/'),
    ensures
        json_laws::escaped(token) == token,
    decreases token.len(),
{
    if token.len() > 0 {
        let rest = token.skip(1);
        assert forall|i: int| 0 <= i < rest.len() implies #[trigger] rest[i] != '~' && rest[i]
            != '/' by {
            assert(rest[i] == token[i + 1]);
        }
        lemma_plain(rest);
        assert(token[0] != '~' && token[0] != '/');
        assert(token =~= seq![token[0]] + rest);
    }
}

/// The pointers that are looked up name the places.
proof fn lemma_pointers()
    ensures
        json::path_of("/content/0/text"@) == Some(places()[0]),
        json::path_of("/message/content"@) == Some(places()[1]),
        json::path_of("/choices/0/message/content"@) == Some(places()[2]),
        json::path_of("/text"@) == Some(places()[3]),
        json::path_of("/output"@) == Some(places()[4]),
{
    reveal_strlit("/content/0/text");
    reveal_strlit("/message/content");
    reveal_strlit("/choices/0/message/content");
    reveal_strlit("/text");
    reveal_strlit("/output");
    reveal_strlit("content");
    reveal_strlit("0");
    reveal_strlit("text");
    reveal_strlit("message");
    reveal_strlit("choices");
    reveal_strlit("output");
    lemma_plain("content"@);
    lemma_plain("0"@);
    lemma_plain("text"@);
    lemma_plain("message"@);
    lemma_plain("choices"@);
    lemma_plain("output"@);
    json_laws::a_pointer_names_what_it_spells(places()[0]);
    json_laws::a_pointer_names_what_it_spells(places()[1]);
    json_laws::a_pointer_names_what_it_spells(places()[2]);
    json_laws::a_pointer_names_what_it_spells(places()[3]);
    json_laws::a_pointer_names_what_it_spells(places()[4]);
    lemma_spelled(places()[0]);
    lemma_spelled(places()[1]);
    lemma_spelled(places()[2]);
    lemma_spelled(places()[3]);
    lemma_spelled(places()[4]);
    assert(json_laws::spelled(places()[0]) =~= "/content/0/text"@);
    assert(json_laws::spelled(places()[1]) =~= "/message/content"@);
    assert(json_laws::spelled(places()[2]) =~= "/choices/0/message/content"@);
    assert(json_laws::spelled(places()[3]) =~= "/text"@);
    assert(json_laws::spelled(places()[4]) =~= "/output"@);
}

proof fn lemma_spelled(p: Seq<Seq<char>>)
    requires
        0 < p.len() <= 4,
        forall|i: int| 0 <= i < p.len() ==> json_laws::escaped(#[trigger] p[i]) == p[i],
    ensures
        p.len() == 1 ==> json_laws::spelled(p) == seq!['/'] + p[0],
        p.len() == 2 ==> json_laws::spelled(p) == seq!['/'] + p[0] + seq!['/'] + p[1],
        p.len() == 3 ==> json_laws::spelled(p) == seq!['/'] + p[0] + seq!['/'] + p[1] + seq!['/']
            + p[2],
        p.len() == 4 ==> json_laws::spelled(p) == seq!['/'] + p[0] + seq!['/'] + p[1] + seq!['/']
            + p[2] + seq!['/'] + p[3],
    decreases p.len(),
{
    let rest = p.drop_first();
    if p.len() == 1 {
        assert(json_laws::spelled(rest) =~= Seq::empty());
        assert(json_laws::spelled(p) =~= seq!['/'] + p[0]);
    } else {
        assert forall|i: int| 0 <= i < rest.len() implies json_laws::escaped(#[trigger] rest[i])
            == rest[i] by {
            assert(rest[i] == p[i + 1]);
        }
        lemma_spelled(rest);
        assert(json_laws::spelled(p) =~= seq!['/'] + p[0] + json_laws::spelled(rest));
        assert(p.len() == 2 ==> json_laws::spelled(p) =~= seq!['/'] + p[0] + seq!['/'] + p[1]);
        assert(p.len() == 3 ==> json_laws::spelled(p) =~= seq!['/'] + p[0] + seq!['/'] + p[1]
            + seq!['/'] + p[2]);
        assert(p.len() == 4 ==> json_laws::spelled(p) =~= seq!['/'] + p[0] + seq!['/'] + p[1]
            + seq!['/'] + p[2] + seq!['/'] + p[3]);
    }
}

/// What a reply says is the text at the first place that holds any; a reply
/// that holds none is an error that names the binding, and an error of the host
/// is handed on.
pub proof fn a_reply_speaks_at_the_first_place(
    binding: Seq<char>,
    v: JsonView,
    i: int,
    t: Seq<char>,
    e: Seq<char>,
)
    requires
        0 <= i <= places().len(),
        forall|k: int, s: Seq<char>| 0 <= k < i ==> !#[trigger] speaks(v, places()[k], s),
        i < places().len() ==> speaks(v, places()[i], t),
    ensures
        enrich::dispatch_outcome(binding, Ok(v)) == if i < places().len() {
            Ok::<Seq<char>, Seq<char>>(t)
        } else {
            Err(binding + " returned no text"@)
        },
        enrich::dispatch_outcome(binding, Err(e)) == Err::<Seq<char>, Seq<char>>(e),
{
    lemma_pointers();
    lemma_said(v, places()[0]);
    lemma_said(v, places()[1]);
    lemma_said(v, places()[2]);
    lemma_said(v, places()[3]);
    lemma_said(v, places()[4]);
    lemma_said(v, places()[5]);
    assert(places().len() == 6);
    assert(i > 0 ==> enrich::said(json::at(v, places()[0])) is None);
    assert(i > 1 ==> enrich::said(json::at(v, places()[1])) is None);
    assert(i > 2 ==> enrich::said(json::at(v, places()[2])) is None);
    assert(i > 3 ==> enrich::said(json::at(v, places()[3])) is None);
    assert(i > 4 ==> enrich::said(json::at(v, places()[4])) is None);
    assert(i > 5 ==> enrich::said(json::at(v, places()[5])) is None);
    if i < places().len() {
        text_laws::only_white_space_is_trimmed_away(t);
        assert(enrich::said(json::at(v, places()[i])) == Some(t));
    }
    assert(json::at(v, places()[5]) == Some(v));
}

proof fn lemma_said(v: JsonView, place: Seq<Seq<char>>)
    ensures
        enrich::said(json::at(v, place)) matches Some(s) ==> speaks(v, place, s),
{
    if let Some(s) = enrich::said(json::at(v, place)) {
        text_laws::only_white_space_is_trimmed_away(s);
    }
}

/// The arguments that a call may have.
pub open spec fn argument_names() -> Seq<Seq<char>> {
    seq!["content"@, "text"@, "uri"@, "filename"@, "mimetype"@, "charset"@]
}

/// The tool takes an object, offers six arguments, all of them text, and takes
/// no other.
pub proof fn the_tool_offers_its_arguments()
    ensures
        ({
            let v = backend_entity::input_described();
            let offered = json::at(v, seq!["properties"@])->0->Object_0;
            &&& json::at(v, seq!["type"@]) == Some(JsonView::Str("object"@))
            &&& json::at(v, seq!["additionalProperties"@]) == Some(JsonView::Bool(false))
            &&& json::at(v, seq!["required"@]) is None
            &&& json::at(v, seq!["properties"@]) is Some
            &&& json::at(v, seq!["properties"@])->0 is Object
            &&& offered.len() == argument_names().len()
            &&& forall|i: int|
                0 <= i < offered.len() ==> {
                    &&& (#[trigger] offered[i]).0 == argument_names()[i]
                    &&& json::at(offered[i].1, seq!["type"@]) == Some(JsonView::Str("string"@))
                }
        }),
{
    reveal_strlit("type");
    reveal_strlit("properties");
    reveal_strlit("additionalProperties");
    reveal_strlit("required");
    reveal_strlit("description");
    reveal_with_fuel(json::at, 2);
    reveal_with_fuel(json::member_from, 4);
    assert(seq!["type"@].drop_first() =~= Seq::empty());
    assert(seq!["properties"@].drop_first() =~= Seq::empty());
    assert(seq!["additionalProperties"@].drop_first() =~= Seq::empty());
    assert("type"@.len() == 4 && "properties"@.len() == 10 && "required"@.len() == 8
        && "additionalProperties"@.len() == 20);
    let offered = backend_entity::offered();
    assert forall|i: int| 0 <= i < offered.len() implies {
        &&& (#[trigger] offered[i]).0 == argument_names()[i]
        &&& json::at(offered[i].1, seq!["type"@]) == Some(JsonView::Str("string"@))
    } by {
        assert(i == 0 || i == 1 || i == 2 || i == 3 || i == 4 || i == 5);
    }
}

/// The members that a result always has.
pub open spec fn result_names() -> Seq<Seq<char>> {
    seq!["markdown"@, "format"@, "detected_via"@, "warnings"@]
}

/// The tool returns an object that always holds the Markdown, the format, the
/// signal and the warnings, and may hold a title besides.
pub proof fn the_tool_describes_its_result()
    ensures
        ({
            let v = backend_entity::output_described();
            let required = json::at(v, seq!["required"@])->0->Array_0;
            &&& json::at(v, seq!["type"@]) == Some(JsonView::Str("object"@))
            &&& json::at(v, seq!["additionalProperties"@]) == Some(JsonView::Bool(false))
            &&& json::at(v, seq!["required"@]) is Some
            &&& json::at(v, seq!["required"@])->0 is Array
            &&& required =~= result_names().map_values(|n: Seq<char>| JsonView::Str(n))
            &&& json::at(v, seq!["properties"@]) is Some
            &&& json::at(v, seq!["properties"@])->0 is Object
            &&& json::at(v, seq!["properties"@])->0->Object_0.map_values(
                |m: (Seq<char>, JsonView)| m.0,
            ) =~= seq!["markdown"@, "title"@, "format"@, "detected_via"@, "warnings"@]
        }),
{
    reveal_strlit("type");
    reveal_strlit("properties");
    reveal_strlit("additionalProperties");
    reveal_strlit("required");
    reveal_with_fuel(json::at, 2);
    reveal_with_fuel(json::member_from, 5);
    assert(seq!["type"@].drop_first() =~= Seq::empty());
    assert(seq!["properties"@].drop_first() =~= Seq::empty());
    assert(seq!["additionalProperties"@].drop_first() =~= Seq::empty());
    assert(seq!["required"@].drop_first() =~= Seq::empty());
    assert("type"@.len() == 4 && "properties"@.len() == 10 && "required"@.len() == 8
        && "additionalProperties"@.len() == 20);
}

} // verus!
