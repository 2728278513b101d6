//! What acquisition brings back, whatever source a call names.

use vstd::prelude::*;

use crate::codec;
use crate::config::ProfileConfig;
use crate::error::ErrorView;
use crate::fetch;
use crate::fetch::StepView;
use crate::source;
use crate::source::{ConvertArgs, Lookup};
use crate::stream::StreamInfoView;
use crate::text;
use crate::text_laws;

verus! {

/// Whether `extension` is what follows the last dot of a filename, or there is
/// no dot and no extension.
pub open spec fn follows_last_dot(filename: Seq<char>, extension: Option<Seq<char>>) -> bool {
    match extension {
        Some(e) => !e.contains('.') && exists|stem: Seq<char>| filename == #[trigger] (stem
            + seq!['.']) + e,
        None => !filename.contains('.'),
    }
}

/// Whether `mimetype` is a content type up to its first semicolon, without
/// white space around it.
pub open spec fn without_parameters(content_type: Seq<char>, mimetype: Seq<char>) -> bool {
    exists|n: int|
        {
            &&& 0 <= n <= content_type.len()
            &&& !(#[trigger] content_type.take(n)).contains(';')
            &&& n < content_type.len() ==> content_type[n] == ';'
            &&& mimetype == text::trimmed(content_type.take(n))
        }
}

/// A stream is named with a filename and its extension, and nothing else of it
/// changes.
pub proof fn a_name_brings_its_extension(info: StreamInfoView, filename: Seq<char>)
    ensures
        info.named(filename).filename == Some(filename),
        follows_last_dot(filename, info.named(filename).extension),
        info.named(filename).content_type == info.content_type,
        info.named(filename).mimetype == info.mimetype,
        info.named(filename).charset == info.charset,
        info.named(filename).url == info.url,
{
    text_laws::a_text_is_cut_at_the_last_occurrence(filename, '.');
    if let Some((stem, e)) = text::cut_last(filename, '.') {
        assert(filename == (stem + seq!['.']) + e);
    }
}

/// A stream is given a content type as it is declared and the type without its
/// parameters, and nothing else of it changes.
pub proof fn a_content_type_brings_its_essence(info: StreamInfoView, content_type: Seq<char>)
    ensures
        info.typed(content_type).content_type == Some(content_type),
        info.typed(content_type).mimetype is Some,
        without_parameters(content_type, info.typed(content_type).mimetype->0),
        info.typed(content_type).filename == info.filename,
        info.typed(content_type).extension == info.extension,
        info.typed(content_type).charset == info.charset,
        info.typed(content_type).url == info.url,
{
    reveal_strlit(";");
    text_laws::the_start_ends_before_the_set(content_type, ";"@);
    let a = text::before_any(content_type, ";"@);
    let n = a.len() as int;
    assert(";"@.contains(';')) by {
        assert(";"@[0] == ';');
    }
    assert(a =~= content_type.take(n));
    assert forall|i: int| 0 <= i < a.len() implies #[trigger] a[i] != ';' by {}
    if n < content_type.len() {
        let k = choose|k: int| 0 <= k < ";"@.len() && ";"@[k] == content_type[n];
        assert(content_type[n] == ';');
    }
    assert(!content_type.take(n).contains(';'));
}

/// Whether what is known of the bytes holds every hint that the caller gave.
pub open spec fn hinted(args: ConvertArgs, info: StreamInfoView) -> bool {
    &&& args.filename matches Some(f) ==> {
        &&& info.filename == Some(f@)
        &&& follows_last_dot(f@, info.extension)
    }
    &&& args.mimetype matches Some(m) ==> {
        &&& info.content_type == Some(m@)
        &&& info.mimetype is Some
        &&& without_parameters(m@, info.mimetype->0)
    }
    &&& args.charset matches Some(c) ==> info.charset == Some(c@)
}

proof fn lemma_hints(args: ConvertArgs)
    ensures
        hinted(args, source::hints(args)),
        args.filename is None ==> source::hints(args).filename is None && source::hints(
            args,
        ).extension is None,
        args.mimetype is None ==> source::hints(args).mimetype is None && source::hints(
            args,
        ).content_type is None,
        args.charset is None ==> source::hints(args).charset is None,
        source::hints(args).url is None,
{
    let blank = StreamInfoView::blank();
    let named = match args.filename {
        Some(f) => blank.named(f@),
        None => blank,
    };
    if let Some(f) = args.filename {
        a_name_brings_its_extension(blank, f@);
    }
    if let Some(m) = args.mimetype {
        a_content_type_brings_its_essence(named, m@);
    }
}

/// Whatever source a call names, what is acquired keeps every hint that the
/// caller gave, and so does a fetch that is begun. Where the caller gave no
/// name there is none, and a stored resource is known by the URI asked for.
pub proof fn the_callers_hints_are_kept(
    args: ConvertArgs,
    cfg: ProfileConfig,
    before: Seq<Lookup>,
    after: Seq<Lookup>,
    step: StepView,
)
    requires
        source::acquires(args, cfg, before, after, step),
    ensures
        match step {
            StepView::Done(a) => {
                &&& hinted(args, a.info)
                &&& args.filename is None ==> a.info.filename is None && a.info.extension is None
                &&& args.charset is None ==> a.info.charset == if args.text is Some {
                    Some("utf-8"@)
                } else {
                    None
                }
                &&& args.mimetype is None && args.uri is None ==> a.info.mimetype is None
                &&& a.info.url == if after != before {
                    Some(after.last().uri)
                } else {
                    None
                }
            },
            StepView::Wait(f, _) => {
                &&& hinted(args, f.info)
                &&& args.filename is None ==> f.info.filename is None
                &&& args.mimetype is None ==> f.info.mimetype is None
                &&& args.charset is None ==> f.info.charset is None
                &&& args.uri is Some
                &&& f.start == text::trimmed(args.uri->0@)
                &&& f.current == text::trimmed(args.uri->0@)
            },
            StepView::Fail(_) => true,
        },
{
    lemma_hints(args);
    let info = source::hints(args);
    if args.uri is Some && source::sources_named(args) == 1 {
        let uri = text::trimmed(args.uri->0@);
        let rest = uri.skip("data:"@.len() as int);
        if let Some((meta, _)) = text::cut(rest, ","@) {
            let mime = text::trimmed(text::before_any(meta, ";"@));
            if args.mimetype is None && mime.len() > 0 {
                a_content_type_brings_its_essence(info, mime);
            }
        }
        if after != before {
            assert(before.push(after.last()).last() == after.last());
        }
    }
}

/// Text that comes with the call arrives as its UTF-8 bytes, and base64 content
/// as the bytes that it is the base64 text of. Both arrive where the profile
/// accepts inline content and the call names no other source, and base64 that
/// is none is refused.
pub proof fn inline_content_arrives_whole(
    args: ConvertArgs,
    cfg: ProfileConfig,
    before: Seq<Lookup>,
    after: Seq<Lookup>,
    step: StepView,
    bytes: Seq<u8>,
)
    requires
        source::acquires(args, cfg, before, after, step),
        cfg.sources.inline,
        args.uri is None,
    ensures
        after == before,
        args.text is Some && args.content is None ==> {
            &&& step is Done
            &&& step->Done_0.bytes == vstd::utf8::encode_utf8(args.text->0@)
            &&& step->Done_0.mode == "inline"@
        },
        args.text is None && args.content is Some ==> {
            let s = text::trimmed(args.content->0@);
            &&& codec::base64_text(bytes) == s ==> {
                &&& step is Done
                &&& step->Done_0.bytes == bytes
                &&& step->Done_0.mode == "inline"@
            }
            &&& step is Done ==> codec::base64_text(step->Done_0.bytes) == s
            &&& !(step is Done) ==> step == StepView::Fail(
                ErrorView::Transport {
                    message: "`content` is not valid base64: "@ + codec::base64_fault(s),
                },
            )
        },
{
    if args.content is Some {
        let s = text::trimmed(args.content->0@);
        if codec::base64_text(bytes) == s {
            codec::base64_round_trip(bytes);
        }
    }
}

/// A stored resource arrives with the bytes that the store replied with, under
/// the URI that the call names; a store that fails or does not know it is told
/// apart.
pub proof fn a_stored_resource_arrives_as_the_store_has_it(
    args: ConvertArgs,
    cfg: ProfileConfig,
    before: Seq<Lookup>,
    after: Seq<Lookup>,
    step: StepView,
)
    requires
        source::acquires(args, cfg, before, after, step),
        cfg.sources.resource,
        args.text is None,
        args.content is None,
        args.uri is Some,
        "mcpg-resource://"@.is_prefix_of(text::trimmed(args.uri->0@)),
    ensures
        ({
            let uri = text::trimmed(args.uri->0@);
            &&& after.len() == before.len() + 1
            &&& after.last().uri == uri
            &&& match after.last().reply {
                Ok(Some(bytes)) => {
                    &&& step is Done
                    &&& step->Done_0.bytes == bytes
                    &&& step->Done_0.mode == "resource"@
                    &&& step->Done_0.info.url == Some(uri)
                },
                Ok(None) => step == StepView::Fail(
                    ErrorView::Transport {
                        message: uri
                            + " did not resolve — it may have expired or belong to another session"@,
                    },
                ),
                Err(e) => step == StepView::Fail(
                    ErrorView::Transport { message: "content store: "@ + e },
                ),
            }
        }),
{
}

/// A data URI brings its own bytes: what follows the first comma, as it is
/// written, or, where the part before says `base64`, the bytes that it is the
/// base64 text of. Its content type holds where the caller gave none.
pub proof fn a_data_uri_brings_its_own_bytes(
    args: ConvertArgs,
    cfg: ProfileConfig,
    before: Seq<Lookup>,
    after: Seq<Lookup>,
    step: StepView,
    meta: Seq<char>,
    payload: Seq<char>,
    bytes: Seq<u8>,
)
    requires
        source::acquires(args, cfg, before, after, step),
        cfg.sources.inline,
        args.text is None,
        args.content is None,
        args.uri is Some,
        text::trimmed(args.uri->0@) == "data:"@ + meta + ","@ + payload,
        !meta.contains(','),
    ensures
        after == before,
        ({
            let encoded = exists|i: int|
                0 <= i <= meta.len() - 6 && #[trigger] meta.subrange(i, i + 6) == "base64"@;
            &&& !encoded ==> step is Done && step->Done_0.bytes == vstd::utf8::encode_utf8(payload)
            &&& encoded && payload == codec::base64_text(bytes) ==> step is Done
                && step->Done_0.bytes == bytes
            &&& encoded && step is Done ==> codec::base64_text(step->Done_0.bytes) == payload
            &&& step is Done ==> step->Done_0.mode == "inline"@
            &&& !(step is Done) ==> step == StepView::Fail(
                ErrorView::Transport {
                    message: "data: URI payload is not valid base64: "@ + codec::base64_fault(payload),
                },
            )
            &&& step is Done && args.mimetype is None ==> exists|mime: Seq<char>|
                {
                    &&& #[trigger] without_parameters(meta, mime)
                    &&& step->Done_0.info.content_type == if mime.len() == 0 {
                        None
                    } else {
                        Some(mime)
                    }
                }
        }),
{
    reveal_strlit("data:");
    reveal_strlit(",");
    reveal_strlit(";");
    reveal_strlit("base64");
    reveal_strlit("mcpg-resource://");
    let uri = text::trimmed(args.uri->0@);
    let rest = uri.skip(5);
    assert(rest =~= meta + ","@ + payload);
    assert(","@ =~= seq![',']);
    text_laws::a_text_is_cut_at_the_first_character(meta, ',', payload);
    text_laws::a_pattern_is_found_where_it_stands(meta, "base64"@);
    assert("data:"@ =~= uri.take(5));
    assert("data:"@.is_prefix_of(uri));
    assert(uri[0] == 'd');
    assert(!"mcpg-resource://"@.is_prefix_of(uri)) by {
        assert("mcpg-resource://"@[0] == 'm');
        if "mcpg-resource://"@.is_prefix_of(uri) {
            assert(uri.take("mcpg-resource://"@.len() as int)[0] == uri[0]);
        }
    }
    if payload == codec::base64_text(bytes) {
        codec::base64_round_trip(bytes);
    }
    lemma_hints(args);
    let mime = text::trimmed(text::before_any(meta, ";"@));
    a_content_type_brings_its_essence(StreamInfoView::blank(), meta);
    assert(without_parameters(meta, mime));
    a_content_type_brings_its_essence(source::hints(args), mime);
}

/// A data URI without a comma is told to be malformed.
pub proof fn a_data_uri_has_a_comma(
    args: ConvertArgs,
    cfg: ProfileConfig,
    before: Seq<Lookup>,
    after: Seq<Lookup>,
    step: StepView,
    rest: Seq<char>,
)
    requires
        source::acquires(args, cfg, before, after, step),
        cfg.sources.inline,
        args.text is None,
        args.content is None,
        args.uri is Some,
        text::trimmed(args.uri->0@) == "data:"@ + rest,
        !rest.contains(','),
    ensures
        after == before,
        step == StepView::Fail(
            ErrorView::Transport { message: "malformed data: URI (no comma)"@ },
        ),
{
    reveal_strlit("data:");
    reveal_strlit(",");
    let uri = text::trimmed(args.uri->0@);
    assert("data:"@ =~= uri.take(5));
    assert("data:"@.is_prefix_of(uri));
    lemma_schemes_differ(uri);
    assert(uri.skip(5) =~= rest);
    text_laws::a_text_is_cut_at_the_first_occurrence(rest, ","@);
    if let Some((a, b)) = text::cut(rest, ","@) {
        assert(rest[a.len() as int] == ',');
    }
}

/// Each kind of source is accepted exactly where the profile enables it, and
/// refused by its name where it does not.
pub proof fn a_source_that_is_off_is_refused_by_name(
    args: ConvertArgs,
    cfg: ProfileConfig,
    before: Seq<Lookup>,
    after: Seq<Lookup>,
    step: StepView,
)
    requires
        source::acquires(args, cfg, before, after, step),
        source::sources_named(args) == 1,
    ensures
        ({
            let off = |mode: Seq<char>|
                StepView::Fail(
                    ErrorView::Transport {
                        message: "the "@ + text::quoted(mode)
                            + " source is not enabled for this profile"@,
                    },
                );
            let uri = text::trimmed(args.uri->0@);
            let stored = args.uri is Some && "mcpg-resource://"@.is_prefix_of(uri);
            let data = args.uri is Some && "data:"@.is_prefix_of(uri);
            let remote = args.uri is Some && ("http://"@.is_prefix_of(uri)
                || "https://"@.is_prefix_of(uri));
            &&& (args.uri is None || data) && !cfg.sources.inline ==> step == off("inline"@)
            &&& stored && !cfg.sources.resource ==> step == off("resource"@)
            &&& remote && !cfg.sources.url ==> step == off("url"@)
        }),
{
    lemma_schemes_differ(text::trimmed(args.uri->0@));
}

proof fn lemma_schemes_differ(uri: Seq<char>)
    ensures
        "data:"@.is_prefix_of(uri) ==> !"mcpg-resource://"@.is_prefix_of(uri),
        "http://"@.is_prefix_of(uri) || "https://"@.is_prefix_of(uri) ==> {
            &&& !"mcpg-resource://"@.is_prefix_of(uri)
            &&& !"data:"@.is_prefix_of(uri)
        },
{
    reveal_strlit("mcpg-resource://");
    reveal_strlit("data:");
    reveal_strlit("http://");
    reveal_strlit("https://");
    text::lemma_prefix_starts(uri, "mcpg-resource://"@);
    text::lemma_prefix_starts(uri, "data:"@);
    text::lemma_prefix_starts(uri, "http://"@);
    text::lemma_prefix_starts(uri, "https://"@);
}

/// A call that names no source, or more than one, is refused and told so.
pub proof fn a_call_names_one_source(
    args: ConvertArgs,
    cfg: ProfileConfig,
    before: Seq<Lookup>,
    after: Seq<Lookup>,
    step: StepView,
)
    requires
        source::acquires(args, cfg, before, after, step),
    ensures
        args.content is None && args.text is None && args.uri is None ==> after == before && step
            == StepView::Fail(
            ErrorView::Transport { message: "one of `content`, `text` or `uri` is required"@ },
        ),
        (args.content is Some && args.text is Some) || (args.content is Some && args.uri is Some)
            || (args.text is Some && args.uri is Some) ==> after == before && step
            == StepView::Fail(
            ErrorView::Transport { message: "give exactly one of `content`, `text` or `uri`"@ },
        ),
{
}

/// A local path, and a URI of a scheme that nothing serves, is refused; the
/// first with the reason why.
pub proof fn what_nothing_serves_is_refused(
    args: ConvertArgs,
    cfg: ProfileConfig,
    before: Seq<Lookup>,
    after: Seq<Lookup>,
    step: StepView,
)
    requires
        source::acquires(args, cfg, before, after, step),
        args.content is None,
        args.text is None,
        args.uri is Some,
    ensures
        ({
            let uri = text::trimmed(args.uri->0@);
            let local = "file:"@.is_prefix_of(uri) || "/"@.is_prefix_of(uri) || "./"@.is_prefix_of(
                uri,
            );
            let served = "mcpg-resource://"@.is_prefix_of(uri) || "data:"@.is_prefix_of(uri)
                || "http://"@.is_prefix_of(uri) || "https://"@.is_prefix_of(uri);
            &&& local || !served ==> step is Fail && after == before
            &&& !local && !served ==> step->Fail_0 == (ErrorView::Transport {
                message: "unsupported uri scheme in "@ + text::quoted(uri)
                    + " — expected mcpg-resource://, data:, \
         or https:// (when the profile enables the url source)"@,
            })
            &&& local ==> step->Fail_0 == (ErrorView::Transport {
                message: "local filesystem paths are not supported and will not be: fetch the file \
             through a backend that has audited access to it (sftp, smb, s3) and pass \
             the resulting mcpg-resource:// URI"@,
            })
        }),
{
    let uri = text::trimmed(args.uri->0@);
    if source::is_local(uri) {
        source::local_paths_are_always_refused(uri, cfg, source::hints(args));
    }
}

/// A URL begins a fetch of it where the profile enables that, with every hint
/// that the caller gave, and without a word to the content store.
pub proof fn a_url_begins_a_fetch(
    args: ConvertArgs,
    cfg: ProfileConfig,
    before: Seq<Lookup>,
    after: Seq<Lookup>,
    step: StepView,
)
    requires
        source::acquires(args, cfg, before, after, step),
        cfg.sources.url,
        args.content is None,
        args.text is None,
        args.uri is Some,
        "http://"@.is_prefix_of(text::trimmed(args.uri->0@)) || "https://"@.is_prefix_of(
            text::trimmed(args.uri->0@),
        ),
    ensures
        after == before,
        exists|info: StreamInfoView|
            {
                &&& hinted(args, info)
                &&& args.filename is None ==> info.filename is None
                &&& args.mimetype is None ==> info.mimetype is None
                &&& args.charset is None ==> info.charset is None
                &&& step == #[trigger] fetch::begun(text::trimmed(args.uri->0@), cfg, info)
            },
{
    lemma_schemes_differ(text::trimmed(args.uri->0@));
    lemma_hints(args);
    assert(step == fetch::begun(text::trimmed(args.uri->0@), cfg, source::hints(args)));
}

} // verus!
