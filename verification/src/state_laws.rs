//! Which profiles register, which are found, and what is told of the others.

use vstd::prelude::*;

use crate::backend_entity;
use crate::backend_entity::BindingSpec;
use crate::config::{ImageEnrichment, ProfileConfig};
use crate::error;
use crate::error::ErrorView;
use crate::state;
use crate::text;

verus! {

/// The reasons for which a profile is refused, in the order in which they are
/// looked for: each with whether it holds, and what it is told as.
pub open spec fn reasons(config: ProfileConfig) -> Seq<(bool, Seq<char>)> {
    let limits = config.convert.limits;
    let enrich = config.llm.enrich;
    let off = enrich.images is Off && enrich.audio is Off && enrich.pdf is Off;
    seq![
        (
            !(config.sources.inline || config.sources.resource || config.sources.url),
            "every source is disabled, so the profile can never convert anything"@,
        ),
        (
            limits.max_input_bytes == 0,
            "limits."@ + "max_input_bytes"@ + " must be greater than zero"@,
        ),
        (
            limits.max_output_bytes == 0,
            "limits."@ + "max_output_bytes"@ + " must be greater than zero"@,
        ),
        (
            limits.max_expanded_bytes == 0,
            "limits."@ + "max_expanded_bytes"@ + " must be greater than zero"@,
        ),
        (limits.timeout_ms == 0, "limits."@ + "timeout_ms"@ + " must be greater than zero"@),
        (
            limits.max_input_bytes > limits.max_expanded_bytes,
            "limits.max_expanded_bytes ("@ + text::decimal(limits.max_expanded_bytes as nat)
                + ") is below max_input_bytes ("@ + text::decimal(limits.max_input_bytes as nat)
                + "); an archive can never expand to less than itself"@,
        ),
        (
            limits.max_depth == 0,
            "limits.max_depth must be at least 1 (0 would refuse every archive)"@,
        ),
        (
            !off && config.llm.binding is None,
            "llm.enrich is set but llm.binding names no LLM binding, so enrichment \
             would silently never run"@,
        ),
        (
            off && config.llm.binding is Some,
            "llm.binding is set but llm.enrich is off, so the binding would never be \
             called; set llm.enrich.images or llm.enrich.audio, or drop llm.binding"@,
        ),
        (
            !off && config.llm.max_calls_per_document == 0,
            "llm.max_calls_per_document is 0, which disables the enrichment it enables"@,
        ),
    ]
}

/// A profile is refused for the first reason that holds, and accepted where
/// none does; where its engine cannot be built it is refused with the engine's
/// words. What is told names the profile.
pub proof fn a_profile_is_refused_for_the_first_reason<G>(
    name: Seq<char>,
    config: ProfileConfig,
    engine: Result<G, String>,
    i: int,
)
    requires
        0 <= i <= reasons(config).len(),
        forall|k: int| 0 <= k < i ==> !(#[trigger] reasons(config)[k]).0,
        i < reasons(config).len() ==> reasons(config)[i].0,
    ensures
        ({
            let refused = |message: Seq<char>|
                state::refusal_of(name, config, engine) == Some(
                    ErrorView::InvalidSpec {
                        message: "markdown profile "@ + text::quoted(name) + ": "@ + message,
                    },
                );
            if i < reasons(config).len() {
                refused(reasons(config)[i].1)
            } else {
                match engine {
                    Err(e) => refused(e@),
                    Ok(_) => state::refusal_of(name, config, engine) is None,
                }
            }
        }),
{
    let r = reasons(config);
    assert(r.len() == 10);
    assert(i > 0 ==> !r[0].0);
    assert(i > 1 ==> !r[1].0);
    assert(i > 2 ==> !r[2].0);
    assert(i > 3 ==> !r[3].0);
    assert(i > 4 ==> !r[4].0);
    assert(i > 5 ==> !r[5].0);
    assert(i > 6 ==> !r[6].0);
    assert(i > 7 ==> !r[7].0);
    assert(i > 8 ==> !r[8].0);
    assert(i > 9 ==> !r[9].0);
}

/// One text stands before another exactly where it is a start of it, or is
/// smaller in the first character in which they differ.
pub proof fn names_are_ordered_by_their_first_difference(a: Seq<char>, b: Seq<char>)
    ensures
        state::precedes(a, b) <==> exists|n: int|
            {
                &&& 0 <= n <= a.len()
                &&& n < b.len()
                &&& #[trigger] a.take(n) == b.take(n)
                &&& n < a.len() ==> a[n] < b[n]
            },
    decreases a.len(),
{
    if b.len() > 0 {
        if a.len() == 0 {
            assert(a.take(0) =~= b.take(0));
        } else {
            let (a1, b1) = (a.skip(1), b.skip(1));
            names_are_ordered_by_their_first_difference(a1, b1);
            if a[0] < b[0] {
                assert(a.take(0) =~= b.take(0));
            }
            if a[0] == b[0] && state::precedes(a1, b1) {
                let n = choose|n: int|
                    {
                        &&& 0 <= n <= a1.len()
                        &&& n < b1.len()
                        &&& #[trigger] a1.take(n) == b1.take(n)
                        &&& n < a1.len() ==> a1[n] < b1[n]
                    };
                assert(a.take(n + 1) =~= seq![a[0]] + a1.take(n));
                assert(b.take(n + 1) =~= seq![b[0]] + b1.take(n));
                assert(a.take(n + 1) == b.take(n + 1));
            }
            if exists|n: int|
                {
                    &&& 0 <= n <= a.len()
                    &&& n < b.len()
                    &&& #[trigger] a.take(n) == b.take(n)
                    &&& n < a.len() ==> a[n] < b[n]
                } {
                let n = choose|n: int|
                    {
                        &&& 0 <= n <= a.len()
                        &&& n < b.len()
                        &&& #[trigger] a.take(n) == b.take(n)
                        &&& n < a.len() ==> a[n] < b[n]
                    };
                if n > 0 {
                    assert(a.take(n)[0] == b.take(n)[0]);
                    assert(a1.take(n - 1) =~= a.take(n).skip(1));
                    assert(b1.take(n - 1) =~= b.take(n).skip(1));
                    assert(n < a.len() ==> a1[n - 1] < b1[n - 1]);
                }
            }
        }
    }
}

/// Whoever asks for a profile that is not registered is told which ones are, in
/// order.
pub proof fn an_unknown_profile_is_told_with_the_others(name: Seq<char>, names: Seq<Seq<char>>)
    ensures
        state::unknown_profile(name, names) == (ErrorView::ProfileNotFound {
            backend_name: name + " (registered markdown profiles: "@ + text::joined(names, ", "@)
                + ")"@,
        }),
{
}

/// A binding leads to the profile that it was given, and one that was given
/// none leads to the profile of its own name.
pub proof fn a_binding_leads_to_its_profile(
    bindings: Map<Seq<char>, Seq<char>>,
    binding: Seq<char>,
    name: Seq<char>,
    other: Seq<char>,
)
    requires
        other != binding,
    ensures
        backend_entity::target_of(bindings.insert(binding, name), binding) == name,
        backend_entity::target_of(bindings.insert(binding, name), other)
            == backend_entity::target_of(bindings, other),
        backend_entity::target_of(bindings.remove(binding), binding) == binding,
{
}

/// A binding that names a profile is never refused; one that defines its own is
/// refused as that profile is, under the name of the binding.
pub proof fn a_binding_is_refused_as_its_profile_is<G>(
    binding: Seq<char>,
    spec: BindingSpec<G>,
)
    ensures
        match spec {
            BindingSpec::Named(_) => backend_entity::binding_refusal(binding, spec) is None,
            BindingSpec::Inline(Err(e)) => backend_entity::binding_refusal(binding, spec) == Some(
                ErrorView::InvalidSpec {
                    message: "markdown profile "@ + text::quoted(binding) + ": "@ + e@,
                },
            ),
            BindingSpec::Inline(Ok(c)) => backend_entity::binding_refusal(binding, spec)
                == state::refusal_of(binding, c.config, c.engine),
        },
{
}

/// Images are described where the profile asks for captions, read where it asks
/// for their text, and both where it asks for both.
pub proof fn each_mode_asks_for_its_own(images: ImageEnrichment)
    ensures
        match images {
            ImageEnrichment::Off => !images.captions() && !images.reads(),
            ImageEnrichment::Caption => images.captions() && !images.reads(),
            ImageEnrichment::Ocr => !images.captions() && images.reads(),
            ImageEnrichment::CaptionAndOcr => images.captions() && images.reads(),
        },
{
}

/// An error is described by its kind and by what it says.
pub proof fn an_error_is_described_by_what_it_says(said: Seq<char>, timeout_ms: u64)
    ensures
        error::described(ErrorView::InvalidSpec { message: said }) == "InvalidSpec { message: "@
            + text::quoted(said) + " }"@,
        error::described(ErrorView::Transport { message: said }) == "Transport { message: "@
            + text::quoted(said) + " }"@,
        error::described(ErrorView::Timeout { timeout_ms }) == "Timeout { timeout_ms: "@
            + text::decimal(timeout_ms as nat) + " }"@,
        error::described(ErrorView::ProfileNotFound { backend_name: said })
            == "ProfileNotFound { backend_name: "@ + text::quoted(said) + " }"@,
{
}

} // verus!
