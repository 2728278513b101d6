//! State shared by the two entities.
//!
//! Both entities read one registry of profiles, so a tool call and a pipeline
//! step cannot render the same document differently.

use vstd::prelude::*;

use crate::config::{Profile, ProfileConfig};
use crate::error::{BackendError, ErrorView};
use crate::text;

verus! {

/// The order of texts: by the first character in which they differ.
pub open spec fn precedes(a: Seq<char>, b: Seq<char>) -> bool
    decreases a.len(),
{
    if b.len() == 0 {
        false
    } else if a.len() == 0 {
        true
    } else {
        a[0] < b[0] || (a[0] == b[0] && precedes(a.skip(1), b.skip(1)))
    }
}

/// Texts in order, none of them twice.
pub open spec fn ascending(names: Seq<Seq<char>>) -> bool {
    forall|i: int, j: int|
        0 <= i < j < names.len() ==> precedes(#[trigger] names[i], #[trigger] names[j])
}

/// Whether `names` are the names that `profiles` knows, in order.
pub open spec fn lists<G>(names: Seq<Seq<char>>, profiles: Map<Seq<char>, Profile<G>>) -> bool {
    &&& ascending(names)
    &&& forall|name: Seq<char>| #[trigger]
        names.contains(name) <==> profiles.contains_key(name)
}

proof fn lemma_irreflexive(a: Seq<char>)
    ensures
        !precedes(a, a),
    decreases a.len(),
{
    if a.len() > 0 {
        lemma_irreflexive(a.skip(1));
    }
}

proof fn lemma_transitive(a: Seq<char>, b: Seq<char>, c: Seq<char>)
    requires
        precedes(a, b),
        precedes(b, c),
    ensures
        precedes(a, c),
    decreases a.len(),
{
    if a.len() > 0 && a[0] == b[0] && b[0] == c[0] {
        lemma_transitive(a.skip(1), b.skip(1), c.skip(1));
    }
}

proof fn lemma_total(a: Seq<char>, b: Seq<char>)
    ensures
        a == b || precedes(a, b) || precedes(b, a),
    decreases a.len(),
{
    if a.len() == 0 && b.len() == 0 {
        assert(a =~= b);
    } else if a.len() > 0 && b.len() > 0 && a[0] == b[0] {
        lemma_total(a.skip(1), b.skip(1));
        if a.skip(1) == b.skip(1) {
            assert(a =~= seq![a[0]] + a.skip(1));
            assert(b =~= seq![b[0]] + b.skip(1));
        }
    }
}

fn comes_before(a: &str, b: &str) -> (r: bool)
    ensures
        r == precedes(a@, b@),
{
    let v = text::chars_of(a);
    let w = text::chars_of(b);
    let mut i: usize = 0;
    assert(v@.skip(0) =~= a@ && w@.skip(0) =~= b@);
    while i < v.len() && i < w.len()
        invariant
            v@ == a@,
            w@ == b@,
            i <= v@.len(),
            i <= w@.len(),
            precedes(a@, b@) == precedes(v@.skip(i as int), w@.skip(i as int)),
        decreases v@.len() - i,
    {
        if v[i] < w[i] {
            return true;
        }
        if v[i] > w[i] {
            return false;
        }
        assert(v@.skip(i as int).skip(1) =~= v@.skip(i + 1));
        assert(w@.skip(i as int).skip(1) =~= w@.skip(i + 1));
        i = i + 1;
    }
    i < w.len()
}

/// The registered profiles. What an engine is, is the caller's business.
pub struct MarkdownState<G> {
    /// In order of name.
    profiles: Vec<Profile<G>>,
}

/// The names of a list of profiles.
pub open spec fn names_of<G>(profiles: Seq<Profile<G>>) -> Seq<Seq<char>> {
    profiles.map_values(|p: Profile<G>| p.name@)
}

/// The profile under each name.
pub open spec fn by_name<G>(profiles: Seq<Profile<G>>) -> Map<Seq<char>, Profile<G>>
    decreases profiles.len(),
{
    if profiles.len() == 0 {
        Map::empty()
    } else {
        by_name(profiles.drop_last()).insert(profiles.last().name@, profiles.last())
    }
}

proof fn lemma_by_name<G>(profiles: Seq<Profile<G>>)
    requires
        ascending(names_of(profiles)),
    ensures
        lists(names_of(profiles), by_name(profiles)),
        forall|i: int|
            0 <= i < profiles.len() ==> by_name(profiles)[(#[trigger] profiles[i]).name@]
                == profiles[i],
    decreases profiles.len(),
{
    let names = names_of(profiles);
    if profiles.len() > 0 {
        let rest = profiles.drop_last();
        assert(names_of(rest) =~= names.drop_last());
        assert(ascending(names_of(rest)));
        lemma_by_name(rest);
        let last = profiles.last();
        assert(names.last() == last.name@);
        assert forall|name: Seq<char>| #[trigger] names.contains(name) implies by_name(
            profiles,
        ).contains_key(name) by {
            let i = choose|i: int| 0 <= i < names.len() && names[i] == name;
            if i < names.len() - 1 {
                assert(names_of(rest)[i] == name);
                assert(names_of(rest).contains(name));
            }
        }
        assert forall|name: Seq<char>| #[trigger] by_name(profiles).contains_key(
            name,
        ) implies names.contains(name) by {
            if name == last.name@ {
                assert(names[names.len() - 1] == name);
            } else {
                assert(names_of(rest).contains(name));
                let i = choose|i: int| 0 <= i < names_of(rest).len() && names_of(rest)[i] == name;
                assert(names[i] == name);
            }
        }
        assert forall|i: int| 0 <= i < profiles.len() implies by_name(
            profiles,
        )[(#[trigger] profiles[i]).name@] == profiles[i] by {
            if i < profiles.len() - 1 {
                assert(rest[i] == profiles[i]);
                assert(precedes(names[i], names[names.len() - 1]));
                lemma_irreflexive(names[i]);
            }
        }
    } else {
        assert(!names.contains(Seq::empty()));
    }
}

proof fn lemma_inserted<G>(profiles: Seq<Profile<G>>, i: int, p: Profile<G>)
    requires
        ascending(names_of(profiles)),
        0 <= i <= profiles.len(),
        forall|j: int| 0 <= j < i ==> precedes((#[trigger] profiles[j]).name@, p.name@),
        forall|j: int| i <= j < profiles.len() ==> precedes(p.name@, (#[trigger] profiles[j]).name@),
    ensures
        ascending(names_of(profiles.insert(i, p))),
        by_name(profiles.insert(i, p)) == by_name(profiles).insert(p.name@, p),
{
    let after = profiles.insert(i, p);
    let names = names_of(profiles);
    let names1 = names_of(after);
    assert(names1 =~= names.insert(i, p.name@));
    assert forall|a: int, b: int| 0 <= a < b < names1.len() implies precedes(
        #[trigger] names1[a],
        #[trigger] names1[b],
    ) by {
        let a0 = if a < i {
            a
        } else {
            a - 1
        };
        let b0 = if b < i {
            b
        } else {
            b - 1
        };
        if a != i && b != i {
            assert(precedes(names[a0], names[b0]));
        } else if a == i {
            assert(names1[b] == profiles[b0].name@);
        } else {
            assert(names1[a] == profiles[a0].name@);
        }
    }
    lemma_by_name(profiles);
    lemma_by_name(after);
    let want = by_name(profiles).insert(p.name@, p);
    assert forall|name: Seq<char>| #[trigger] by_name(after).contains_key(
        name,
    ) <==> want.contains_key(name) by {
        if names1.contains(name) {
            let k = choose|k: int| 0 <= k < names1.len() && names1[k] == name;
            if k < i {
                assert(names[k] == name);
            } else if k > i {
                assert(names[k - 1] == name);
            }
        }
        if names.contains(name) {
            let k = choose|k: int| 0 <= k < names.len() && names[k] == name;
            if k < i {
                assert(names1[k] == name);
            } else {
                assert(names1[k + 1] == name);
            }
        }
        assert(names1[i] == p.name@);
    }
    assert forall|name: Seq<char>| #[trigger] want.contains_key(name) implies by_name(after)[name]
        == want[name] by {
        assert(after[i] == p);
        if name != p.name@ {
            assert(names.contains(name));
            let k = choose|k: int| 0 <= k < names.len() && names[k] == name;
            assert(profiles[k].name@ == name);
            if k < i {
                assert(after[k] == profiles[k]);
            } else {
                assert(after[k + 1] == profiles[k]);
            }
        }
    }
    assert(by_name(after) =~= want);
}

proof fn lemma_replaced<G>(profiles: Seq<Profile<G>>, i: int, p: Profile<G>)
    requires
        ascending(names_of(profiles)),
        0 <= i < profiles.len(),
        profiles[i].name@ == p.name@,
    ensures
        ascending(names_of(profiles.update(i, p))),
        by_name(profiles.update(i, p)) == by_name(profiles).insert(p.name@, p),
{
    let after = profiles.update(i, p);
    let names = names_of(profiles);
    assert(names_of(after) =~= names);
    lemma_by_name(profiles);
    lemma_by_name(after);
    let want = by_name(profiles).insert(p.name@, p);
    assert(names[i] == p.name@);
    assert(names.contains(p.name@));
    assert forall|name: Seq<char>| #[trigger] want.contains_key(name) implies by_name(after)[name]
        == want[name] by {
        assert(names.contains(name));
        let k = choose|k: int| 0 <= k < names.len() && names[k] == name;
        assert(profiles[k].name@ == name);
        assert(after[k].name@ == name);
        if k != i {
            assert(after[k] == profiles[k]);
            if name == p.name@ {
                lemma_irreflexive(name);
                assert(precedes(names[i], names[k]) || precedes(names[k], names[i]));
            }
        } else {
            assert(after[i] == p);
        }
    }
    assert forall|name: Seq<char>| #[trigger] by_name(after).contains_key(
        name,
    ) <==> want.contains_key(name) by {
        assert(names.contains(name) <==> by_name(profiles).contains_key(name));
        assert(names.contains(name) <==> by_name(after).contains_key(name));
    }
    assert(by_name(after) =~= want);
}

/// The number of the profiles whose names come before `name`.
fn place_for<G>(profiles: &Vec<Profile<G>>, name: &str) -> (i: usize)
    requires
        ascending(names_of(profiles@)),
    ensures
        i <= profiles@.len(),
        forall|j: int| 0 <= j < i ==> precedes((#[trigger] profiles@[j]).name@, name@),
        forall|j: int|
            i <= j < profiles@.len() ==> (#[trigger] profiles@[j]).name@ == name@ || precedes(
                name@,
                profiles@[j].name@,
            ),
        forall|j: int| i < j < profiles@.len() ==> (#[trigger] profiles@[j]).name@ != name@,
{
    let ghost names = names_of(profiles@);
    let mut i: usize = 0;
    while i < profiles.len() && comes_before(profiles[i].name.as_str(), name)
        invariant
            i <= profiles@.len(),
            forall|j: int| 0 <= j < i ==> precedes((#[trigger] profiles@[j]).name@, name@),
        decreases profiles@.len() - i,
    {
        i = i + 1;
    }
    proof {
        if i < profiles@.len() {
            let here = profiles@[i as int].name@;
            lemma_total(here, name@);
            assert forall|j: int| i <= j < profiles@.len() implies (#[trigger] profiles@[j]).name@
                == name@ || precedes(name@, profiles@[j].name@) by {
                if j > i {
                    assert(precedes(names[i as int], names[j]));
                    if here != name@ {
                        lemma_transitive(name@, here, profiles@[j].name@);
                    }
                }
            }
            assert forall|j: int| i < j < profiles@.len() implies (#[trigger] profiles@[j]).name@
                != name@ by {
                assert(precedes(names[i as int], names[j]));
                lemma_irreflexive(name@);
                if here != name@ && profiles@[j].name@ == name@ {
                    lemma_transitive(name@, here, name@);
                }
            }
        }
    }
    i
}

impl<G> MarkdownState<G> {
    /// The profile under each name.
    pub closed spec fn view(&self) -> Map<Seq<char>, Profile<G>> {
        by_name(self.profiles@)
    }

    /// The names, in order.
    pub closed spec fn names(&self) -> Seq<Seq<char>> {
        names_of(self.profiles@)
    }

    #[verifier::type_invariant]
    spec fn in_order(self) -> bool {
        ascending(names_of(self.profiles@))
    }

    pub fn new() -> (r: Self)
        ensures
            r@ == Map::<Seq<char>, Profile<G>>::empty(),
            r.names() == Seq::<Seq<char>>::empty(),
    {
        let profiles: Vec<Profile<G>> = Vec::new();
        assert(names_of(profiles@) =~= Seq::empty());
        MarkdownState { profiles }
    }

    fn install(&mut self, profile: Profile<G>)
        ensures
            final(self)@ == old(self)@.insert(profile.name@, profile),
            lists(final(self).names(), final(self)@),
    {
        proof {
            use_type_invariant(&*self);
        }
        let i: usize = place_for(&self.profiles, profile.name.as_str());
        let mut profiles: Vec<Profile<G>> = Vec::new();
        assert(names_of(profiles@) =~= Seq::empty());
        std::mem::swap(&mut profiles, &mut self.profiles);
        let ghost before = profiles@;
        if i < profiles.len() && text::same(profiles[i].name.as_str(), profile.name.as_str()) {
            proof {
                lemma_replaced(before, i as int, profile);
            }
            profiles[i] = profile;
        } else {
            proof {
                lemma_inserted(before, i as int, profile);
            }
            profiles.insert(i, profile);
        }
        proof {
            lemma_by_name(profiles@);
        }
        self.profiles = profiles;
    }

    /// The names of the registered profiles, in order.
    pub fn profile_names(&self) -> (r: Vec<String>)
        ensures
            text::texts_of(r@) == self.names(),
            lists(self.names(), self@),
    {
        proof {
            use_type_invariant(self);
            lemma_by_name(self.profiles@);
        }
        let mut names: Vec<String> = Vec::new();
        let mut i: usize = 0;
        assert(text::texts_of(names@) =~= self.names().take(0));
        while i < self.profiles.len()
            invariant
                i <= self.profiles@.len(),
                text::texts_of(names@) == self.names().take(i as int),
            decreases self.profiles@.len() - i,
        {
            names.push(self.profiles[i].name.clone());
            assert(text::texts_of(names@) =~= self.names().take(i as int).push(
                self.names()[i as int],
            ));
            i = i + 1;
            assert(text::texts_of(names@) =~= self.names().take(i as int));
        }
        assert(self.names().take(i as int) =~= self.names());
        names
    }

    pub fn profile(&self, name: &str) -> (r: Result<&Profile<G>, BackendError>)
        ensures
            match r {
                Ok(p) => self@.contains_key(name@) && *p == self@[name@] && p.name@ == name@,
                Err(e) => !self@.contains_key(name@) && e@ == unknown_profile(
                    name@,
                    self.names(),
                ),
            },
    {
        proof {
            use_type_invariant(self);
            lemma_by_name(self.profiles@);
        }
        let i: usize = place_for(&self.profiles, name);
        if i < self.profiles.len() && text::same(self.profiles[i].name.as_str(), name) {
            assert(names_of(self.profiles@)[i as int] == name@);
            assert(names_of(self.profiles@).contains(name@));
            return Ok(&self.profiles[i]);
        }
        proof {
            if self@.contains_key(name@) {
                let names = names_of(self.profiles@);
                assert(names.contains(name@));
                let k = choose|k: int| 0 <= k < names.len() && names[k] == name@;
                assert(self.profiles@[k].name@ == name@);
                lemma_irreflexive(name@);
            }
        }
        let names = self.profile_names();
        let mut backend_name = text::concat3(
            name,
            " (registered markdown profiles: ",
            text::join(&names, ", ").as_str(),
        );
        backend_name.append(")");
        Err(BackendError::ProfileNotFound { backend_name })
    }

    /// The profile a transform step should use when it names none. A single
    /// registered profile is unambiguous; more than one is not, and guessing
    /// would silently apply the wrong template.
    pub fn sole_profile(&self) -> (r: Option<&Profile<G>>)
        ensures
            r is Some <==> self.names().len() == 1,
            lists(self.names(), self@),
            r matches Some(p) ==> self@.contains_key(self.names()[0]) && *p
                == self@[self.names()[0]],
    {
        proof {
            use_type_invariant(self);
            lemma_by_name(self.profiles@);
        }
        if self.profiles.len() == 1 {
            assert(self.names()[0] == self.profiles@[0].name@);
            assert(self.names().contains(self.names()[0]));
            Some(&self.profiles[0])
        } else {
            None
        }
    }
}

/// What the caller of an unregistered profile is told: the ones that exist.
pub open spec fn unknown_profile(name: Seq<char>, names: Seq<Seq<char>>) -> ErrorView {
    ErrorView::ProfileNotFound {
        backend_name: name + " (registered markdown profiles: "@ + text::joined(names, ", "@)
            + ")"@,
    }
}

impl<G> Default for MarkdownState<G> {
    fn default() -> (r: Self)
        ensures
            r@ == Map::<Seq<char>, Profile<G>>::empty(),
            r.names() == Seq::<Seq<char>>::empty(),
    {
        MarkdownState::new()
    }
}

/// What the author of an unusable profile is told.
pub open spec fn rejected(name: Seq<char>, message: Seq<char>) -> ErrorView {
    ErrorView::InvalidSpec {
        message: "markdown profile "@ + text::quoted(name) + ": "@ + message,
    }
}

/// A profile cannot be used, for the reason given.
pub fn invalid_spec(name: &str, message: &str) -> (r: BackendError)
    ensures
        r@ == rejected(name@, message@),
{
    let mut text = text::concat3("markdown profile ", text::debug_text(name).as_str(), ": ");
    text.append(message);
    BackendError::InvalidSpec { message: text }
}

/// What is said of a limit that is zero.
pub open spec fn zero_limit(label: Seq<char>) -> Seq<char> {
    "limits."@ + label + " must be greater than zero"@
}

/// What is wrong with a profile, if anything is: the first objection.
pub open spec fn fault_of(config: ProfileConfig) -> Option<Seq<char>> {
    let limits = config.convert.limits;
    let wants_enrichment = config.llm.enrich.wanted();
    if !config.sources.inline && !config.sources.resource && !config.sources.url {
        Some("every source is disabled, so the profile can never convert anything"@)
    } else if limits.max_input_bytes == 0 {
        Some(zero_limit("max_input_bytes"@))
    } else if limits.max_output_bytes == 0 {
        Some(zero_limit("max_output_bytes"@))
    } else if limits.max_expanded_bytes == 0 {
        Some(zero_limit("max_expanded_bytes"@))
    } else if limits.timeout_ms == 0 {
        Some(zero_limit("timeout_ms"@))
    } else if limits.max_expanded_bytes < limits.max_input_bytes {
        Some(
            "limits.max_expanded_bytes ("@ + text::decimal(limits.max_expanded_bytes as nat)
                + ") is below max_input_bytes ("@ + text::decimal(limits.max_input_bytes as nat)
                + "); an archive can never expand to less than itself"@,
        )
    } else if limits.max_depth == 0 {
        Some("limits.max_depth must be at least 1 (0 would refuse every archive)"@)
    } else if wants_enrichment && config.llm.binding is None {
        Some(
            "llm.enrich is set but llm.binding names no LLM binding, so enrichment \
             would silently never run"@,
        )
    } else if config.llm.binding is Some && !wants_enrichment {
        Some(
            "llm.binding is set but llm.enrich is off, so the binding would never be \
             called; set llm.enrich.images or llm.enrich.audio, or drop llm.binding"@,
        )
    } else if wants_enrichment && config.llm.max_calls_per_document == 0 {
        Some("llm.max_calls_per_document is 0, which disables the enrichment it enables"@)
    } else {
        None
    }
}

fn nonzero(name: &str, label: &str, value: u64) -> (r: Result<(), BackendError>)
    ensures
        r is Ok <==> value != 0,
        r matches Err(e) ==> e@ == rejected(name@, zero_limit(label@)),
{
    if value == 0 {
        let message = text::concat3("limits.", label, " must be greater than zero");
        return Err(invalid_spec(name, message.as_str()));
    }
    Ok(())
}

/// Checks across fields.
pub fn validate(name: &str, config: &ProfileConfig) -> (r: Result<(), BackendError>)
    ensures
        match fault_of(*config) {
            Some(message) => r is Err && r->Err_0@ == rejected(name@, message),
            None => r is Ok,
        },
{
    if !config.sources.inline && !config.sources.resource && !config.sources.url {
        return Err(
            invalid_spec(
                name,
                "every source is disabled, so the profile can never convert anything",
            ),
        );
    }
    let limits = &config.convert.limits;
    nonzero(name, "max_input_bytes", limits.max_input_bytes)?;
    nonzero(name, "max_output_bytes", limits.max_output_bytes)?;
    nonzero(name, "max_expanded_bytes", limits.max_expanded_bytes)?;
    nonzero(name, "timeout_ms", limits.timeout_ms)?;
    if limits.max_expanded_bytes < limits.max_input_bytes {
        let message = text::concat5(
            "limits.max_expanded_bytes (",
            text::decimal_text(limits.max_expanded_bytes).as_str(),
            ") is below max_input_bytes (",
            text::decimal_text(limits.max_input_bytes).as_str(),
            "); an archive can never expand to less than itself",
        );
        return Err(invalid_spec(name, message.as_str()));
    }
    if limits.max_depth == 0 {
        return Err(
            invalid_spec(
                name,
                "limits.max_depth must be at least 1 (0 would refuse every archive)",
            ),
        );
    }
    // Enrichment without a binding is the operator's most likely mistake, and
    // silently doing nothing is the worst possible response to it.
    let wants_enrichment = config.llm.enrich.images.is_on() || config.llm.enrich.audio.is_on()
        || config.llm.enrich.pdf.is_on();
    if wants_enrichment && config.llm.binding.is_none() {
        return Err(
            invalid_spec(
                name,
                "llm.enrich is set but llm.binding names no LLM binding, so enrichment \
             would silently never run",
            ),
        );
    }
    if config.llm.binding.is_some() && !wants_enrichment {
        return Err(
            invalid_spec(
                name,
                "llm.binding is set but llm.enrich is off, so the binding would never be \
             called; set llm.enrich.images or llm.enrich.audio, or drop llm.binding",
            ),
        );
    }
    if wants_enrichment && config.llm.max_calls_per_document == 0 {
        return Err(
            invalid_spec(
                name,
                "llm.max_calls_per_document is 0, which disables the enrichment it enables",
            ),
        );
    }
    Ok(())
}

/// What registration refuses a profile with, if it does.
pub open spec fn refusal_of<G>(
    name: Seq<char>,
    config: ProfileConfig,
    engine: Result<G, String>,
) -> Option<ErrorView> {
    match (fault_of(config), engine) {
        (Some(message), _) => Some(rejected(name, message)),
        (None, Err(e)) => Some(rejected(name, e@)),
        (None, Ok(_)) => None,
    }
}

impl<G> MarkdownState<G> {
    /// Validate a profile and keep it with its compiled engine.
    ///
    /// Everything that can fail does so here, at boot: an operator hears about
    /// a broken profile at startup rather than on the first call that needs
    /// it. `engine` is what came of compiling the profile's templates and
    /// formats.
    pub fn register(
        &mut self,
        name: &str,
        config: ProfileConfig,
        engine: Result<G, String>,
    ) -> (r: Result<(), BackendError>)
        ensures
            match refusal_of(name@, config, engine) {
                Some(e) => r is Err && r->Err_0@ == e && final(self)@ == old(self)@
                    && final(self).names() == old(self).names(),
                None => {
                    &&& r is Ok
                    &&& final(self)@.contains_key(name@)
                    &&& final(self)@[name@].name@ == name@
                    &&& final(self)@[name@].config == config
                    &&& engine == Ok::<G, String>(final(self)@[name@].engine)
                    &&& final(self)@ == registered(old(self)@, name@, final(self)@[name@])
                    &&& lists(final(self).names(), final(self)@)
                },
            },
    {
        validate(name, &config)?;
        match engine {
            Err(e) => Err(invalid_spec(name, e.as_str())),
            Ok(engine) => {
                self.install(Profile { name: name.to_owned(), engine, config });
                Ok(())
            },
        }
    }
}

/// A profile registers exactly where it can convert something, no ceiling is
/// zero, an archive may expand to its own size, and enrichment is switched on
/// where there is a binding to call, with calls to spend, and nowhere else.
pub proof fn a_profile_is_accepted_iff_it_is_usable(config: ProfileConfig)
    ensures
        fault_of(config) is None <==> {
            &&& config.sources.inline || config.sources.resource || config.sources.url
            &&& 0 < config.convert.limits.max_input_bytes
            &&& config.convert.limits.max_input_bytes <= config.convert.limits.max_expanded_bytes
            &&& 0 < config.convert.limits.max_output_bytes
            &&& 0 < config.convert.limits.timeout_ms
            &&& 0 < config.convert.limits.max_depth
            &&& config.llm.enrich.wanted() <==> config.llm.binding is Some
            &&& config.llm.enrich.wanted() ==> 0 < config.llm.max_calls_per_document
        },
{
}

/// The registry after a registration.
pub open spec fn registered<G>(
    profiles: Map<Seq<char>, Profile<G>>,
    name: Seq<char>,
    profile: Profile<G>,
) -> Map<Seq<char>, Profile<G>> {
    profiles.insert(name, profile)
}

/// A registered profile is retrievable, registering its name again replaces
/// it, and no registration touches another name.
pub proof fn the_latest_registration_counts<G>(
    profiles: Map<Seq<char>, Profile<G>>,
    name: Seq<char>,
    first: Profile<G>,
    second: Profile<G>,
    other: Seq<char>,
)
    requires
        other != name,
    ensures
        ({
            let once = registered(profiles, name, first);
            let twice = registered(once, name, second);
            &&& once.contains_key(name) && once[name] == first
            &&& twice == registered(profiles, name, second)
            &&& once.contains_key(other) == profiles.contains_key(other)
            &&& profiles.contains_key(other) ==> once[other] == profiles[other]
        }),
{
    assert(registered(registered(profiles, name, first), name, second) =~= registered(
        profiles,
        name,
        second,
    ));
}

/// A profile is implied exactly where one is registered and no other.
pub proof fn a_sole_profile_is_the_only_one<G>(
    names: Seq<Seq<char>>,
    profiles: Map<Seq<char>, Profile<G>>,
)
    requires
        lists(names, profiles),
    ensures
        names.len() == 1 <==> exists|name: Seq<char>|
            {
                &&& #[trigger] profiles.contains_key(name)
                &&& forall|n: Seq<char>| #[trigger] profiles.contains_key(n) ==> n == name
            },
{
    if names.len() == 1 {
        assert(names.contains(names[0]));
        assert forall|n: Seq<char>| #[trigger] profiles.contains_key(n) implies n == names[0] by {
            assert(names.contains(n));
        }
    }
    if exists|name: Seq<char>|
        {
            &&& #[trigger] profiles.contains_key(name)
            &&& forall|n: Seq<char>| #[trigger] profiles.contains_key(n) ==> n == name
        } {
        let name = choose|name: Seq<char>|
            {
                &&& #[trigger] profiles.contains_key(name)
                &&& forall|n: Seq<char>| #[trigger] profiles.contains_key(n) ==> n == name
            };
        assert(names.contains(name));
        if names.len() > 1 {
            assert(names.contains(names[0]));
            assert(names.contains(names[1]));
            assert(precedes(names[0], names[1]));
            lemma_irreflexive(name);
        }
    }
}

} // verus!
