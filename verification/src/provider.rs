//! Language providers and the guards of their sessions.
use std::collections::hash_map::DefaultHasher;
use std::hash::{BuildHasher, BuildHasherDefault};
use std::path::Path;

use vstd::prelude::*;

use crate::language;
use crate::language::Language;
use crate::path::PathBuf;
use crate::text;
use crate::text::{cat2, hex_text};

verus! {

/// What a session holds for the duration of one request. Dropping it lets go of
/// whatever the session took.
#[derive(Debug)]
pub struct RequestGuard<R> {
    resource: Option<R>,
}

impl<R> View for RequestGuard<R> {
    type V = Option<R>;

    closed spec fn view(&self) -> Option<R> {
        self.resource
    }
}

impl<R> RequestGuard<R> {
    /// A guard that holds nothing.
    pub fn none() -> (r: Self)
        ensures
            r@ is None,
    {
        RequestGuard { resource: None }
    }

    /// A guard that holds `resource`.
    pub fn holding(resource: R) -> (r: Self)
        ensures
            r@ == Some(resource),
    {
        RequestGuard { resource: Some(resource) }
    }
}

/// The analysis session of one project in one language.
pub trait LanguageSession {
    /// The language that the session serves.
    fn language(&self) -> Language;

    /// The checkout that the session is rooted at, if it has one.
    fn root(&self) -> Option<&PathBuf> {
        None
    }
}

/// A provider: its language, the operations that it contributes, and what makes
/// its sessions.
#[derive(Debug)]
pub struct LanguageProvider<P, O> {
    /// The language that it serves.
    pub language: Language,
    /// The operations that it contributes.
    pub operations: Vec<O>,
    /// What makes its sessions.
    pub sessions: P,
}

/// Whether a list of providers is ordered by language, each standing once.
pub open spec fn ordered_by_language<P, O>(v: Seq<LanguageProvider<P, O>>) -> bool {
    forall|i: int, j: int|
        0 <= i < j < v.len() ==> language::language_rank(v[i].language) < language::language_rank(
            v[j].language,
        )
}

/// The place of a language's provider.
pub open spec fn place_of<P, O>(v: Seq<LanguageProvider<P, O>>, l: Language) -> Option<int> {
    if exists|i: int| 0 <= i < v.len() && (#[trigger] v[i]).language == l {
        Some(choose|i: int| 0 <= i < v.len() && (#[trigger] v[i]).language == l)
    } else {
        None
    }
}

/// The providers of a list, by language.
pub open spec fn provider_map<P, O>(v: Seq<LanguageProvider<P, O>>) -> Map<
    Language,
    LanguageProvider<P, O>,
> {
    Map::new(
        |l: Language| place_of(v, l) is Some,
        |l: Language| v[place_of(v, l).unwrap()],
    )
}

proof fn lemma_provider_map<P, O>(v: Seq<LanguageProvider<P, O>>)
    requires
        ordered_by_language(v),
    ensures
        forall|i: int|
            0 <= i < v.len() ==> provider_map(v).dom().contains((#[trigger] v[i]).language)
                && provider_map(v)[v[i].language] == v[i],
        forall|l: Language| #[trigger]
            provider_map(v).dom().contains(l) ==> exists|i: int|
                0 <= i < v.len() && (#[trigger] v[i]).language == l && provider_map(v)[l] == v[i],
{
    assert forall|i: int| 0 <= i < v.len() implies provider_map(v).dom().contains(
        (#[trigger] v[i]).language,
    ) && provider_map(v)[v[i].language] == v[i] by {
        let k = place_of(v, v[i].language).unwrap();
        assert(v[k].language == v[i].language);
        assert(k == i);
    }
}

proof fn lemma_inserted<P, O>(
    v: Seq<LanguageProvider<P, O>>,
    at: int,
    p: LanguageProvider<P, O>,
)
    requires
        ordered_by_language(v),
        0 <= at <= v.len(),
        forall|i: int|
            0 <= i < at ==> language::language_rank((#[trigger] v[i]).language)
                < language::language_rank(p.language),
        forall|i: int|
            at <= i < v.len() ==> language::language_rank((#[trigger] v[i]).language)
                > language::language_rank(p.language),
    ensures
        ordered_by_language(v.insert(at, p)),
        provider_map(v.insert(at, p)) == provider_map(v).insert(p.language, p),
{
    let w = v.insert(at, p);
    assert forall|i: int, j: int| 0 <= i < j < w.len() implies language::language_rank(
        w[i].language,
    ) < language::language_rank(w[j].language) by {
        let a = if i < at {
            i
        } else {
            i - 1
        };
        let b = if j < at {
            j
        } else {
            j - 1
        };
        if i != at && j != at {
            assert(language::language_rank(v[a].language) < language::language_rank(
                v[b].language,
            ));
        }
    }
    lemma_provider_map(v);
    lemma_provider_map(w);
    let want = provider_map(v).insert(p.language, p);
    assert forall|l: Language| #[trigger] provider_map(w).dom().contains(l) implies want.dom().contains(
        l,
    ) && provider_map(w)[l] == want[l] by {
        let i = choose|i: int|
            0 <= i < w.len() && (#[trigger] w[i]).language == l && provider_map(w)[l] == w[i];
        if i < at {
            assert(v[i] == w[i]);
        } else if i > at {
            assert(v[i - 1] == w[i]);
        }
    }
    assert forall|l: Language| #[trigger] want.dom().contains(l) implies provider_map(
        w,
    ).dom().contains(l) by {
        if l == p.language {
            assert(w[at].language == l);
        } else {
            let i = choose|i: int| 0 <= i < v.len() && (#[trigger] v[i]).language == l;
            if i < at {
                assert(w[i].language == l);
            } else {
                assert(w[i + 1].language == l);
            }
        }
    }
    assert(provider_map(w) =~= want);
}

proof fn lemma_replaced<P, O>(
    v: Seq<LanguageProvider<P, O>>,
    at: int,
    p: LanguageProvider<P, O>,
)
    requires
        ordered_by_language(v),
        0 <= at < v.len(),
        v[at].language == p.language,
    ensures
        ordered_by_language(v.update(at, p)),
        provider_map(v.update(at, p)) == provider_map(v).insert(p.language, p),
{
    let w = v.update(at, p);
    assert forall|i: int, j: int| 0 <= i < j < w.len() implies language::language_rank(
        w[i].language,
    ) < language::language_rank(w[j].language) by {
        assert(language::language_rank(v[i].language) < language::language_rank(v[j].language));
    }
    lemma_provider_map(v);
    lemma_provider_map(w);
    let want = provider_map(v).insert(p.language, p);
    assert forall|l: Language| #[trigger] provider_map(w).dom().contains(l) implies want.dom().contains(
        l,
    ) && provider_map(w)[l] == want[l] by {
        let i = choose|i: int|
            0 <= i < w.len() && (#[trigger] w[i]).language == l && provider_map(w)[l] == w[i];
        if i != at {
            assert(v[i] == w[i]);
            if l == p.language {
                if i < at {
                    assert(language::language_rank(v[i].language) < language::language_rank(
                        v[at].language,
                    ));
                } else {
                    assert(language::language_rank(v[at].language) < language::language_rank(
                        v[i].language,
                    ));
                }
            }
        }
    }
    assert forall|l: Language| #[trigger] want.dom().contains(l) implies provider_map(
        w,
    ).dom().contains(l) by {
        if l == p.language {
            assert(w[at].language == l);
        } else {
            let i = choose|i: int| 0 <= i < v.len() && (#[trigger] v[i]).language == l;
            assert(w[i].language == l);
        }
    }
    assert(provider_map(w) =~= want);
}

/// The operations of a list of providers, provider by provider.
pub open spec fn operations_of<P, O>(v: Seq<LanguageProvider<P, O>>) -> Seq<O>
    decreases v.len(),
{
    if v.len() == 0 {
        seq![]
    } else {
        operations_of(v.drop_last()) + v.last().operations@
    }
}

/// The registered providers, one for a language.
#[derive(Debug)]
pub struct ProviderRegistry<P, O> {
    providers: Vec<LanguageProvider<P, O>>,
}

impl<P, O> View for ProviderRegistry<P, O> {
    type V = Map<Language, LanguageProvider<P, O>>;

    /// The providers by language.
    closed spec fn view(&self) -> Map<Language, LanguageProvider<P, O>> {
        provider_map(self.providers@)
    }
}

impl<P, O> ProviderRegistry<P, O> {
    /// The providers in the order of their languages.
    pub closed spec fn listing(&self) -> Seq<LanguageProvider<P, O>> {
        self.providers@
    }

    /// The providers are ordered by language, and no language stands twice.
    pub closed spec fn wf(&self) -> bool {
        ordered_by_language(self.providers@)
    }

    /// The listing holds exactly the registered providers, ordered by language.
    pub proof fn listing_holds_the_providers(&self)
        requires
            self.wf(),
        ensures
            ordered_by_language(self.listing()),
            forall|i: int|
                0 <= i < self.listing().len() ==> self@.dom().contains(
                    (#[trigger] self.listing()[i]).language,
                ) && self@[self.listing()[i].language] == self.listing()[i],
            forall|l: Language| #[trigger]
                self@.dom().contains(l) ==> exists|i: int|
                    0 <= i < self.listing().len() && (#[trigger] self.listing()[i]).language == l,
    {
        lemma_provider_map(self.providers@);
    }

    /// A registry without providers.
    pub fn new() -> (r: Self)
        ensures
            r.wf(),
            r@ == Map::<Language, LanguageProvider<P, O>>::empty(),
            r.listing().len() == 0,
    {
        let r = ProviderRegistry { providers: Vec::new() };
        assert(r@ =~= Map::<Language, LanguageProvider<P, O>>::empty());
        r
    }

    /// Registers a provider in place of the one that its language had.
    pub fn register(&mut self, provider: LanguageProvider<P, O>)
        requires
            old(self).wf(),
        ensures
            final(self).wf(),
            final(self)@ == old(self)@.insert(provider.language, provider),
    {
        let ghost before = self.providers@;
        let rank = provider.language.rank();
        let mut at: usize = 0;
        while at < self.providers.len() && self.providers[at].language.rank() < rank
            invariant
                at <= self.providers@.len(),
                self.providers@ == before,
                rank == language::language_rank(provider.language),
                forall|i: int|
                    0 <= i < at ==> language::language_rank((#[trigger] before[i]).language) < rank,
            decreases self.providers@.len() - at,
        {
            at += 1;
        }
        if at < self.providers.len() && self.providers[at].language.rank() == rank {
            proof {
                lemma_replaced(before, at as int, provider);
            }
            self.providers.set(at, provider);
        } else {
            proof {
                assert forall|i: int| at <= i < before.len() implies language::language_rank(
                    (#[trigger] before[i]).language,
                ) > rank by {
                    if i > at {
                        assert(language::language_rank(before[at as int].language)
                            < language::language_rank(before[i].language));
                    }
                }
                lemma_inserted(before, at as int, provider);
            }
            self.providers.insert(at, provider);
        }
    }

    /// The provider of a language.
    pub fn get(&self, language: Language) -> (r: Option<&LanguageProvider<P, O>>)
        requires
            self.wf(),
        ensures
            r is Some == self@.dom().contains(language),
            r matches Some(p) ==> *p == self@[language],
    {
        proof {
            self.listing_holds_the_providers();
        }
        let mut i: usize = 0;
        while i < self.providers.len()
            invariant
                i <= self.providers@.len(),
                forall|j: int| 0 <= j < i ==> (#[trigger] self.providers@[j]).language != language,
                forall|j: int|
                    0 <= j < self.listing().len() ==> self@.dom().contains(
                        (#[trigger] self.listing()[j]).language,
                    ) && self@[self.listing()[j].language] == self.listing()[j],
            decreases self.providers@.len() - i,
        {
            if self.providers[i].language == language {
                assert(self.listing()[i as int] == self.providers@[i as int]);
                return Some(&self.providers[i]);
            }
            i += 1;
        }
        None
    }

    /// The operations of all providers, in the order of their languages.
    pub fn operations(&self) -> (r: Vec<&O>)
        ensures
            r@.map_values(|o: &O| *o) == operations_of(self.listing()),
    {
        let ghost all = self.providers@;
        let mut out: Vec<&O> = Vec::new();
        let mut i: usize = 0;
        assert(all.take(0) =~= seq![]);
        assert(out@.map_values(|o: &O| *o) =~= seq![]);
        while i < self.providers.len()
            invariant
                i <= self.providers@.len(),
                all == self.providers@,
                out@.map_values(|o: &O| *o) == operations_of(all.take(i as int)),
            decreases self.providers@.len() - i,
        {
            let ops = &self.providers[i].operations;
            let ghost before = out@.map_values(|o: &O| *o);
            let mut k: usize = 0;
            assert(before + ops@.take(0) =~= before);
            while k < ops.len()
                invariant
                    k <= ops@.len(),
                    out@.map_values(|o: &O| *o) == before + ops@.take(k as int),
                decreases ops@.len() - k,
            {
                let ghost now = out@.map_values(|o: &O| *o);
                out.push(&ops[k]);
                proof {
                    assert(out@.map_values(|o: &O| *o) =~= now.push(ops@[k as int]));
                    assert(before + ops@.take(k + 1) =~= (before + ops@.take(k as int)).push(
                        ops@[k as int],
                    ));
                }
                k += 1;
            }
            proof {
                assert(ops@.take(k as int) =~= ops@);
                assert(all.take(i + 1).drop_last() =~= all.take(i as int));
                assert(all.take(i + 1).last() == all[i as int]);
            }
            i += 1;
        }
        assert(all.take(i as int) =~= all);
        out
    }

    /// The languages that have a provider, in order.
    pub fn languages(&self) -> (r: Vec<Language>)
        ensures
            r@ == self.listing().map_values(|p: LanguageProvider<P, O>| p.language),
    {
        let ghost want = self.providers@.map_values(|p: LanguageProvider<P, O>| p.language);
        let mut out: Vec<Language> = Vec::new();
        let mut i: usize = 0;
        while i < self.providers.len()
            invariant
                i <= self.providers@.len(),
                want == self.providers@.map_values(|p: LanguageProvider<P, O>| p.language),
                out@ == want.take(i as int),
            decreases self.providers@.len() - i,
        {
            out.push(self.providers[i].language);
            i += 1;
            assert(want.take(i as int) =~= want.take(i - 1).push(want[i - 1]));
        }
        assert(want.take(i as int) =~= want);
        out
    }
}

// ---------------------------------------------------------------------------
// Sessions that are shared
// ---------------------------------------------------------------------------

/// The hash of a path, by std's `BuildHasher::hash_one` with the hasher that
/// `DefaultHasher::default` makes. Nothing is stated of it: std does not fix the
/// algorithm from one release to the next, and what is hashed of a path depends on
/// the word size and the byte order of the machine.
#[verifier::external_body]
fn path_hash(root: &PathBuf) -> (r: u64) {
    BuildHasherDefault::<DefaultHasher>::default().hash_one(Path::new(root.as_str()))
}

/// The key of the session of a project that is not under version control, by the
/// hash of its root.
pub open spec fn unversioned_key_of(hash: u64) -> Seq<char> {
    "novcs-"@ + text::hex(hash as nat, 16)
}

/// The key of the session of a project that is not under version control, by the
/// hash of its root.
pub fn unversioned_key(hash: u64) -> (r: String)
    ensures
        r@ == unversioned_key_of(hash),
{
    cat2("novcs-", hex_text(hash, 16).as_str())
}

/// The key of the session that serves a project: the identity of its repository,
/// so that all working copies of a repository share a session, else a key made
/// from the hash of its root. Which hash a root has is left to std, so it is not
/// stated that a root keeps its key, or that two roots have different ones.
pub fn session_key(identity: &Option<String>, root: &PathBuf) -> (r: String)
    ensures
        match *identity {
            Some(slug) => r@ == slug@,
            None => exists|hash: u64| r@ == #[trigger] unversioned_key_of(hash),
        },
{
    match identity {
        Some(slug) => slug.clone(),
        None => unversioned_key(path_hash(root)),
    }
}

/// The keys of projects that are not under version control tell hashes apart.
pub proof fn keys_tell_hashes_apart(a: u64, b: u64)
    ensures
        unversioned_key_of(a) == unversioned_key_of(b) ==> a == b,
{
    if unversioned_key_of(a) == unversioned_key_of(b) {
        let x = text::hex(a as nat, 16);
        let y = text::hex(b as nat, 16);
        let p = "novcs-"@;
        assert((p + x).skip(p.len() as int) =~= x);
        assert((p + y).skip(p.len() as int) =~= y);
        assert(text::hex_limit(16) == 0x1_0000_0000_0000_0000) by {
            reveal_with_fuel(text::hex_limit, 17);
        }
        text::hex_tells_numbers_apart(a as nat, b as nat, 16);
    }
}

/// The operations of several providers are those of each, in the order of the
/// providers.
pub proof fn operations_are_those_of_all_providers<P, O>(
    v: Seq<LanguageProvider<P, O>>,
    more: Seq<LanguageProvider<P, O>>,
    p: LanguageProvider<P, O>,
)
    ensures
        operations_of(seq![p]) == p.operations@,
        operations_of(v + more) == operations_of(v) + operations_of(more),
    decreases more.len(),
{
    assert(seq![p].drop_last() =~= seq![]);
    assert(operations_of(seq![p].drop_last()) =~= seq![]);
    assert(operations_of(seq![p]) =~= p.operations@);
    if more.len() == 0 {
        assert(v + more =~= v);
        assert(operations_of(v) + operations_of(more) =~= operations_of(v));
    } else {
        assert((v + more).drop_last() =~= v + more.drop_last());
        operations_are_those_of_all_providers(v, more.drop_last(), p);
        assert(operations_of(v + more) =~= operations_of(v) + operations_of(more));
    }
}

} // verus!
