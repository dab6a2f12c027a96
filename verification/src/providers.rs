//! The upstream providers, by name.

use vstd::prelude::*;

use crate::text::{chars_less, chars_lt, lemma_chars_lt_total, lemma_chars_lt_transitive, to_chars};

verus! {

/// One upstream provider that the relay may forward to.
#[derive(Clone, Debug)]
pub struct ProviderConfig {
    pub base_url: String,
    pub allow_private: bool,
}

/// A provider as a value: its base URL and whether private targets are allowed.
pub struct ProviderView {
    pub base_url: Seq<char>,
    pub allow_private: bool,
}

impl View for ProviderConfig {
    type V = ProviderView;

    open spec fn view(&self) -> ProviderView {
        ProviderView { base_url: self.base_url@, allow_private: self.allow_private }
    }
}

impl Default for ProviderConfig {
    fn default() -> (d: Self)
        ensures
            d.base_url@ == Seq::<char>::empty(),
            !d.allow_private,
    {
        ProviderConfig { base_url: String::new(), allow_private: false }
    }
}

/// Whether the names in `entries` rise strictly, so that no name occurs twice.
pub open spec fn names_ascending(entries: Seq<(Seq<char>, ProviderView)>) -> bool {
    forall|i: int, j: int|
        0 <= i < j < entries.len() ==> chars_lt(#[trigger] entries[i].0, #[trigger] entries[j].0)
}

/// The position of the entry named `name`, if there is one.
pub open spec fn position_of(entries: Seq<(Seq<char>, ProviderView)>, name: Seq<char>) -> Option<
    int,
> {
    if exists|i: int| 0 <= i < entries.len() && #[trigger] entries[i].0 == name {
        Some(choose|i: int| 0 <= i < entries.len() && #[trigger] entries[i].0 == name)
    } else {
        None
    }
}

/// The providers by name, kept in the order of their names.
#[derive(Debug)]
pub struct ProviderMap {
    entries: Vec<(String, ProviderConfig)>,
}

impl ProviderMap {
    /// The entries, name and provider, in the order of their names.
    pub closed spec fn spec_entries(&self) -> Seq<(Seq<char>, ProviderView)> {
        self.entries@.map_values(|e: (String, ProviderConfig)| (e.0@, e.1@))
    }

    #[verifier::type_invariant]
    closed spec fn ordered(&self) -> bool {
        names_ascending(self.spec_entries())
    }

    /// A map with no providers.
    pub fn new() -> (m: Self)
        ensures
            m.spec_entries() == Seq::<(Seq<char>, ProviderView)>::empty(),
    {
        let m = ProviderMap { entries: Vec::new() };
        assert(m.spec_entries() =~= Seq::<(Seq<char>, ProviderView)>::empty());
        m
    }

    /// The number of providers.
    pub fn len(&self) -> (n: usize)
        ensures
            n == self.spec_entries().len(),
    {
        self.entries.len()
    }

    /// Whether there are no providers.
    pub fn is_empty(&self) -> (b: bool)
        ensures
            b == (self.spec_entries().len() == 0),
    {
        self.entries.len() == 0
    }

    /// The name and the provider at position `i` in name order.
    pub fn entry(&self, i: usize) -> (e: (&String, &ProviderConfig))
        requires
            i < self.spec_entries().len(),
        ensures
            (e.0@, e.1@) == self.spec_entries()[i as int],
    {
        let e = &self.entries[i];
        (&e.0, &e.1)
    }

    /// The provider named `name`.
    pub fn get(&self, name: &str) -> (p: Option<&ProviderConfig>)
        ensures
            match p {
                Some(p) => (position_of(self.spec_entries(), name@) matches Some(i)
                    && self.spec_entries()[i].1 == p@),
                None => position_of(self.spec_entries(), name@) is None,
            },
    {
        proof {
            use_type_invariant(self);
        }
        let key = to_chars(name);
        let n = self.entries.len();
        for i in 0..n
            invariant
                n == self.spec_entries().len(),
                key@ == name@,
                names_ascending(self.spec_entries()),
                forall|j: int| 0 <= j < i ==> self.spec_entries()[j].0 != name@,
        {
            let k = to_chars(self.entries[i].0.as_str());
            if crate::text::chars_eq(k.as_slice(), key.as_slice()) {
                proof {
                    assert(self.spec_entries()[i as int].0 == name@);
                    let c = choose|c: int|
                        0 <= c < self.spec_entries().len() && #[trigger] self.spec_entries()[c].0
                            == name@;
                    if c != i {
                        if c < i {
                        } else {
                            assert(chars_lt(self.spec_entries()[i as int].0, self.spec_entries()[c].0));
                            crate::text::lemma_chars_lt_irreflexive(name@);
                        }
                    }
                }
                return Some(&self.entries[i].1);
            }
        }
        None
    }

    /// Adds `provider` under `name`, replacing the one already there; gives back the one
    /// replaced.
    pub fn insert(&mut self, name: String, provider: ProviderConfig) -> (previous: Option<
        ProviderConfig,
    >)
        ensures
            names_ascending(final(self).spec_entries()),
            match position_of(old(self).spec_entries(), name@) {
                Some(i) => {
                    &&& final(self).spec_entries() == old(self).spec_entries().update(
                        i,
                        (name@, provider@),
                    )
                    &&& previous matches Some(p) && p@ == old(self).spec_entries()[i].1
                },
                None => previous is None && exists|k: int|
                    0 <= k <= old(self).spec_entries().len()
                        && final(self).spec_entries() == old(self).spec_entries().insert(
                        k,
                        (name@, provider@),
                    ),
            },
    {
        proof {
            use_type_invariant(&*self);
        }
        let ghost old_entries = self.spec_entries();
        let key = to_chars(name.as_str());
        let n = self.entries.len();
        let mut i: usize = 0;
        while i < n
            invariant
                n == old_entries.len(),
                old_entries == self.spec_entries(),
                key@ == name@,
                names_ascending(old_entries),
                i <= n,
                forall|j: int| 0 <= j < i ==> chars_lt(#[trigger] old_entries[j].0, name@),
            ensures
                i <= n,
                forall|j: int| 0 <= j < i ==> chars_lt(#[trigger] old_entries[j].0, name@),
                i < n ==> !chars_lt(old_entries[i as int].0, name@),
            decreases n - i,
        {
            let k = to_chars(self.entries[i].0.as_str());
            if !chars_less(k.as_slice(), key.as_slice()) {
                break;
            }
            i = i + 1;
        }
        proof {
            assert forall|j: int| 0 <= j < i implies old_entries[j].0 != name@ by {
                crate::text::lemma_chars_lt_irreflexive(name@);
            }
        }
        let found = if i < n {
            let k = to_chars(self.entries[i].0.as_str());
            crate::text::chars_eq(k.as_slice(), key.as_slice())
        } else {
            false
        };
        if found {
            proof {
                assert(old_entries[i as int].0 == name@);
                assert forall|j: int| i < j < n implies old_entries[j].0 != name@ by {
                    assert(chars_lt(old_entries[i as int].0, old_entries[j].0));
                    crate::text::lemma_chars_lt_irreflexive(name@);
                }
                let c = choose|c: int| 0 <= c < old_entries.len() && #[trigger] old_entries[c].0 == name@;
                assert(c == i);
            }
            let mut entries = Vec::new();
            std::mem::swap(&mut entries, &mut self.entries);
            let (_, old_provider) = entries.remove(i);
            entries.insert(i, (name, provider));
            let ghost new_entries = entries@.map_values(|e: (String, ProviderConfig)| (e.0@, e.1@));
            assert(new_entries =~= old_entries.update(i as int, (name@, provider@)));
            assert(names_ascending(new_entries));
            self.entries = entries;
            Some(old_provider)
        } else {
            proof {
                if i < n {
                    lemma_chars_lt_total(old_entries[i as int].0, name@);
                }
                assert forall|j: int| i <= j < n implies chars_lt(name@, #[trigger] old_entries[j].0) by {
                    if j > i {
                        lemma_chars_lt_transitive(name@, old_entries[i as int].0, old_entries[j].0);
                    }
                }
                assert(!(exists|c: int| 0 <= c < old_entries.len() && #[trigger] old_entries[c].0 == name@)) by {
                    assert forall|c: int| 0 <= c < old_entries.len() implies #[trigger] old_entries[c].0 != name@ by {
                        if c >= i {
                            crate::text::lemma_chars_lt_irreflexive(name@);
                        }
                    }
                }
            }
            let mut entries = Vec::new();
            std::mem::swap(&mut entries, &mut self.entries);
            entries.insert(i, (name, provider));
            let ghost new_entries = entries@.map_values(|e: (String, ProviderConfig)| (e.0@, e.1@));
            assert(new_entries =~= old_entries.insert(i as int, (name@, provider@)));
            assert(names_ascending(new_entries)) by {
                assert forall|a: int, b: int| 0 <= a < b < new_entries.len() implies chars_lt(
                    #[trigger] new_entries[a].0,
                    #[trigger] new_entries[b].0,
                ) by {
                    if a < i && b > i {
                        lemma_chars_lt_transitive(new_entries[a].0, name@, new_entries[b].0);
                    }
                }
            }
            self.entries = entries;
            None
        }
    }
}

} // verus!

verus! {

/// When names rise strictly, the entry named `name` is the one at any position that holds
/// that name.
proof fn lemma_position_unique(entries: Seq<(Seq<char>, ProviderView)>, name: Seq<char>, i: int)
    requires
        names_ascending(entries),
        0 <= i < entries.len(),
        entries[i].0 == name,
    ensures
        position_of(entries, name) == Some(i),
{
    lemma_position_some(entries, name);
    assert(position_of(entries, name) is Some);
    let c = position_of(entries, name)->0;
    if c < i {
        assert(chars_lt(entries[c].0, entries[i].0));
        crate::text::lemma_chars_lt_irreflexive(name);
    } else if c > i {
        assert(chars_lt(entries[i].0, entries[c].0));
        crate::text::lemma_chars_lt_irreflexive(name);
    }
}

proof fn lemma_position_some(entries: Seq<(Seq<char>, ProviderView)>, name: Seq<char>)
    ensures
        position_of(entries, name) matches Some(i) ==> 0 <= i < entries.len() && entries[i].0
            == name,
        position_of(entries, name) is None ==> forall|i: int|
            0 <= i < entries.len() ==> #[trigger] entries[i].0 != name,
{
}

/// After a provider is put under a name, looking that name up finds it, and every other
/// name finds what it found before.
pub proof fn lemma_insert_then_get(
    before: Seq<(Seq<char>, ProviderView)>,
    after: Seq<(Seq<char>, ProviderView)>,
    name: Seq<char>,
    provider: ProviderView,
    other: Seq<char>,
)
    requires
        names_ascending(before),
        names_ascending(after),
        match position_of(before, name) {
            Some(i) => after == before.update(i, (name, provider)),
            None => exists|k: int|
                0 <= k <= before.len() && after == before.insert(k, (name, provider)),
        },
        other != name,
    ensures
        position_of(after, name) matches Some(i) && after[i].1 == provider,
        match position_of(before, other) {
            Some(j) => position_of(after, other) matches Some(l) && after[l].1 == before[j].1,
            None => position_of(after, other) is None,
        },
{
    lemma_position_some(before, name);
    lemma_position_some(before, other);
    let pos = position_of(before, name);
    let opos = position_of(before, other);
    if pos is Some {
        let i = pos->0;
        assert(after == before.update(i, (name, provider)));
        assert(after[i] == (name, provider));
        lemma_position_unique(after, name, i);
        if opos is Some {
            let j = opos->0;
            assert(after[j] == before[j]);
            lemma_position_unique(after, other, j);
        } else {
            assert forall|l: int| 0 <= l < after.len() implies #[trigger] after[l].0 != other by {
                if l != i {
                    assert(after[l] == before[l]);
                }
            }
            lemma_position_some(after, other);
        }
    } else {
        let k = choose|k: int|
            0 <= k <= before.len() && after == before.insert(k, (name, provider));
        assert(after[k] == (name, provider));
        lemma_position_unique(after, name, k);
        if opos is Some {
            let j = opos->0;
            let l = if j < k { j } else { j + 1 };
            assert(after[l] == before[j]);
            lemma_position_unique(after, other, l);
        } else {
            assert forall|l: int| 0 <= l < after.len() implies #[trigger] after[l].0 != other by {
                if l < k {
                    assert(after[l] == before[l]);
                } else if l > k {
                    assert(after[l] == before[l - 1]);
                }
            }
            lemma_position_some(after, other);
        }
    }
}

} // verus!
