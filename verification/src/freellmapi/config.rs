//! The settings that decide which provider is used, as far as FreeLLMAPI is concerned.
use vstd::prelude::*;

use crate::text;

verus! {

/// The settings of one provider. `O` stands for those that have nothing to do with where the
/// provider is reached.
pub struct ProviderConfig<O> {
    pub api_base: Option<String>,
    pub api_key: Option<String>,
    pub other: O,
}

/// A provider and its settings.
pub struct ProviderEntry<O> {
    pub id: String,
    pub config: ProviderConfig<O>,
}

/// The settings of the providers, each under its identifier.
pub struct ProviderTable<O> {
    entries: Vec<ProviderEntry<O>>,
}

/// The settings under each identifier.
pub open spec fn settings_of<O>(entries: Seq<ProviderEntry<O>>) -> Map<Seq<char>, ProviderConfig<O>>
    decreases entries.len(),
{
    if entries.len() == 0 {
        Map::empty()
    } else {
        settings_of(entries.drop_last()).insert(entries.last().id@, entries.last().config)
    }
}

/// Whether no identifier occurs twice.
pub open spec fn has_distinct_ids<O>(entries: Seq<ProviderEntry<O>>) -> bool {
    forall|i: int, j: int|
        0 <= i < j < entries.len() ==> (#[trigger] entries[i]).id@ != (#[trigger] entries[j]).id@
}

impl<O> View for ProviderTable<O> {
    type V = Map<Seq<char>, ProviderConfig<O>>;

    closed spec fn view(&self) -> Map<Seq<char>, ProviderConfig<O>> {
        settings_of(self.entries@)
    }
}

proof fn lemma_settings_of<O>(entries: Seq<ProviderEntry<O>>, id: Seq<char>)
    requires
        has_distinct_ids(entries),
    ensures
        settings_of(entries).contains_key(id) <==> exists|i: int|
            0 <= i < entries.len() && (#[trigger] entries[i]).id@ == id,
        forall|i: int|
            0 <= i < entries.len() && (#[trigger] entries[i]).id@ == id ==> settings_of(entries)[id]
                == entries[i].config,
    decreases entries.len(),
{
    if entries.len() > 0 {
        let shorter = entries.drop_last();
        assert(has_distinct_ids(shorter)) by {
            assert forall|i: int, j: int| 0 <= i < j < shorter.len() implies (
            #[trigger] shorter[i]).id@ != (#[trigger] shorter[j]).id@ by {
                assert(entries[i].id@ != entries[j].id@);
            }
        }
        lemma_settings_of(shorter, id);
        if settings_of(shorter).contains_key(id) {
            let i = choose|i: int| 0 <= i < shorter.len() && (#[trigger] shorter[i]).id@ == id;
            assert(entries[i].id@ == id);
        }
        if settings_of(entries).contains_key(id) && entries.last().id@ == id {
            assert(entries[entries.len() - 1].id@ == id);
        }
        assert forall|i: int|
            0 <= i < entries.len() && (#[trigger] entries[i]).id@ == id implies settings_of(
            entries,
        )[id] == entries[i].config by {
            if i < shorter.len() {
                assert(shorter[i].id@ == id);
                assert(entries[i].id@ != entries[entries.len() - 1].id@);
            }
        }
        assert(settings_of(entries).contains_key(id) <==> exists|i: int|
            0 <= i < entries.len() && (#[trigger] entries[i]).id@ == id) by {
            if exists|i: int| 0 <= i < entries.len() && (#[trigger] entries[i]).id@ == id {
                let i = choose|i: int|
                    0 <= i < entries.len() && (#[trigger] entries[i]).id@ == id;
                if i < shorter.len() {
                    assert(shorter[i].id@ == id);
                }
            }
        }
    }
}

impl<O> ProviderTable<O> {
    /// Whether the table is in order: no identifier occurs twice.
    pub closed spec fn wf(&self) -> bool {
        has_distinct_ids(self.entries@)
    }

    /// A table without providers.
    pub fn new() -> (table: Self)
        ensures
            table.wf(),
            table@ == Map::<Seq<char>, ProviderConfig<O>>::empty(),
    {
        ProviderTable { entries: Vec::new() }
    }

    /// Where a provider stands in the table.
    fn position(&self, id: &str) -> (found: Option<usize>)
        requires
            self.wf(),
        ensures
            match found {
                Some(i) => i < self.entries@.len() && self.entries@[i as int].id@ == id@
                    && self@.contains_key(id@) && self@[id@] == self.entries@[i as int].config,
                None => !self@.contains_key(id@) && forall|i: int|
                    0 <= i < self.entries@.len() ==> (#[trigger] self.entries@[i]).id@ != id@,
            },
    {
        proof {
            lemma_settings_of(self.entries@, id@);
        }
        let mut i: usize = 0;
        while i < self.entries.len()
            invariant
                i <= self.entries@.len(),
                self.wf(),
                forall|j: int| 0 <= j < i ==> (#[trigger] self.entries@[j]).id@ != id@,
            decreases self.entries@.len() - i,
        {
            if text::same_text(self.entries[i].id.as_str(), id) {
                proof {
                    lemma_settings_of(self.entries@, id@);
                }
                return Some(i);
            }
            i = i + 1;
        }
        None
    }

    /// The settings of a provider, if the table has it.
    pub fn get(&self, id: &str) -> (config: Option<&ProviderConfig<O>>)
        requires
            self.wf(),
        ensures
            config is Some <==> self@.contains_key(id@),
            config matches Some(c) ==> *c == self@[id@],
    {
        match self.position(id) {
            Some(i) => Some(&self.entries[i].config),
            None => None,
        }
    }

    /// Puts the settings of a provider into the table, in place of those it had before.
    pub fn insert(&mut self, id: &str, config: ProviderConfig<O>)
        requires
            old(self).wf(),
        ensures
            final(self).wf(),
            final(self)@ == old(self)@.insert(id@, config),
    {
        let ghost before = self.entries@;
        let entry = ProviderEntry { id: String::from_str(id), config };
        match self.position(id) {
            Some(i) => {
                self.entries.set(i, entry);
                proof {
                    assert(self.entries@ =~= before.update(i as int, entry));
                    lemma_settings_of_updated(before, i as int, entry);
                }
            },
            None => {
                self.entries.push(entry);
                proof {
                    assert(self.entries@.drop_last() =~= before);
                    assert forall|i: int, j: int| 0 <= i < j < self.entries@.len() implies (
                    #[trigger] self.entries@[i]).id@ != (#[trigger] self.entries@[j]).id@ by {
                        if j < before.len() {
                            assert(before[i].id@ != before[j].id@);
                        } else {
                            assert(before[i].id@ != id@);
                        }
                    }
                }
            },
        }
    }

    /// Sets where a provider is reached and with which key. The other settings of a provider that
    /// the table has stay; one that it has not gets `fresh` for them.
    pub fn set_endpoint(&mut self, id: &str, api_base: String, api_key: String, fresh: O)
        requires
            old(self).wf(),
        ensures
            final(self).wf(),
            final(self)@ == old(self)@.insert(
                id@,
                (ProviderConfig {
                    api_base: Some(api_base),
                    api_key: Some(api_key),
                    other: if old(self)@.contains_key(id@) {
                        old(self)@[id@].other
                    } else {
                        fresh
                    },
                }),
            ),
    {
        match self.position(id) {
            Some(i) => {
                let ghost before = self.entries@;
                let entry = &mut self.entries[i];
                entry.config.api_base = Some(api_base);
                entry.config.api_key = Some(api_key);
                proof {
                    let after = self.entries@[i as int];
                    assert(self.entries@ =~= before.update(i as int, after));
                    lemma_settings_of_updated(before, i as int, after);
                }
            },
            None => {
                let config = ProviderConfig {
                    api_base: Some(api_base),
                    api_key: Some(api_key),
                    other: fresh,
                };
                self.insert(id, config);
            },
        }
    }
}

proof fn lemma_settings_of_updated<O>(
    entries: Seq<ProviderEntry<O>>,
    k: int,
    entry: ProviderEntry<O>,
)
    requires
        has_distinct_ids(entries),
        0 <= k < entries.len(),
        entries[k].id@ == entry.id@,
    ensures
        has_distinct_ids(entries.update(k, entry)),
        settings_of(entries.update(k, entry)) == settings_of(entries).insert(
            entry.id@,
            entry.config,
        ),
{
    let after = entries.update(k, entry);
    assert forall|i: int, j: int| 0 <= i < j < after.len() implies (#[trigger] after[i]).id@ != (
    #[trigger] after[j]).id@ by {
        assert(entries[i].id@ != entries[j].id@);
    }
    let left = settings_of(after);
    let right = settings_of(entries).insert(entry.id@, entry.config);
    assert forall|id: Seq<char>|
        #![trigger left.dom().contains(id)]
        #![trigger right.dom().contains(id)]
        #![trigger left[id]]
        left.contains_key(id) == right.contains_key(id) && (left.contains_key(id) ==> left[id]
            == right[id]) by {
        lemma_settings_of(after, id);
        lemma_settings_of(entries, id);
        if left.contains_key(id) {
            let i = choose|i: int| 0 <= i < after.len() && (#[trigger] after[i]).id@ == id;
            assert(entries[i].id@ == id);
            if i == k {
                assert(left[id] == entry.config);
            } else {
                assert(left[id] == entries[i].config);
                if id == entry.id@ {
                    assert(after[i].id@ == after[k].id@);
                    if i < k {
                        assert(after[i].id@ != after[k].id@);
                    } else {
                        assert(after[k].id@ != after[i].id@);
                    }
                }
            }
        }
        if right.contains_key(id) {
            if id == entry.id@ {
                assert(after[k].id@ == id);
            } else {
                let i = choose|i: int| 0 <= i < entries.len() && (#[trigger] entries[i]).id@ == id;
                assert(after[i].id@ == id);
            }
        }
    }
    assert(left =~= right);
}

/// The settings that decide which provider and model are used.
pub struct Config<O> {
    pub provider: Option<String>,
    pub model: Option<String>,
    pub api_key: Option<String>,
    pub provider_configs: ProviderTable<O>,
}

} // verus!
