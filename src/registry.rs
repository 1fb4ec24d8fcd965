use vstd::prelude::*;

use crate::error::GatewayError;

verus! {

/// Why a list of (model identifier, base address) pairs cannot become a registry.
#[derive(Debug, PartialEq, Eq)]
pub enum ConfigError {
    /// A model identifier is the empty string.
    EmptyModelId,
    /// The same model identifier is listed twice; carries that identifier.
    DuplicateModelId(String),
}

/// Immutable mapping from model identifier to backend base address.
pub struct BackendRegistry {
    entries: Vec<(String, String)>,
}

/// Every identifier is non-empty and no identifier occurs twice.
pub open spec fn entries_valid(entries: Seq<(String, String)>) -> bool {
    &&& forall|i: int| 0 <= i < entries.len() ==> (#[trigger] entries[i]).0@.len() > 0
    &&& forall|i: int, j: int|
        0 <= i < j < entries.len() ==> (#[trigger] entries[i]).0@ != (#[trigger] entries[j]).0@
}

/// The mapping that a valid list of entries describes.
pub open spec fn map_of(entries: Seq<(String, String)>) -> Map<Seq<char>, Seq<char>>
    decreases entries.len(),
{
    if entries.len() == 0 {
        Map::empty()
    } else {
        let last = entries.last();
        map_of(entries.drop_last()).insert(last.0@, last.1@)
    }
}

proof fn lemma_map_of_lookup(entries: Seq<(String, String)>, i: int)
    requires
        entries_valid(entries),
        0 <= i < entries.len(),
    ensures
        map_of(entries).contains_key(entries[i].0@),
        map_of(entries)[entries[i].0@] == entries[i].1@,
    decreases entries.len(),
{
    if i < entries.len() - 1 {
        let prefix = entries.drop_last();
        assert(prefix[i] == entries[i]);
        assert forall|a: int, b: int| 0 <= a < b < prefix.len() implies
            (#[trigger] prefix[a]).0@ != (#[trigger] prefix[b]).0@ by {
            assert(prefix[a] == entries[a] && prefix[b] == entries[b]);
        }
        assert forall|a: int| 0 <= a < prefix.len() implies (#[trigger] prefix[a]).0@.len() > 0 by {
            assert(prefix[a] == entries[a]);
        }
        lemma_map_of_lookup(prefix, i);
        assert(entries[i].0@ != entries[entries.len() - 1].0@);
    }
}

proof fn lemma_map_of_domain(entries: Seq<(String, String)>, k: Seq<char>)
    requires
        map_of(entries).contains_key(k),
    ensures
        exists|i: int| 0 <= i < entries.len() && (#[trigger] entries[i]).0@ == k,
    decreases entries.len(),
{
    if entries.len() > 0 {
        let prefix = entries.drop_last();
        if k != entries.last().0@ {
            lemma_map_of_domain(prefix, k);
            let i = choose|i: int| 0 <= i < prefix.len() && (#[trigger] prefix[i]).0@ == k;
            assert(entries[i] == prefix[i]);
        } else {
            assert(entries[entries.len() - 1].0@ == k);
        }
    }
}

impl View for BackendRegistry {
    type V = Map<Seq<char>, Seq<char>>;

    closed spec fn view(&self) -> Map<Seq<char>, Seq<char>> {
        map_of(self.entries@)
    }
}

impl BackendRegistry {
    /// The registry holds no empty and no repeated model identifier.
    pub closed spec fn wf(&self) -> bool {
        entries_valid(self.entries@)
    }

    /// Builds the registry from (model identifier, base address) pairs.
    /// Fails on an empty identifier, else on a repeated one.
    pub fn from_entries(entries: Vec<(String, String)>) -> (r: Result<BackendRegistry, ConfigError>)
        ensures
            match r {
                Ok(reg) => entries_valid(entries@) && reg.wf() && reg@ == map_of(entries@),
                Err(ConfigError::EmptyModelId) => exists|i: int|
                    0 <= i < entries@.len() && (#[trigger] entries@[i]).0@.len() == 0,
                Err(ConfigError::DuplicateModelId(m)) => {
                    &&& forall|i: int| 0 <= i < entries@.len() ==> (#[trigger] entries@[i]).0@.len() > 0
                    &&& exists|i: int, j: int|
                        0 <= i < j < entries@.len() && (#[trigger] entries@[i]).0@ == m@
                            && (#[trigger] entries@[j]).0@ == m@
                },
            },
    {
        let n = entries.len();
        let mut i: usize = 0;
        while i < n
            invariant
                n == entries@.len(),
                i <= n,
                forall|k: int| 0 <= k < i ==> (#[trigger] entries@[k]).0@.len() > 0,
            decreases n - i,
        {
            if entries[i].0.as_str().is_empty() {
                return Err(ConfigError::EmptyModelId);
            }
            i = i + 1;
        }
        let mut j: usize = 0;
        while j < n
            invariant
                n == entries@.len(),
                j <= n,
                forall|k: int| 0 <= k < n ==> (#[trigger] entries@[k]).0@.len() > 0,
                forall|a: int, b: int|
                    0 <= a < b < j ==> (#[trigger] entries@[a]).0@ != (#[trigger] entries@[b]).0@,
            decreases n - j,
        {
            let mut a: usize = 0;
            while a < j
                invariant
                    n == entries@.len(),
                    a <= j < n,
                    forall|k: int| 0 <= k < n ==> (#[trigger] entries@[k]).0@.len() > 0,
                    forall|x: int, y: int|
                        0 <= x < y < j ==> (#[trigger] entries@[x]).0@ != (#[trigger] entries@[y]).0@,
                    forall|k: int| 0 <= k < a ==> (#[trigger] entries@[k]).0@ != entries@[j as int].0@,
                decreases j - a,
            {
                if entries[a].0 == entries[j].0 {
                    let m = entries[j].0.clone();
                    assert(entries@[a as int].0@ == m@ && entries@[j as int].0@ == m@);
                    return Err(ConfigError::DuplicateModelId(m));
                }
                a = a + 1;
            }
            j = j + 1;
        }
        Ok(BackendRegistry { entries })
    }

    /// Looks up the base address of the backend serving `model`, by exact,
    /// case-sensitive match; an unknown model gives `ModelNotFound(model)`.
    pub fn resolve(&self, model: &String) -> (r: Result<String, GatewayError>)
        requires
            self.wf(),
        ensures
            self@.contains_key(model@) <==> r is Ok,
            r matches Ok(url) ==> url@ == self@[model@],
            r matches Err(e) ==> e matches GatewayError::ModelNotFound(m) && m@ == model@,
    {
        let n = self.entries.len();
        let mut i: usize = 0;
        while i < n
            invariant
                self.wf(),
                n == self.entries@.len(),
                i <= n,
                forall|k: int| 0 <= k < i ==> (#[trigger] self.entries@[k]).0@ != model@,
            decreases n - i,
        {
            if self.entries[i].0 == *model {
                proof {
                    lemma_map_of_lookup(self.entries@, i as int);
                }
                return Ok(self.entries[i].1.clone());
            }
            i = i + 1;
        }
        proof {
            if self@.contains_key(model@) {
                lemma_map_of_domain(self.entries@, model@);
            }
        }
        Err(GatewayError::ModelNotFound(model.clone()))
    }
}

} // verus!
