//! Country-to-currency-code cache.
//!
//! Keys are country names folded to their canonical lowercase form. The
//! upstream lookup is an injected capability ([`CountryResolver`]), invoked
//! only on a cache miss; a fetched code list is written wholesale, an unknown
//! country or a failed fetch is never cached.

use vstd::prelude::*;
use crate::assoc::{assoc_lookup, lemma_assoc_lookup_at, lemma_assoc_lookup_none, lemma_assoc_push,
    lemma_assoc_update};
use crate::text::{lemma_lower_idempotent, lower_seq, normalize};

verus! {

/// Upstream outcome of one country resolution: the country's currency codes,
/// `None` when the upstream service does not know the country, or an error
/// message on a transport or parse failure.
pub type ResolveOutcome = Result<Option<Vec<String>>, String>;

/// Capability that fetches the currency codes of a country from the upstream
/// resolution service. The cache invokes it only on a miss, with the
/// canonical (lowercase) name. Implementations count their invocations, so
/// contracts can say when no fetch happens.
pub trait CountryResolver {
    /// How often `fetch` has been invoked. Implementations outside the
    /// verified core need not track this; for them it defaults to zero.
    open spec fn calls(&self) -> int {
        0
    }

    /// One upstream lookup for the canonical country name.
    fn fetch(&mut self, country: &str) -> (r: ResolveOutcome)
        ensures
            final(self).calls() == old(self).calls() + 1,
    ;
}

/// Copies a list of currency codes.
pub fn clone_codes(codes: &Vec<String>) -> (r: Vec<String>)
    ensures
        r@ == codes@,
{
    let mut out: Vec<String> = Vec::new();
    let mut i: usize = 0;
    while i < codes.len()
        invariant
            i <= codes@.len(),
            out@ == codes@.take(i as int),
        decreases codes@.len() - i,
    {
        out.push(codes[i].clone());
        proof {
            assert(codes@.take(i + 1) =~= codes@.take(i as int).push(codes@[i as int]));
        }
        i = i + 1;
    }
    proof {
        assert(codes@.take(codes@.len() as int) =~= codes@);
    }
    out
}

/// The cache. Entries live for the process lifetime; a later successful
/// fetch for the same key replaces its entry wholesale, never partially.
#[derive(Clone)]
pub struct CountryCache {
    pub entries: Vec<(String, Vec<String>)>,
}

impl CountryCache {
    /// Every key is canonical (already folded) and no key repeats.
    pub open spec fn wf(&self) -> bool {
        &&& forall|i: int|
            0 <= i < self.entries@.len() ==> lower_seq(#[trigger] self.entries@[i].0@)
                == self.entries@[i].0@
        &&& forall|i: int, j: int|
            0 <= i < j < self.entries@.len() ==> self.entries@[i].0@ != self.entries@[j].0@
    }

    /// The code list cached under a canonical key.
    pub open spec fn cached(&self, key: Seq<char>) -> Option<Seq<String>> {
        match assoc_lookup(self.entries@, key) {
            Some(codes) => Some(codes@),
            None => None,
        }
    }

    pub fn new() -> (c: CountryCache)
        ensures
            c.wf(),
            c.entries@.len() == 0,
            forall|k: Seq<char>| #[trigger] c.cached(k) is None,
    {
        CountryCache { entries: Vec::new() }
    }

    /// Position of the entry that holds `key`, if any.
    fn find_index(&self, key: &String) -> (r: Option<usize>)
        ensures
            match r {
                Some(i) => {
                    &&& i < self.entries@.len()
                    &&& self.entries@[i as int].0@ == key@
                    &&& forall|j: int| 0 <= j < i ==> self.entries@[j].0@ != key@
                    &&& assoc_lookup(self.entries@, key@) == Some(self.entries@[i as int].1)
                },
                None => assoc_lookup(self.entries@, key@) is None,
            },
    {
        let mut i: usize = 0;
        while i < self.entries.len()
            invariant
                i <= self.entries@.len(),
                forall|j: int| 0 <= j < i ==> self.entries@[j].0@ != key@,
            decreases self.entries@.len() - i,
        {
            if self.entries[i].0 == *key {
                proof {
                    lemma_assoc_lookup_at(self.entries@, key@, i as int);
                }
                return Some(i);
            }
            i = i + 1;
        }
        proof {
            lemma_assoc_lookup_none(self.entries@, key@);
        }
        None
    }

    /// Read path: the codes cached under a canonical key, copied out.
    pub fn lookup_canonical(&self, key: &String) -> (r: Option<Vec<String>>)
        ensures
            match r {
                Some(codes) => self.cached(key@) == Some(codes@),
                None => self.cached(key@) is None,
            },
    {
        match self.find_index(key) {
            Some(i) => Some(clone_codes(&self.entries[i].1)),
            None => None,
        }
    }

    /// Write path: inserts or overwrites, wholesale, the entry for a
    /// canonical key. Of two racing writes for one key, the later wins.
    pub fn store_canonical(&mut self, key: String, codes: Vec<String>)
        requires
            old(self).wf(),
            lower_seq(key@) == key@,
        ensures
            final(self).wf(),
            final(self).cached(key@) == Some(codes@),
            forall|k: Seq<char>|
                k != key@ ==> #[trigger] final(self).cached(k) == old(self).cached(k),
            final(self).entries@.len() == if old(self).cached(key@) is Some {
                old(self).entries@.len() as int
            } else {
                old(self).entries@.len() + 1int
            },
    {
        let ghost pre = self.entries@;
        match self.find_index(&key) {
            Some(i) => {
                proof {
                    lemma_assoc_update(pre, i as int, key, codes);
                }
                self.entries.remove(i);
                self.entries.insert(i, (key, codes));
                proof {
                    assert(self.entries@ =~= pre.update(i as int, (key, codes)));
                    assert forall|a: int|
                        0 <= a < self.entries@.len() implies #[trigger] self.entries@[a].0@
                        == pre[a].0@ by {
                        if a != i {
                            assert(self.entries@[a] == pre[a]);
                        }
                    }
                }
            },
            None => {
                proof {
                    lemma_assoc_push(pre, key, codes);
                    lemma_assoc_lookup_none(pre, key@);
                }
                self.entries.push((key, codes));
                proof {
                    assert forall|a: int, b: int|
                        0 <= a < b < self.entries@.len() implies self.entries@[a].0@
                        != self.entries@[b].0@ by {
                        if b < pre.len() {
                            assert(self.entries@[a] == pre[a] && self.entries@[b] == pre[b]);
                        } else {
                            assert(self.entries@[b].0@ == key@);
                            assert(pre[a].0@ != key@);
                        }
                    }
                }
            },
        }
    }

    /// Applies one upstream outcome under a canonical key: a fetched code
    /// list is cached and handed back; an unknown country or a failed fetch
    /// leaves the cache unchanged, so a later resolution retries upstream.
    pub fn store_fetched(&mut self, key: String, fetched: ResolveOutcome) -> (r: ResolveOutcome)
        requires
            old(self).wf(),
            lower_seq(key@) == key@,
        ensures
            final(self).wf(),
            r == fetched,
            match fetched {
                Ok(Some(codes)) => {
                    &&& final(self).cached(key@) == Some(codes@)
                    &&& forall|k: Seq<char>|
                        k != key@ ==> #[trigger] final(self).cached(k) == old(self).cached(k)
                    &&& final(self).entries@.len() == if old(self).cached(key@) is Some {
                        old(self).entries@.len() as int
                    } else {
                        old(self).entries@.len() + 1int
                    }
                },
                Ok(None) => *final(self) == *old(self),
                Err(_) => *final(self) == *old(self),
            },
    {
        match fetched {
            Ok(Some(codes)) => {
                let copy = clone_codes(&codes);
                self.store_canonical(key, copy);
                Ok(Some(codes))
            },
            Ok(None) => Ok(None),
            Err(e) => Err(e),
        }
    }

    /// Resolution: the name is folded to its canonical form before any
    /// lookup or storage; a cached entry answers without invoking the
    /// resolver; a miss fetches exactly once and caches only a found list.
    pub fn get_currency<R: CountryResolver>(&mut self, country: &str, resolver: &mut R) -> (r:
        ResolveOutcome)
        requires
            old(self).wf(),
        ensures
            final(self).wf(),
            old(self).cached(lower_seq(country@)) is Some ==> {
                &&& *final(self) == *old(self)
                &&& *final(resolver) == *old(resolver)
                &&& r matches Ok(found) && found matches Some(codes) && Some(codes@) == old(
                    self,
                ).cached(lower_seq(country@))
            },
            old(self).cached(lower_seq(country@)) is None ==> {
                &&& final(resolver).calls() == old(resolver).calls() + 1
                &&& match r {
                    Ok(Some(codes)) => {
                        &&& final(self).cached(lower_seq(country@)) == Some(codes@)
                        &&& forall|k: Seq<char>|
                            k != lower_seq(country@) ==> #[trigger] final(self).cached(k) == old(
                                self,
                            ).cached(k)
                        &&& final(self).entries@.len() == old(self).entries@.len() + 1int
                    },
                    Ok(None) => *final(self) == *old(self),
                    Err(_) => *final(self) == *old(self),
                }
            },
    {
        let key = normalize(country);
        proof {
            lemma_lower_idempotent(country@);
        }
        match self.lookup_canonical(&key) {
            Some(codes) => Ok(Some(codes)),
            None => {
                let fetched = resolver.fetch(key.as_str());
                self.store_fetched(key, fetched)
            },
        }
    }
}

/// Case-insensitivity of the cache key: every resolution addresses the
/// entry of the canonical (folded) name, and folding is canonical, so the
/// canonical name itself, or any spelling that folds to it, reads and
/// writes one and the same entry.
pub proof fn lemma_case_insensitive_entry(cache: CountryCache, name: Seq<char>)
    ensures
        cache.cached(lower_seq(lower_seq(name))) == cache.cached(lower_seq(name)),
{
    lemma_lower_idempotent(name);
}

/// A resolver double that serves a fixed script of upstream outcomes, front
/// first, and counts its invocations; once the script is exhausted, every
/// further fetch fails.
pub struct ScriptedResolver {
    /// Outcomes still to serve, front first.
    pub script: Vec<ResolveOutcome>,
    /// How often `fetch` has run (saturating).
    pub count: u64,
    /// Ghost invocation counter behind [`Self::calls`].
    pub invocations: Ghost<int>,
}

impl ScriptedResolver {
    pub fn new(script: Vec<ResolveOutcome>) -> (r: ScriptedResolver)
        ensures
            r.script@ == script@,
            r.count == 0,
    {
        ScriptedResolver { script, count: 0, invocations: Ghost(0) }
    }
}

impl CountryResolver for ScriptedResolver {
    open spec fn calls(&self) -> int {
        self.invocations@
    }

    fn fetch(&mut self, _country: &str) -> (r: ResolveOutcome)
        ensures
            old(self).script@.len() > 0 ==> r == old(self).script@[0] && final(self).script@
                == old(self).script@.drop_first(),
            old(self).script@.len() == 0 ==> r is Err && final(self).script@ == old(self).script@,
            final(self).count as int == if old(self).count < u64::MAX {
                old(self).count + 1
            } else {
                old(self).count as int
            },
    {
        self.invocations = Ghost(self.invocations@ + 1);
        if self.count < u64::MAX {
            self.count = self.count + 1;
        }
        if self.script.len() > 0 {
            let front = self.script.remove(0);
            proof {
                assert(self.script@ =~= old(self).script@.drop_first());
            }
            front
        } else {
            Err("script exhausted".to_owned())
        }
    }
}

} // verus!
