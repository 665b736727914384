//! Single-slot, time-bounded exchange-rate snapshot cache.
//!
//! The cache holds at most one rate table with an expiry instant declared by
//! the upstream service. A fresh snapshot answers directly; on a miss or
//! expiry the whole table is downloaded again through the injected
//! [`RateFetcher`] capability and replaces the snapshot wholesale.
//!
//! Rate values are fixed-point integers: a currency's worth in integer units
//! relative to the common base currency. The rate of a pair is the exact
//! rational `num / den`, where `num` is the table value of the target code
//! and `den` the table value of the source code.

use vstd::prelude::*;
use crate::assoc::{assoc_lookup, lemma_assoc_lookup_at, lemma_assoc_lookup_none};

verus! {

/// The exact exchange rate of one currency pair: one unit of the source
/// currency is worth `num / den` units of the target currency.
#[derive(Clone, Copy, PartialEq, Eq, Structural, Debug)]
pub struct Rate {
    /// Table value of the target currency code.
    pub num: u64,
    /// Table value of the source currency code.
    pub den: u64,
}

/// One wholesale download of the rate table: every known currency code with
/// its fixed-point value, plus the upstream-declared expiry instant.
#[derive(Clone)]
pub struct RateSnapshot {
    /// First instant (Unix seconds) at which this table is no longer valid.
    pub expiry_unix: u64,
    /// Currency code to fixed-point value, relative to one base currency.
    pub rates: Vec<(String, u64)>,
}

/// Upstream outcome of one rate-table download.
pub type FetchOutcome = Result<RateSnapshot, String>;

/// Capability that downloads the full rate table from the upstream exchange
/// service. Implementations count their invocations, so contracts can say
/// when no refresh happens.
pub trait RateFetcher {
    /// How often `fetch` has been invoked. Implementations outside the
    /// verified core need not track this; for them it defaults to zero.
    open spec fn calls(&self) -> int {
        0
    }

    /// One wholesale download of the rate table.
    fn fetch(&mut self) -> (r: FetchOutcome)
        ensures
            final(self).calls() == old(self).calls() + 1,
    ;
}

impl RateSnapshot {
    /// Every table value is positive: a zero value could not serve as a
    /// divisor, so a table carrying one is rejected as malformed.
    pub open spec fn wf(&self) -> bool {
        forall|i: int| 0 <= i < self.rates@.len() ==> (#[trigger] self.rates@[i]).1 >= 1
    }

    /// The table value of a currency code.
    pub open spec fn value_of(&self, code: Seq<char>) -> Option<u64> {
        assoc_lookup(self.rates@, code)
    }

    /// The rate of a pair; `None` when either code is absent from the table.
    pub open spec fn rate_between(&self, from: Seq<char>, to: Seq<char>) -> Option<Rate> {
        match (self.value_of(from), self.value_of(to)) {
            (Some(den), Some(num)) => Some(Rate { num, den }),
            _ => None,
        }
    }

    /// A snapshot is valid strictly before its expiry instant.
    pub open spec fn fresh_at(&self, now: u64) -> bool {
        now < self.expiry_unix
    }

    /// In a well-formed table, every priced pair has positive entries.
    pub proof fn lemma_rate_positive(&self, from: Seq<char>, to: Seq<char>)
        requires
            self.wf(),
            self.rate_between(from, to) is Some,
        ensures
            self.rate_between(from, to)->Some_0.den >= 1,
            self.rate_between(from, to)->Some_0.num >= 1,
    {
        crate::assoc::lemma_assoc_lookup_some(self.rates@, from);
        crate::assoc::lemma_assoc_lookup_some(self.rates@, to);
    }

    /// Checks the well-formedness of a downloaded table.
    pub fn check_positive(&self) -> (r: bool)
        ensures
            r == self.wf(),
    {
        let mut i: usize = 0;
        while i < self.rates.len()
            invariant
                i <= self.rates@.len(),
                forall|j: int| 0 <= j < i ==> (#[trigger] self.rates@[j]).1 >= 1,
            decreases self.rates@.len() - i,
        {
            if self.rates[i].1 == 0 {
                return false;
            }
            i = i + 1;
        }
        true
    }

    /// The table value of a currency code.
    pub fn find_value(&self, code: &str) -> (r: Option<u64>)
        ensures
            r == self.value_of(code@),
    {
        let key: String = code.to_owned();
        let mut i: usize = 0;
        while i < self.rates.len()
            invariant
                i <= self.rates@.len(),
                key@ == code@,
                forall|j: int| 0 <= j < i ==> self.rates@[j].0@ != code@,
            decreases self.rates@.len() - i,
        {
            if self.rates[i].0 == key {
                proof {
                    lemma_assoc_lookup_at(self.rates@, code@, i as int);
                }
                return Some(self.rates[i].1);
            }
            i = i + 1;
        }
        proof {
            lemma_assoc_lookup_none(self.rates@, code@);
        }
        None
    }

    /// The rate of a pair, computed from this table alone.
    pub fn rate(&self, from: &str, to: &str) -> (r: Option<Rate>)
        ensures
            r == self.rate_between(from@, to@),
    {
        let den = self.find_value(from);
        let num = self.find_value(to);
        match (den, num) {
            (Some(den), Some(num)) => Some(Rate { num, den }),
            _ => None,
        }
    }
}

/// The snapshot cache: at most one rate table at a time, or none.
#[derive(Clone)]
pub struct RatesCache {
    pub snapshot: Option<RateSnapshot>,
}

impl RatesCache {
    /// Whatever snapshot is held is well-formed.
    pub open spec fn wf(&self) -> bool {
        self.snapshot matches Some(s) ==> s.wf()
    }

    /// A snapshot is held and is still valid at `now`.
    pub open spec fn has_fresh(&self, now: u64) -> bool {
        self.snapshot matches Some(s) && s.fresh_at(now)
    }

    pub fn new() -> (c: RatesCache)
        ensures
            c.wf(),
            c.snapshot is None,
    {
        RatesCache { snapshot: None }
    }

    /// Applies one download outcome: a well-formed table replaces the
    /// snapshot wholesale (no merge with prior data) and the pair is
    /// answered from the new table alone; a failed download or a malformed
    /// table leaves the cache unchanged.
    pub fn install_fetched(&mut self, fetched: FetchOutcome, from: &str, to: &str) -> (r: Result<
        Option<Rate>,
        String,
    >)
        requires
            old(self).wf(),
        ensures
            final(self).wf(),
            match fetched {
                Ok(snap) => if snap.wf() {
                    final(self).snapshot == Some(snap) && r == Ok::<Option<Rate>, String>(
                        snap.rate_between(from@, to@),
                    )
                } else {
                    *final(self) == *old(self) && r is Err
                },
                Err(e) => *final(self) == *old(self) && r == Err::<Option<Rate>, String>(e),
            },
    {
        match fetched {
            Ok(snap) => {
                if snap.check_positive() {
                    let rate = snap.rate(from, to);
                    self.snapshot = Some(snap);
                    Ok(rate)
                } else {
                    Err("malformed rate table".to_owned())
                }
            },
            Err(e) => Err(e),
        }
    }

    /// The cache's lookup contract: a fresh snapshot answers directly with
    /// no external call; on a miss or expiry, exactly one refresh runs
    /// before answering, and a successful refresh replaces the snapshot
    /// wholesale. Expiry is the upstream-declared instant, trusted verbatim.
    pub fn get_exchange_rate<F: RateFetcher>(
        &mut self,
        from: &str,
        to: &str,
        now: u64,
        fetcher: &mut F,
    ) -> (r: Result<Option<Rate>, String>)
        requires
            old(self).wf(),
        ensures
            final(self).wf(),
            old(self).has_fresh(now) ==> {
                &&& *final(self) == *old(self)
                &&& *final(fetcher) == *old(fetcher)
                &&& r == Ok::<Option<Rate>, String>(
                    old(self).snapshot->Some_0.rate_between(from@, to@),
                )
            },
            !old(self).has_fresh(now) ==> {
                &&& final(fetcher).calls() == old(fetcher).calls() + 1
                &&& (r matches Ok(rate) ==> final(self).snapshot matches Some(s) && s.wf()
                    && rate == s.rate_between(from@, to@))
                &&& (r is Err ==> *final(self) == *old(self))
            },
    {
        if let Some(snap) = &self.snapshot {
            if now < snap.expiry_unix {
                return Ok(snap.rate(from, to));
            }
        }
        let fetched = fetcher.fetch();
        self.install_fetched(fetched, from, to)
    }
}

/// A fetcher double that serves a fixed script of download outcomes, front
/// first, and counts its invocations; once the script is exhausted, every
/// further fetch fails.
pub struct ScriptedRateFetcher {
    /// Outcomes still to serve, front first.
    pub script: Vec<FetchOutcome>,
    /// How often `fetch` has run (saturating).
    pub count: u64,
    /// Ghost invocation counter behind [`Self::calls`].
    pub invocations: Ghost<int>,
}

impl ScriptedRateFetcher {
    pub fn new(script: Vec<FetchOutcome>) -> (r: ScriptedRateFetcher)
        ensures
            r.script@ == script@,
            r.count == 0,
    {
        ScriptedRateFetcher { script, count: 0, invocations: Ghost(0) }
    }
}

impl RateFetcher for ScriptedRateFetcher {
    open spec fn calls(&self) -> int {
        self.invocations@
    }

    fn fetch(&mut self) -> (r: FetchOutcome)
        ensures
            old(self).script@.len() > 0 ==> r == old(self).script@[0] && final(self).script@
                == old(self).script@.drop_first(),
            old(self).script@.len() == 0 ==> r is Err && final(self).script@ == old(self).script@,
            final(self).count as int == if old(self).count < u64::MAX {
                old(self).count + 1
            } else {
                old(self).count as int
            },
    {
        self.invocations = Ghost(self.invocations@ + 1);
        if self.count < u64::MAX {
            self.count = self.count + 1;
        }
        if self.script.len() > 0 {
            let front = self.script.remove(0);
            proof {
                assert(self.script@ =~= old(self).script@.drop_first());
            }
            front
        } else {
            Err("script exhausted".to_owned())
        }
    }
}

} // verus!
