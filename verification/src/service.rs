//! The conversion orchestrator.
//!
//! One request runs a linear pipeline: resolve both country names through
//! the country cache, expand the cartesian product of their currency codes,
//! price every pair through the rate snapshot cache, and assemble the
//! response. The batch is all-or-nothing: a single unresolvable pair or
//! upstream failure discards everything computed so far.
//!
//! Amounts are fixed-point integers in the source currency's base units; a
//! converted amount is the exact rational rate applied to the amount,
//! rounded down.

use vstd::prelude::*;
use vstd::string::StringExecFns;
use crate::country::{CountryCache, CountryResolver};
use crate::exchange::{Rate, RateFetcher, RateSnapshot, RatesCache};
use crate::text::lower_seq;

verus! {

/// One incoming request: two country names and a fixed-point amount.
#[derive(Clone, PartialEq, Eq, Debug)]
pub struct ConversionRequest {
    pub from: String,
    pub to: String,
    pub amount: u64,
}

/// One converted pair of the response, in the order the codes resolved.
#[derive(Clone, PartialEq, Eq, Debug)]
pub struct Conversion {
    /// Source currency code.
    pub from: String,
    /// Target currency code.
    pub to: String,
    /// Converted fixed-point amount.
    pub amount: u128,
}

/// What was being resolved when an upstream call failed.
#[derive(Clone, PartialEq, Eq, Debug)]
pub enum UpstreamEntity {
    /// Resolving this country name (as given in the request).
    Country(String),
    /// Pricing this (source code, target code) pair.
    Pair(String, String),
}

/// Why a conversion request failed.
#[derive(Clone, PartialEq, Eq, Debug)]
pub enum ConversionError {
    /// The request body could not be read; carries the parse failure text.
    BadRequest(String),
    /// The named country is unknown to the resolution service.
    CountryNotFound(String),
    /// No rate could be resolved for the pair (source code, target code).
    RateNotFound(String, String),
    /// A transport or parse failure from an upstream service, naming what
    /// was being resolved and carrying the upstream error text.
    Upstream(UpstreamEntity, String),
}

impl ConversionError {
    /// The status the service boundary answers with: 400 for a malformed
    /// request, 404 for an unknown country or pair, 500 for an upstream
    /// failure.
    pub fn status_code(&self) -> (c: u16)
        ensures
            c == match self {
                ConversionError::BadRequest(_) => 400u16,
                ConversionError::CountryNotFound(_) => 404u16,
                ConversionError::RateNotFound(_, _) => 404u16,
                ConversionError::Upstream(_, _) => 500u16,
            },
    {
        match self {
            ConversionError::BadRequest(_) => 400,
            ConversionError::CountryNotFound(_) => 404,
            ConversionError::RateNotFound(_, _) => 404,
            ConversionError::Upstream(_, _) => 500,
        }
    }

    /// A human-readable message naming the failing entity.
    pub fn message(&self) -> (m: String)
        ensures
            m@ == match self {
                ConversionError::BadRequest(detail) => detail@,
                ConversionError::CountryNotFound(name) => "cannot find country: "@ + name@,
                ConversionError::RateNotFound(f, t) => "cannot find exchange rate: "@ + f@ + t@,
                ConversionError::Upstream(entity, _) => match entity {
                    UpstreamEntity::Country(name) => "cannot find country: "@ + name@,
                    UpstreamEntity::Pair(f, t) => "cannot find exchange rate: "@ + f@ + t@,
                },
            },
    {
        match self {
            ConversionError::BadRequest(detail) => detail.clone(),
            ConversionError::CountryNotFound(name) => "cannot find country: ".to_owned().concat(
                name.as_str(),
            ),
            ConversionError::RateNotFound(f, t) => "cannot find exchange rate: ".to_owned().concat(
                f.as_str(),
            ).concat(t.as_str()),
            ConversionError::Upstream(entity, _) => match entity {
                UpstreamEntity::Country(name) => "cannot find country: ".to_owned().concat(
                    name.as_str(),
                ),
                UpstreamEntity::Pair(f, t) => "cannot find exchange rate: ".to_owned().concat(
                    f.as_str(),
                ).concat(t.as_str()),
            },
        }
    }
}

/// The converted amount of one pair: the exact rational rate applied to the
/// fixed-point amount, rounded down.
pub open spec fn converted_amount(amount: u64, rate: Rate) -> int {
    (amount * rate.num) / (rate.den as int)
}

/// Computes the converted amount. Exact, because a product of two 64-bit
/// values always fits in 128 bits.
pub fn apply_rate(amount: u64, rate: Rate) -> (r: u128)
    requires
        rate.den >= 1,
    ensures
        r == converted_amount(amount, rate),
{
    proof {
        assert((amount as int) * (rate.num as int) < 0x1_0000_0000_0000_0000_0000_0000_0000_0000int)
            by (nonlinear_arith)
            requires
                amount as int <= 0xffff_ffff_ffff_ffffint,
                rate.num as int <= 0xffff_ffff_ffff_ffffint,
                0 <= amount as int,
                0 <= rate.num as int,
        ;
    }
    ((amount as u128) * (rate.num as u128)) / (rate.den as u128)
}

/// Position of the pair (i, j) in a cartesian walk whose inner list has
/// `width` items.
pub open spec fn pair_index(width: int, i: int, j: int) -> int {
    i * width + j
}

/// Cartesian positions grow lexicographically in (i, j).
pub proof fn lemma_pair_index_order(width: int, i: int, j: int, a: int, b: int)
    requires
        0 <= j < width,
        0 <= b < width,
        0 <= a,
        0 <= i,
        a < i || (a == i && b < j),
    ensures
        0 <= pair_index(width, a, b) < pair_index(width, i, j),
{
    assert(0 <= a * width + b < i * width + j) by (nonlinear_arith)
        requires
            0 <= j < width,
            0 <= b < width,
            0 <= a,
            0 <= i,
            a < i || (a == i && b < j),
    ;
}

/// Every cartesian position lies below the product of the list lengths.
pub proof fn lemma_pair_index_in_range(width: int, height: int, i: int, j: int)
    requires
        0 <= i < height,
        0 <= j < width,
    ensures
        0 <= pair_index(width, i, j) < height * width,
{
    assert(0 <= i * width + j < height * width) by (nonlinear_arith)
        requires
            0 <= i < height,
            0 <= j < width,
    ;
}

/// All pairs lexicographically before (i, j) hold their codes in `out`, at
/// their cartesian positions.
pub open spec fn codes_upto(
    out: Seq<Conversion>,
    fc: Seq<String>,
    tc: Seq<String>,
    i: int,
    j: int,
) -> bool {
    forall|a: int, b: int|
        0 <= a < fc.len() && 0 <= b < tc.len() && (a < i || (a == i && b < j)) ==> {
            let c = out[#[trigger] pair_index(tc.len() as int, a, b)];
            c.from@ == fc[a]@ && c.to@ == tc[b]@
        }
}

/// All pairs lexicographically before (i, j) are priced in the table of
/// `snap`, and their amounts in `out` are the exact conversions under it.
pub open spec fn priced_upto(
    out: Seq<Conversion>,
    snap: RateSnapshot,
    fc: Seq<String>,
    tc: Seq<String>,
    amount: u64,
    i: int,
    j: int,
) -> bool {
    forall|a: int, b: int|
        #![trigger snap.rate_between(fc[a]@, tc[b]@)]
        0 <= a < fc.len() && 0 <= b < tc.len() && (a < i || (a == i && b < j)) ==> {
            &&& snap.rate_between(fc[a]@, tc[b]@) is Some
            &&& out[pair_index(tc.len() as int, a, b)].amount == converted_amount(
                amount,
                snap.rate_between(fc[a]@, tc[b]@)->Some_0,
            )
        }
}

/// The response holds one conversion per (from, to) pair, in cartesian
/// order: the outer walk follows the source country's codes, the inner walk
/// the target country's codes.
pub open spec fn cartesian_codes(out: Seq<Conversion>, fc: Seq<String>, tc: Seq<String>) -> bool {
    &&& out.len() == fc.len() * tc.len()
    &&& codes_upto(out, fc, tc, fc.len() as int, 0)
}

/// The pair (f, t) is the cartesian pair at position (i, j) of the two
/// code lists.
pub open spec fn names_pair(
    f: String,
    t: String,
    fc: Seq<String>,
    tc: Seq<String>,
    i: int,
    j: int,
) -> bool {
    0 <= i < fc.len() && 0 <= j < tc.len() && f@ == fc[i]@ && t@ == tc[j]@
}

/// Every pair lexicographically before (i, j) has a rate in `snap`'s table.
pub open spec fn pairs_priced_before(
    snap: RateSnapshot,
    fc: Seq<String>,
    tc: Seq<String>,
    i: int,
    j: int,
) -> bool {
    forall|a: int, b: int|
        #![trigger snap.rate_between(fc[a]@, tc[b]@)]
        0 <= a < fc.len() && 0 <= b < tc.len() && (a < i || (a == i && b < j))
            ==> snap.rate_between(fc[a]@, tc[b]@) is Some
}

/// Every (from, to) pair drawn from the two code lists has a rate in
/// `snap`'s table.
pub open spec fn all_pairs_priced(snap: RateSnapshot, fc: Seq<String>, tc: Seq<String>) -> bool {
    pairs_priced_before(snap, fc, tc, fc.len() as int, 0)
}

/// Some positive rate converts `amount` exactly to the amount of `c`: the
/// rate of the table that priced `c`'s pair, whichever refresh installed it.
pub open spec fn priced_by_some(c: Conversion, amount: u64) -> bool {
    exists|rate: Rate| #![auto] rate.den >= 1 && c.amount == converted_amount(amount, rate)
}

/// Before the very first cartesian position there is nothing to state.
pub proof fn lemma_upto_vacuous(
    out: Seq<Conversion>,
    snap: RateSnapshot,
    fc: Seq<String>,
    tc: Seq<String>,
    amount: u64,
    i: int,
    j: int,
)
    requires
        0 <= i,
        0 <= j < tc.len(),
        pair_index(tc.len() as int, i, j) == 0,
    ensures
        codes_upto(out, fc, tc, i, j),
        priced_upto(out, snap, fc, tc, amount, i, j),
{
    assert forall|a: int, b: int|
        0 <= a < fc.len() && 0 <= b < tc.len() && (a < i || (a == i && b < j)) implies {
        let c = out[#[trigger] pair_index(tc.len() as int, a, b)];
        c.from@ == fc[a]@ && c.to@ == tc[b]@
    } by {
        lemma_pair_index_order(tc.len() as int, i, j, a, b);
        assert(false);
    }
    assert forall|a: int, b: int|
        #![trigger snap.rate_between(fc[a]@, tc[b]@)]
        0 <= a < fc.len() && 0 <= b < tc.len() && (a < i || (a == i && b < j)) implies {
        &&& snap.rate_between(fc[a]@, tc[b]@) is Some
        &&& out[pair_index(tc.len() as int, a, b)].amount == converted_amount(
            amount,
            snap.rate_between(fc[a]@, tc[b]@)->Some_0,
        )
    } by {
        lemma_pair_index_order(tc.len() as int, i, j, a, b);
        assert(false);
    }
}

/// Appending the conversion of pair (i, j) at its cartesian position
/// extends the code-layout statement by one position.
pub proof fn lemma_codes_extend(
    out: Seq<Conversion>,
    c: Conversion,
    fc: Seq<String>,
    tc: Seq<String>,
    i: int,
    j: int,
)
    requires
        0 <= i < fc.len(),
        0 <= j < tc.len(),
        out.len() == pair_index(tc.len() as int, i, j),
        codes_upto(out, fc, tc, i, j),
        c.from@ == fc[i]@,
        c.to@ == tc[j]@,
    ensures
        codes_upto(out.push(c), fc, tc, i, j + 1),
{
    let pushed = out.push(c);
    assert forall|a: int, b: int|
        0 <= a < fc.len() && 0 <= b < tc.len() && (a < i || (a == i && b < j + 1)) implies {
        let d = pushed[#[trigger] pair_index(tc.len() as int, a, b)];
        d.from@ == fc[a]@ && d.to@ == tc[b]@
    } by {
        if a == i && b == j {
            assert(pushed[pair_index(tc.len() as int, a, b)] == c);
        } else {
            lemma_pair_index_order(tc.len() as int, i, j, a, b);
            assert(pushed[pair_index(tc.len() as int, a, b)] == out[pair_index(
                tc.len() as int, a, b)]);
        }
    }
}

/// Appending the conversion of pair (i, j) at its cartesian position
/// extends the pricing statement by one position.
pub proof fn lemma_priced_extend(
    out: Seq<Conversion>,
    c: Conversion,
    snap: RateSnapshot,
    fc: Seq<String>,
    tc: Seq<String>,
    amount: u64,
    i: int,
    j: int,
)
    requires
        0 <= i < fc.len(),
        0 <= j < tc.len(),
        out.len() == pair_index(tc.len() as int, i, j),
        priced_upto(out, snap, fc, tc, amount, i, j),
        snap.rate_between(fc[i]@, tc[j]@) is Some,
        c.amount == converted_amount(amount, snap.rate_between(fc[i]@, tc[j]@)->Some_0),
    ensures
        priced_upto(out.push(c), snap, fc, tc, amount, i, j + 1),
{
    let pushed = out.push(c);
    assert forall|a: int, b: int|
        #![trigger snap.rate_between(fc[a]@, tc[b]@)]
        0 <= a < fc.len() && 0 <= b < tc.len() && (a < i || (a == i && b < j + 1)) implies {
        &&& snap.rate_between(fc[a]@, tc[b]@) is Some
        &&& pushed[pair_index(tc.len() as int, a, b)].amount == converted_amount(
            amount,
            snap.rate_between(fc[a]@, tc[b]@)->Some_0,
        )
    } by {
        if a == i && b == j {
            assert(pushed[pair_index(tc.len() as int, a, b)] == c);
        } else {
            lemma_pair_index_order(tc.len() as int, i, j, a, b);
            assert(pushed[pair_index(tc.len() as int, a, b)] == out[pair_index(
                tc.len() as int, a, b)]);
        }
    }
}

/// Finishing one source code's inner walk lands on the next source code's
/// first position: the code-layout statement carries over.
pub proof fn lemma_codes_roll(out: Seq<Conversion>, fc: Seq<String>, tc: Seq<String>, i: int)
    requires
        0 <= i,
        codes_upto(out, fc, tc, i, tc.len() as int),
    ensures
        codes_upto(out, fc, tc, i + 1, 0),
{
    assert forall|a: int, b: int|
        0 <= a < fc.len() && 0 <= b < tc.len() && (a < i + 1 || (a == i + 1 && b < 0)) implies {
        let c = out[#[trigger] pair_index(tc.len() as int, a, b)];
        c.from@ == fc[a]@ && c.to@ == tc[b]@
    } by {
        assert(a < i || (a == i && b < tc.len() as int));
    }
}

/// Finishing one source code's inner walk lands on the next source code's
/// first position: the pricing statement carries over.
pub proof fn lemma_priced_roll(
    out: Seq<Conversion>,
    snap: RateSnapshot,
    fc: Seq<String>,
    tc: Seq<String>,
    amount: u64,
    i: int,
)
    requires
        0 <= i,
        priced_upto(out, snap, fc, tc, amount, i, tc.len() as int),
    ensures
        priced_upto(out, snap, fc, tc, amount, i + 1, 0),
{
    assert forall|a: int, b: int|
        #![trigger snap.rate_between(fc[a]@, tc[b]@)]
        0 <= a < fc.len() && 0 <= b < tc.len() && (a < i + 1 || (a == i + 1 && b < 0)) implies {
        &&& snap.rate_between(fc[a]@, tc[b]@) is Some
        &&& out[pair_index(tc.len() as int, a, b)].amount == converted_amount(
            amount,
            snap.rate_between(fc[a]@, tc[b]@)->Some_0,
        )
    } by {
        assert(a < i || (a == i && b < tc.len() as int));
    }
}

/// The orchestrator's state: both process-wide caches, constructed once at
/// process start and handed to every request handler.
#[derive(Clone)]
pub struct CurrencyService {
    pub country_cache: CountryCache,
    pub rates_cache: RatesCache,
}

impl CurrencyService {
    /// Both caches are well-formed.
    pub open spec fn wf(&self) -> bool {
        self.country_cache.wf() && self.rates_cache.wf()
    }

    pub fn new(country_cache: CountryCache, rates_cache: RatesCache) -> (s: CurrencyService)
        ensures
            s.country_cache == country_cache,
            s.rates_cache == rates_cache,
    {
        CurrencyService { country_cache, rates_cache }
    }

    /// One conversion request, end to end: resolve both countries, price the
    /// cartesian product of their codes pair by pair in order, and assemble
    /// the full response, or abort the whole batch on the first failure.
    ///
    /// An upstream failure on either side surfaces as `Upstream`; an unknown
    /// country as `CountryNotFound` naming it, before any rate work; an
    /// unpriced pair as `RateNotFound` naming it. On success the response is
    /// the complete cartesian product, and whenever at most one rate refresh
    /// ran, every amount is exact under the single surviving rate table.
    #[verifier::loop_isolation(false)]
    #[verifier::rlimit(100)]
    #[verifier::spinoff_prover]
    pub fn convert<R: CountryResolver, F: RateFetcher>(
        &mut self,
        request: &ConversionRequest,
        resolver: &mut R,
        fetcher: &mut F,
        now: u64,
    ) -> (r: Result<Vec<Conversion>, ConversionError>)
        requires
            old(self).wf(),
        ensures
            final(self).wf(),
            // the orchestrator itself never raises BadRequest
            !(r matches Err(ConversionError::BadRequest(_))),
            // at most one resolution per side, none for a cached country
            old(resolver).calls() <= final(resolver).calls() <= old(resolver).calls() + 2,
            old(fetcher).calls() <= final(fetcher).calls(),
            // two countries already cached are answered without touching
            // the resolver, and the country cache stays as it is
            (old(self).country_cache.cached(lower_seq(request.from@)) is Some && old(
                self,
            ).country_cache.cached(lower_seq(request.to@)) is Some) ==> {
                &&& *final(resolver) == *old(resolver)
                &&& final(self).country_cache == old(self).country_cache
            },
            // where no injected call decides — both countries cached and the
            // snapshot fresh at `now` — the outcome is owed: the batch
            // succeeds exactly when every cartesian pair is priced in the
            // snapshot, and otherwise aborts on an unpriced pair
            (old(self).country_cache.cached(lower_seq(request.from@)) is Some && old(
                self,
            ).country_cache.cached(lower_seq(request.to@)) is Some && old(
                self,
            ).rates_cache.has_fresh(now)) ==> {
                &&& (all_pairs_priced(
                    old(self).rates_cache.snapshot->Some_0,
                    old(self).country_cache.cached(lower_seq(request.from@))->Some_0,
                    old(self).country_cache.cached(lower_seq(request.to@))->Some_0,
                ) <==> r is Ok)
                &&& (r is Err ==> r->Err_0 is RateNotFound)
            },
            // every returned amount is the exact conversion under the table
            // that priced its pair, however many refreshes ran
            r matches Ok(out) ==> forall|k: int|
                0 <= k < out@.len() ==> priced_by_some(#[trigger] out@[k], request.amount),
            // an upstream failure names what was being resolved: a country of
            // the request (before any rate work), or a pair of the two
            // resolved code lists
            r matches Err(ConversionError::Upstream(entity, _)) ==> {
                &&& (entity is Country ==> {
                    &&& entity->Country_0@ == request.from@ || entity->Country_0@
                        == request.to@
                    &&& final(self).rates_cache == old(self).rates_cache
                    &&& *final(fetcher) == *old(fetcher)
                })
                &&& (entity is Pair ==> {
                    &&& final(self).country_cache.cached(lower_seq(request.from@)) is Some
                    &&& final(self).country_cache.cached(lower_seq(request.to@)) is Some
                    &&& exists|a: int, b: int|
                        #[trigger] names_pair(
                            entity->Pair_0,
                            entity->Pair_1,
                            final(self).country_cache.cached(lower_seq(request.from@))->Some_0,
                            final(self).country_cache.cached(lower_seq(request.to@))->Some_0,
                            a,
                            b,
                        )
                })
            },
            // success: both countries resolved, and the response is the full
            // cartesian product in (from, to) order; whenever at most one
            // refresh ran, every amount is exact under the surviving table
            r matches Ok(out) ==> {
                &&& final(self).country_cache.cached(lower_seq(request.from@)) matches Some(fc)
                    && final(self).country_cache.cached(lower_seq(request.to@)) matches Some(tc)
                    && cartesian_codes(out@, fc, tc)
                    && (final(fetcher).calls() <= old(fetcher).calls() + 1 && out@.len() > 0 ==> {
                        final(self).rates_cache.snapshot matches Some(snap) && priced_upto(
                            out@,
                            snap,
                            fc,
                            tc,
                            request.amount,
                            fc.len() as int,
                            0,
                        )
                    })
            },
            // unknown country: named, and no rate work at all happened
            r matches Err(ConversionError::CountryNotFound(name)) ==> {
                &&& name@ == request.from@ || name@ == request.to@
                &&& final(self).rates_cache == old(self).rates_cache
                &&& *final(fetcher) == *old(fetcher)
            },
            // unpriced pair: named, drawn from the two resolved code lists,
            // and absent from the surviving snapshot; nothing is returned
            r matches Err(ConversionError::RateNotFound(f, t)) ==> {
                &&& final(self).country_cache.cached(lower_seq(request.from@)) is Some
                &&& final(self).country_cache.cached(lower_seq(request.to@)) is Some
                &&& exists|a: int, b: int|
                    #[trigger] names_pair(
                        f,
                        t,
                        final(self).country_cache.cached(lower_seq(request.from@))->Some_0,
                        final(self).country_cache.cached(lower_seq(request.to@))->Some_0,
                        a,
                        b,
                    )
                &&& final(self).rates_cache.snapshot is Some
                &&& final(self).rates_cache.snapshot->Some_0.rate_between(f@, t@) is None
            },
            // with a fresh snapshot the batch aborts exactly on the first
            // unpriced pair of the cartesian walk
            old(self).rates_cache.has_fresh(now) ==> (r matches Err(
                ConversionError::RateNotFound(f, t),
            ) ==> exists|i: int, j: int|
                {
                    &&& #[trigger] names_pair(
                        f,
                        t,
                        final(self).country_cache.cached(lower_seq(request.from@))->Some_0,
                        final(self).country_cache.cached(lower_seq(request.to@))->Some_0,
                        i,
                        j,
                    )
                    &&& pairs_priced_before(
                        old(self).rates_cache.snapshot->Some_0,
                        final(self).country_cache.cached(lower_seq(request.from@))->Some_0,
                        final(self).country_cache.cached(lower_seq(request.to@))->Some_0,
                        i,
                        j,
                    )
                }),
            // a fresh snapshot is never refreshed nor replaced
            old(self).rates_cache.has_fresh(now) ==> {
                &&& final(self).rates_cache == old(self).rates_cache
                &&& *final(fetcher) == *old(fetcher)
            },
    {
        let from_res = self.country_cache.get_currency(request.from.as_str(), resolver);
        let to_res = self.country_cache.get_currency(request.to.as_str(), resolver);
        let from_found = match from_res {
            Err(e) => {
                return Err(
                    ConversionError::Upstream(
                        UpstreamEntity::Country(request.from.clone()),
                        e,
                    ),
                );
            },
            Ok(v) => v,
        };
        let to_found = match to_res {
            Err(e) => {
                return Err(
                    ConversionError::Upstream(UpstreamEntity::Country(request.to.clone()), e),
                );
            },
            Ok(v) => v,
        };
        let from_codes = match from_found {
            None => {
                return Err(ConversionError::CountryNotFound(request.from.clone()));
            },
            Some(v) => v,
        };
        let to_codes = match to_found {
            None => {
                return Err(ConversionError::CountryNotFound(request.to.clone()));
            },
            Some(v) => v,
        };

        let ghost ccr = self.country_cache;
        let ghost rc0 = self.rates_cache;
        let ghost fetch0 = fetcher.calls();
        let ghost fetcher0 = *fetcher;
        let ghost old_fresh = rc0.has_fresh(now);
        let ghost fc = from_codes@;
        let ghost tc = to_codes@;
        let ghost width = tc.len() as int;

        let mut out: Vec<Conversion> = Vec::new();
        let mut i: usize = 0;
        while i < from_codes.len()
            invariant
                i <= fc.len(),
                fc == from_codes@,
                tc == to_codes@,
                self.wf(),
                self.country_cache == ccr,
                ccr.cached(lower_seq(request.from@)) == Some(fc),
                ccr.cached(lower_seq(request.to@)) == Some(tc),
                out@.len() == pair_index(width, i as int, 0),
                fetcher.calls() >= fetch0,
                codes_upto(out@, fc, tc, i as int, 0),
                forall|k: int|
                    0 <= k < out@.len() ==> priced_by_some(#[trigger] out@[k], request.amount),
                (fetcher.calls() == fetch0 && out@.len() > 0) ==> self.rates_cache.has_fresh(now),
                (fetcher.calls() <= fetch0 + 1 && out@.len() > 0) ==> self.rates_cache.snapshot
                    is Some && priced_upto(
                    out@,
                    self.rates_cache.snapshot->Some_0,
                    fc,
                    tc,
                    request.amount,
                    i as int,
                    0,
                ),
                old_fresh ==> self.rates_cache == rc0 && *fetcher == fetcher0,
            decreases fc.len() - i,
        {
            let mut j: usize = 0;
            while j < to_codes.len()
                invariant
                    i < fc.len(),
                    j <= tc.len(),
                    out@.len() == pair_index(width, i as int, j as int),
                    fetcher.calls() >= fetch0,
                    self.wf(),
                    self.country_cache == ccr,
                    codes_upto(out@, fc, tc, i as int, j as int),
                    forall|k: int|
                        0 <= k < out@.len() ==> priced_by_some(#[trigger] out@[k], request.amount),
                    (fetcher.calls() == fetch0 && out@.len() > 0) ==> self.rates_cache.has_fresh(
                        now,
                    ),
                    (fetcher.calls() <= fetch0 + 1 && out@.len() > 0) ==> self.rates_cache.snapshot
                        is Some && priced_upto(
                        out@,
                        self.rates_cache.snapshot->Some_0,
                        fc,
                        tc,
                        request.amount,
                        i as int,
                        j as int,
                    ),
                    old_fresh ==> self.rates_cache == rc0 && *fetcher == fetcher0,
                decreases tc.len() - j,
            {
                let ghost pre_calls = fetcher.calls();
                let ghost pre_rc = self.rates_cache;
                let ghost out_pre = out@;
                let rr = self.rates_cache.get_exchange_rate(
                    from_codes[i].as_str(),
                    to_codes[j].as_str(),
                    now,
                    fetcher,
                );
                match rr {
                    Err(e) => {
                        let source = from_codes[i].clone();
                        let target = to_codes[j].clone();
                        let failing = UpstreamEntity::Pair(source, target);
                        proof {
                            assert(self.country_cache.cached(lower_seq(request.from@))->Some_0
                                == fc);
                            assert(self.country_cache.cached(lower_seq(request.to@))->Some_0
                                == tc);
                            assert(names_pair(
                                failing->Pair_0,
                                failing->Pair_1,
                                self.country_cache.cached(lower_seq(request.from@))->Some_0,
                                self.country_cache.cached(lower_seq(request.to@))->Some_0,
                                i as int,
                                j as int,
                            ));
                        }
                        return Err(ConversionError::Upstream(failing, e));
                    },
                    Ok(None) => {
                        let source = from_codes[i].clone();
                        let target = to_codes[j].clone();
                        proof {
                            assert(self.country_cache.cached(lower_seq(request.from@))->Some_0
                                == fc);
                            assert(self.country_cache.cached(lower_seq(request.to@))->Some_0
                                == tc);
                            assert(names_pair(
                                source,
                                target,
                                self.country_cache.cached(lower_seq(request.from@))->Some_0,
                                self.country_cache.cached(lower_seq(request.to@))->Some_0,
                                i as int,
                                j as int,
                            ));
                            assert(self.rates_cache.snapshot is Some);
                            assert(self.rates_cache.snapshot->Some_0.rate_between(
                                source@,
                                target@,
                            ) is None);
                            if old_fresh {
                                let snap0 = old(self).rates_cache.snapshot->Some_0;
                                assert(snap0 == rc0.snapshot->Some_0);
                                if out@.len() == 0 {
                                    lemma_upto_vacuous(
                                        out@,
                                        snap0,
                                        fc,
                                        tc,
                                        request.amount,
                                        i as int,
                                        j as int,
                                    );
                                }
                                assert(priced_upto(
                                    out@,
                                    snap0,
                                    fc,
                                    tc,
                                    request.amount,
                                    i as int,
                                    j as int,
                                ));
                                assert forall|a: int, b: int|
                                    #![trigger snap0.rate_between(fc[a]@, tc[b]@)]
                                    0 <= a < fc.len() && 0 <= b < tc.len() && (a < i as int || (a
                                        == i as int && b < j as int)) implies snap0.rate_between(
                                    fc[a]@,
                                    tc[b]@,
                                ) is Some by {}
                                assert(pairs_priced_before(
                                    old(self).rates_cache.snapshot->Some_0,
                                    self.country_cache.cached(lower_seq(request.from@))->Some_0,
                                    self.country_cache.cached(lower_seq(request.to@))->Some_0,
                                    i as int,
                                    j as int,
                                ));
                            }
                            if old(self).country_cache.cached(lower_seq(request.from@)) is Some
                                && old(self).country_cache.cached(lower_seq(request.to@)) is Some
                                && old(self).rates_cache.has_fresh(now) {
                                let snapg = old(self).rates_cache.snapshot->Some_0;
                                assert(old(self).country_cache.cached(
                                    lower_seq(request.from@),
                                )->Some_0 == fc);
                                assert(old(self).country_cache.cached(
                                    lower_seq(request.to@),
                                )->Some_0 == tc);
                                assert(snapg.rate_between(fc[i as int]@, tc[j as int]@) is None);
                                assert(!all_pairs_priced(snapg, fc, tc)) by {
                                    if all_pairs_priced(snapg, fc, tc) {
                                        assert(snapg.rate_between(
                                            fc[i as int]@,
                                            tc[j as int]@,
                                        ) is Some);
                                        assert(false);
                                    }
                                }
                            }
                        }
                        return Err(ConversionError::RateNotFound(source, target));
                    },
                    Ok(Some(rate)) => {
                        proof {
                            let snap2 = self.rates_cache.snapshot->Some_0;
                            snap2.lemma_rate_positive(fc[i as int]@, tc[j as int]@);
                        }
                        let amount = apply_rate(request.amount, rate);
                        let conv = Conversion {
                            from: from_codes[i].clone(),
                            to: to_codes[j].clone(),
                            amount,
                        };
                        proof {
                            lemma_pair_index_in_range(width, fc.len() as int, i as int, j as int);
                        }
                        out.push(conv);
                        proof {
                            let snap2 = self.rates_cache.snapshot->Some_0;
                            if out_pre.len() == 0 {
                                lemma_upto_vacuous(
                                    out_pre,
                                    snap2,
                                    fc,
                                    tc,
                                    request.amount,
                                    i as int,
                                    j as int,
                                );
                            }
                            lemma_codes_extend(out_pre, conv, fc, tc, i as int, j as int);
                            assert forall|k: int|
                                0 <= k < out@.len() implies priced_by_some(
                                #[trigger] out@[k],
                                request.amount,
                            ) by {
                                if k < out_pre.len() {
                                    assert(out@[k] == out_pre[k]);
                                } else {
                                    assert(out@[k] == conv);
                                    assert(rate.den >= 1 && conv.amount == converted_amount(
                                        request.amount,
                                        rate,
                                    ));
                                }
                            }
                            if fetcher.calls() <= fetch0 + 1 {
                                if fetcher.calls() == pre_calls {
                                    // a fresh snapshot answered; nothing changed
                                    assert(self.rates_cache == pre_rc);
                                } else {
                                    // the one refresh of this walk happened
                                    // here, so nothing was priced before it
                                    assert(!pre_rc.has_fresh(now));
                                    assert(out_pre.len() == 0);
                                }
                                assert(priced_upto(
                                    out_pre,
                                    snap2,
                                    fc,
                                    tc,
                                    request.amount,
                                    i as int,
                                    j as int,
                                ));
                                lemma_priced_extend(
                                    out_pre,
                                    conv,
                                    snap2,
                                    fc,
                                    tc,
                                    request.amount,
                                    i as int,
                                    j as int,
                                );
                            }
                        }
                        j = j + 1;
                    },
                }
            }
            proof {
                assert(pair_index(width, i as int, width) == pair_index(width, i + 1, 0))
                    by (nonlinear_arith);
                lemma_codes_roll(out@, fc, tc, i as int);
                if fetcher.calls() <= fetch0 + 1 && out@.len() > 0 {
                    lemma_priced_roll(
                        out@,
                        self.rates_cache.snapshot->Some_0,
                        fc,
                        tc,
                        request.amount,
                        i as int,
                    );
                }
            }
            i = i + 1;
        }
        proof {
            assert(out@.len() == fc.len() * tc.len()) by (nonlinear_arith)
                requires
                    out@.len() == pair_index(width, fc.len() as int, 0),
                    width == tc.len() as int,
            ;
            if old(self).country_cache.cached(lower_seq(request.from@)) is Some && old(
                self,
            ).country_cache.cached(lower_seq(request.to@)) is Some && old(
                self,
            ).rates_cache.has_fresh(now) {
                let snapg = old(self).rates_cache.snapshot->Some_0;
                assert(old(self).country_cache.cached(lower_seq(request.from@))->Some_0 == fc);
                assert(old(self).country_cache.cached(lower_seq(request.to@))->Some_0 == tc);
                if out@.len() > 0 {
                    assert(priced_upto(out@, snapg, fc, tc, request.amount, fc.len() as int, 0));
                    assert forall|a: int, b: int|
                        #![trigger snapg.rate_between(fc[a]@, tc[b]@)]
                        0 <= a < fc.len() && 0 <= b < tc.len() && (a < fc.len() as int || (a
                            == fc.len() as int && b < 0)) implies snapg.rate_between(
                        fc[a]@,
                        tc[b]@,
                    ) is Some by {}
                    assert(all_pairs_priced(snapg, fc, tc));
                } else {
                    assert(fc.len() == 0 || tc.len() == 0) by (nonlinear_arith)
                        requires
                            fc.len() * tc.len() == 0,
                    ;
                    assert(all_pairs_priced(snapg, fc, tc));
                }
            }
        }
        Ok(out)
    }
}

} // verus!
