//! Request budgets, per token and per source address.

use vstd::prelude::*;
use vstd::string::*;

use crate::config::{Config, Limits, TokenConfig, TokenView};
use crate::text::same;

verus! {

/// How many pre-auth checks pass before expired per-IP entries are swept.
///
/// The keyed store holds one entry per source address, so without this a long
/// run of distinct addresses is itself a slow memory leak. Sweeping on a
/// counter rather than a timer keeps the work proportional to traffic.
pub const SWEEP_EVERY: u32 = 1024;

// ---------------------------------------------------------------------------
// The limiters
// ---------------------------------------------------------------------------

/// A `governor` rate limiter for one caller.
#[verifier::external_body]
pub struct DirectLimiter {
    inner: governor::DefaultDirectRateLimiter,
}

/// How many requests a limiter lets through at once, which is also how many it
/// lets through in a minute.
pub uninterp spec fn burst_of(l: DirectLimiter) -> nat;

/// How many requests a limiter has let through.
pub uninterp spec fn admitted_by(l: DirectLimiter) -> nat;

impl DirectLimiter {
    /// `RateLimiter::direct` of `governor` with `Quota::per_minute`. The contract
    /// claims that the quota is the limiter's burst and that it has let nothing
    /// through.
    #[verifier::external_body]
    fn per_minute(n: u32) -> (r: Self)
        requires
            n > 0,
        ensures
            burst_of(r) == n,
            admitted_by(r) == 0,
    {
        let quota = governor::Quota::per_minute(std::num::NonZeroU32::new(n).expect("not zero"));
        DirectLimiter { inner: governor::RateLimiter::direct(quota) }
    }

    /// `RateLimiter::check` of `governor`. The contract claims that a request is
    /// counted exactly where it is let through, and that it is let through as
    /// long as fewer were than the burst holds, given a clock that never runs
    /// backwards, as governor's clocks promise to be. Whether a request beyond the
    /// burst is let through depends on how much time has passed, and nothing is
    /// claimed of it.
    #[verifier::external_body]
    fn check(&mut self) -> (r: bool)
        ensures
            burst_of(*final(self)) == burst_of(*old(self)),
            r ==> admitted_by(*final(self)) == admitted_by(*old(self)) + 1,
            !r ==> admitted_by(*final(self)) == admitted_by(*old(self)),
            admitted_by(*old(self)) < burst_of(*old(self)) ==> r,
    {
        self.inner.check().is_ok()
    }
}

/// A `governor` rate limiter with a budget for every source address.
#[verifier::external_body]
pub struct IpLimiter {
    inner: governor::DefaultKeyedRateLimiter<Vec<u8>>,
}

/// How many requests of one source a limiter lets through at once.
pub uninterp spec fn ip_burst_of(l: IpLimiter) -> nat;

/// How many requests of each source a limiter has let through since it last
/// forgot that source.
pub uninterp spec fn ip_admitted_by(l: IpLimiter) -> Map<Seq<u8>, nat>;

/// How often a limiter was swept of the sources that it no longer has to
/// remember.
pub uninterp spec fn ip_sweeps_of(l: IpLimiter) -> nat;

impl IpLimiter {
    /// `RateLimiter::keyed` of `governor` with `Quota::per_minute`. The contract
    /// claims that the quota is each source's burst, that nothing was let through
    /// and that nothing was swept.
    #[verifier::external_body]
    fn per_minute(n: u32) -> (r: Self)
        requires
            n > 0,
        ensures
            ip_burst_of(r) == n,
            ip_admitted_by(r) == nothing_admitted(),
            ip_sweeps_of(r) == 0,
    {
        let quota = governor::Quota::per_minute(std::num::NonZeroU32::new(n).expect("not zero"));
        IpLimiter { inner: governor::RateLimiter::keyed(quota) }
    }

    /// `RateLimiter::check_key` of `governor`. The contract claims that a request
    /// is counted, for its source alone, exactly where it is let through, and
    /// that it is let through as long as fewer of that source were than the burst
    /// holds, given a clock that never runs backwards, as governor's clocks promise
    /// to be. Whether one beyond the burst is let through depends on how much time
    /// has passed, and nothing is claimed of it.
    #[verifier::external_body]
    fn check_key(&mut self, ip: &Vec<u8>) -> (r: bool)
        ensures
            ip_burst_of(*final(self)) == ip_burst_of(*old(self)),
            ip_sweeps_of(*final(self)) == ip_sweeps_of(*old(self)),
            r ==> ip_admitted_by(*final(self)) == ip_admitted_by(*old(self)).insert(
                ip@,
                admitted_count(ip_admitted_by(*old(self)), ip@) + 1,
            ),
            !r ==> ip_admitted_by(*final(self)) == ip_admitted_by(*old(self)),
            admitted_count(ip_admitted_by(*old(self)), ip@) < ip_burst_of(*old(self)) ==> r,
    {
        self.inner.check_key(ip).is_ok()
    }

    /// `RateLimiter::retain_recent` of `governor`. The contract claims that it
    /// sweeps once and only forgets sources; which ones depends on how much time
    /// has passed.
    #[verifier::external_body]
    fn retain_recent(&mut self)
        ensures
            ip_burst_of(*final(self)) == ip_burst_of(*old(self)),
            ip_sweeps_of(*final(self)) == ip_sweeps_of(*old(self)) + 1,
            ip_admitted_by(*final(self)).submap_of(ip_admitted_by(*old(self))),
    {
        self.inner.retain_recent();
    }
}

/// No request of any source.
pub open spec fn nothing_admitted() -> Map<Seq<u8>, nat> {
    Map::empty()
}

/// How many requests of a source were let through.
pub open spec fn admitted_count(admitted: Map<Seq<u8>, nat>, ip: Seq<u8>) -> nat {
    if admitted.dom().contains(ip) {
        admitted[ip]
    } else {
        0
    }
}

// ---------------------------------------------------------------------------
// Budgets by token
// ---------------------------------------------------------------------------

/// One caller's budget: how many requests it holds, and how many were let
/// through.
pub ghost struct Budget {
    pub burst: nat,
    pub admitted: nat,
}

spec fn budget_of(l: DirectLimiter) -> Budget {
    Budget { burst: burst_of(l), admitted: admitted_by(l) }
}

/// The limiters, each with the name of its token.
struct Budgets {
    names: Vec<String>,
    limiters: Vec<DirectLimiter>,
}

impl Budgets {
    spec fn wf(self) -> bool {
        &&& self.names@.len() == self.limiters@.len()
        &&& crate::text::texts(self.names@).no_duplicates()
    }

    spec fn view(self) -> Map<Seq<char>, Budget> {
        let names = crate::text::texts(self.names@);
        Map::new(
            |name: Seq<char>| names.contains(name),
            |name: Seq<char>| budget_of(self.limiters@[names.index_of(name)]),
        )
    }

    fn new() -> (r: Self)
        ensures
            r.wf(),
            r@ == Map::<Seq<char>, Budget>::empty(),
    {
        let r = Budgets { names: Vec::new(), limiters: Vec::new() };
        assert(r@ =~= Map::<Seq<char>, Budget>::empty());
        r
    }

    fn find(&self, name: &str) -> (r: Option<usize>)
        requires
            self.wf(),
        ensures
            match r {
                Some(i) => i < self.names@.len() && self.names@[i as int]@ == name@
                    && self@.dom().contains(name@) && self@[name@] == budget_of(
                    self.limiters@[i as int],
                ),
                None => !self@.dom().contains(name@),
            },
    {
        let ghost names = crate::text::texts(self.names@);
        let mut i: usize = 0;
        while i < self.names.len()
            invariant
                i <= self.names@.len(),
                self.wf(),
                names == crate::text::texts(self.names@),
                forall|j: int| 0 <= j < i ==> #[trigger] names[j] != name@,
            decreases self.names.len() - i,
        {
            if same(self.names[i].as_str(), name) {
                assert(names[i as int] == name@);
                assert(names.index_of(name@) == i);
                return Some(i);
            }
            i += 1;
        }
        None
    }

    /// Gives a token a fresh budget in place of any that it had.
    fn grant(&mut self, name: &str, n: u32)
        requires
            old(self).wf(),
            n > 0,
        ensures
            final(self).wf(),
            final(self)@ == old(self)@.insert(name@, (Budget { burst: n as nat, admitted: 0 })),
    {
        let fresh = DirectLimiter::per_minute(n);
        let ghost before = *self;
        let ghost names = crate::text::texts(self.names@);
        match self.find(name) {
            Some(i) => {
                self.limiters.set(i, fresh);
                proof {
                    assert(names[i as int] == name@);
                    lemma_set_budget(before, *self, i as int);
                }
            },
            None => {
                self.names.push(name.to_owned());
                self.limiters.push(fresh);
                proof {
                    assert(self.names@.drop_last() =~= before.names@);
                    assert(self.limiters@.drop_last() =~= before.limiters@);
                    lemma_push_budget(before, *self, name@);
                }
            },
        }
    }

    /// Spends one unit of a token's budget, where it has one.
    fn spend(&mut self, name: &str) -> (r: bool)
        requires
            old(self).wf(),
        ensures
            final(self).wf(),
            spent(old(self)@, final(self)@, name@, r),
    {
        match self.find(name) {
            None => true,
            Some(i) => {
                let ghost before = *self;
                let ghost names = crate::text::texts(self.names@);
                let ok = self.limiters[i].check();
                proof {
                    assert(names[i as int] == name@);
                    lemma_set_budget(before, *self, i as int);
                    if !ok {
                        assert(self@ =~= before@);
                    }
                }
                ok
            },
        }
    }
}

proof fn lemma_set_budget(before: Budgets, after: Budgets, i: int)
    requires
        before.wf(),
        0 <= i < before.names@.len(),
        after.names@ == before.names@,
        after.limiters@ == before.limiters@.update(i, after.limiters@[i]),
    ensures
        after.wf(),
        after@ == before@.insert(before.names@[i]@, budget_of(after.limiters@[i])),
{
    let names = crate::text::texts(before.names@);
    let goal = before@.insert(names[i], budget_of(after.limiters@[i]));
    assert(names[i] == before.names@[i]@);
    assert(names.index_of(names[i]) == i);
    assert(after@.dom() =~= goal.dom());
    assert forall|name: Seq<char>| after@.dom().contains(name) implies after@[name]
        == goal[name] by {
        let j = names.index_of(name);
        assert(names[j] == name);
        if name == names[i] {
            assert(j == i);
        } else {
            assert(j != i);
        }
    }
    assert(after@ =~= goal);
}

proof fn lemma_push_budget(before: Budgets, after: Budgets, name: Seq<char>)
    requires
        before.wf(),
        !before@.dom().contains(name),
        after.names@.len() == before.names@.len() + 1,
        after.limiters@.len() == before.limiters@.len() + 1,
        after.names@.drop_last() == before.names@,
        after.limiters@.drop_last() == before.limiters@,
        after.names@.last()@ == name,
    ensures
        after.wf(),
        after@ == before@.insert(name, budget_of(after.limiters@.last())),
{
    let old_names = crate::text::texts(before.names@);
    let names = crate::text::texts(after.names@);
    let n = old_names.len() as int;
    assert forall|j: int| 0 <= j < n implies #[trigger] names[j] == old_names[j] by {
        assert(after.names@.drop_last()[j] == after.names@[j]);
    }
    assert(names[n] == name);
    assert(forall|j: int| 0 <= j < n ==> #[trigger] old_names[j] != name);
    assert(names.no_duplicates());
    let goal = before@.insert(name, budget_of(after.limiters@.last()));
    assert forall|k: Seq<char>| after@.dom().contains(k) <==> goal.dom().contains(k) by {
        if old_names.contains(k) {
            let j = old_names.index_of(k);
            assert(names[j] == k);
        }
        if k == name {
            assert(names[n] == k);
        }
        if names.contains(k) {
            let j = names.index_of(k);
            if j < n {
                assert(old_names[j] == k);
            }
        }
    }
    assert(after@.dom() =~= goal.dom());
    assert forall|k: Seq<char>| after@.dom().contains(k) implies after@[k] == goal[k] by {
        let j = names.index_of(k);
        assert(names[j] == k);
        if k == name {
            assert(j == n);
        } else {
            assert(j < n);
            assert(old_names[j] == k);
            assert(old_names.index_of(k) == j);
            assert(after.limiters@.drop_last()[j] == after.limiters@[j]);
        }
    }
    assert(after@ =~= goal);
}

/// What spending one unit of a token's budget may come to. A token without a
/// budget is unlimited; one with a budget is counted exactly where it is let
/// through, and let through as long as its budget is not used up. No other
/// budget is touched.
pub open spec fn spent(
    before: Map<Seq<char>, Budget>,
    after: Map<Seq<char>, Budget>,
    name: Seq<char>,
    ok: bool,
) -> bool {
    if before.dom().contains(name) {
        let b = before[name];
        &&& ok ==> after == before.insert(name, Budget { admitted: b.admitted + 1, ..b })
        &&& !ok ==> after == before
        &&& b.admitted < b.burst ==> ok
    } else {
        ok && after == before
    }
}

// ---------------------------------------------------------------------------
// All budgets
// ---------------------------------------------------------------------------

/// The budgets of the source addresses, and how often they were swept.
pub ghost struct IpBudgets {
    pub burst: nat,
    pub admitted: Map<Seq<u8>, nat>,
    pub sweeps: nat,
}

/// The budgets as the contracts speak of them.
pub ghost struct RateView {
    pub tokens: Map<Seq<char>, Budget>,
    pub per_ip: Option<IpBudgets>,
    pub sweep: u32,
}

/// Per-token request budgets.
///
/// Each token gets its own limiter built from its effective quota, so one noisy
/// device cannot spend another's allowance. A token configured with `0` is
/// unlimited and simply has no entry.
pub struct RateLimits {
    budgets: Budgets,
    /// Charged before a token is even looked at — see [`RateLimits::check_ip`].
    per_ip: Option<IpLimiter>,
    sweep: u32,
}

impl View for RateLimits {
    type V = RateView;

    closed spec fn view(&self) -> RateView {
        RateView {
            tokens: self.budgets@,
            per_ip: match self.per_ip {
                Some(l) => Some(
                    IpBudgets {
                        burst: ip_burst_of(l),
                        admitted: ip_admitted_by(l),
                        sweeps: ip_sweeps_of(l),
                    },
                ),
                None => None,
            },
            sweep: self.sweep,
        }
    }
}

/// The budgets that some tokens start with: one for each name, as the last token
/// of that name that is limited at all has it.
pub open spec fn starting_budgets(tokens: Seq<TokenView>, limits: Limits) -> Map<
    Seq<char>,
    Budget,
>
    decreases tokens.len(),
{
    if tokens.len() == 0 {
        Map::empty()
    } else {
        let before = starting_budgets(tokens.drop_last(), limits);
        let n = tokens.last().effective_rate_limit(limits);
        if n > 0 {
            before.insert(tokens.last().name, Budget { burst: n as nat, admitted: 0 })
        } else {
            before
        }
    }
}

/// The budgets that the source addresses start with.
pub open spec fn starting_ip_budgets(limits: Limits) -> Option<IpBudgets> {
    if limits.rate_limit_per_ip_per_minute > 0 {
        Some(
            IpBudgets {
                burst: limits.rate_limit_per_ip_per_minute as nat,
                admitted: nothing_admitted(),
                sweeps: 0,
            },
        )
    } else {
        None
    }
}

/// Whether a sweep is due, after so many charges.
pub open spec fn sweep_due(charges: u32) -> bool {
    charges % SWEEP_EVERY == SWEEP_EVERY - 1
}

/// What the budgets of the sources may have become by the time that one of them
/// is charged: some sources may be forgotten where a sweep is due.
pub open spec fn swept(
    before: Map<Seq<u8>, nat>,
    after: Map<Seq<u8>, nat>,
    sweep: u32,
) -> bool {
    &&& after.submap_of(before)
    &&& !sweep_due(sweep) ==> after == before
}

/// What charging a source may come to, from the budgets `swept` on.
pub open spec fn charged(
    burst: nat,
    swept: Map<Seq<u8>, nat>,
    after: Map<Seq<u8>, nat>,
    ip: Seq<u8>,
    ok: bool,
) -> bool {
    &&& ok ==> after == swept.insert(ip, admitted_count(swept, ip) + 1)
    &&& !ok ==> after == swept
    &&& admitted_count(swept, ip) < burst ==> ok
}

impl RateView {
    /// What spending one unit of a source's budget may come to. Without such
    /// budgets every source is let through and nothing changes.
    pub open spec fn ip_spent(self, after: RateView, ip: Seq<u8>, ok: bool) -> bool {
        match self.per_ip {
            None => ok && after == self,
            Some(b) => {
                &&& after.tokens == self.tokens
                &&& after.sweep == vstd::wrapping::u32_specs::wrapping_add(self.sweep, 1)
                &&& after.per_ip is Some
                &&& after.per_ip->0.burst == b.burst
                &&& after.per_ip->0.sweeps == b.sweeps + (if sweep_due(self.sweep) {
                    1nat
                } else {
                    0nat
                })
                &&& exists|mid: Map<Seq<u8>, nat>|
                    #[trigger] swept(b.admitted, mid, self.sweep) && charged(
                        b.burst,
                        mid,
                        after.per_ip->0.admitted,
                        ip,
                        ok,
                    )
            },
        }
    }

    /// What spending one unit of a token's budget may come to.
    pub open spec fn token_spent(self, after: RateView, name: Seq<char>, ok: bool) -> bool {
        &&& spent(self.tokens, after.tokens, name, ok)
        &&& after.per_ip == self.per_ip
        &&& after.sweep == self.sweep
    }
}

impl RateLimits {
    #[verifier::type_invariant]
    spec fn well_formed(self) -> bool {
        self.budgets.wf()
    }

    pub fn from_config(cfg: &Config) -> (r: Self)
        ensures
            r@ == (RateView {
                tokens: starting_budgets(crate::config::token_views(cfg.tokens@), cfg.limits),
                per_ip: starting_ip_budgets(cfg.limits),
                sweep: 0,
            }),
            cfg.limits.rate_limit_per_ip_per_minute == 0 <==> r@.per_ip is None,
            r@.per_ip matches Some(b) ==> b.burst == cfg.limits.rate_limit_per_ip_per_minute,
    {
        let ghost all = crate::config::token_views(cfg.tokens@);
        let mut budgets = Budgets::new();
        let mut i: usize = 0;
        while i < cfg.tokens.len()
            invariant
                i <= cfg.tokens@.len(),
                all == crate::config::token_views(cfg.tokens@),
                budgets.wf(),
                budgets@ == starting_budgets(all.take(i as int), cfg.limits),
            decreases cfg.tokens.len() - i,
        {
            let token = &cfg.tokens[i];
            let n: u32 = token.effective_rate_limit(&cfg.limits);
            proof {
                assert(all.take(i + 1).drop_last() =~= all.take(i as int));
                assert(all.take(i + 1).last() == token@);
            }
            if n > 0 {
                budgets.grant(token.name.as_str(), n);
            }
            i += 1;
        }
        assert(all.take(i as int) =~= all);
        let n: u32 = cfg.limits.rate_limit_per_ip_per_minute;
        let per_ip = if n > 0 {
            Some(IpLimiter::per_minute(n))
        } else {
            None
        };
        RateLimits { budgets, per_ip, sweep: 0 }
    }

    /// Spends one unit of a source address's pre-authentication budget.
    ///
    /// This runs before the Argon2 verification, which is the expensive part
    /// and the part an unauthenticated caller can otherwise trigger at will.
    /// `true` when the address, given by its bytes, may proceed.
    pub fn check_ip(&mut self, ip: &Vec<u8>) -> (r: bool)
        ensures
            old(self)@.ip_spent(final(self)@, ip@, r),
    {
        proof {
            use_type_invariant(&*self);
        }
        let mut per_ip: Option<IpLimiter> = None;
        std::mem::swap(&mut per_ip, &mut self.per_ip);
        let mut limiter = match per_ip {
            None => return true,
            Some(limiter) => limiter,
        };
        let due = self.sweep % SWEEP_EVERY == SWEEP_EVERY - 1;
        let ghost sweep = self.sweep;
        let ghost before = ip_admitted_by(limiter);
        self.sweep = self.sweep.wrapping_add(1);
        if due {
            limiter.retain_recent();
        }
        let ghost mid = ip_admitted_by(limiter);
        assert(swept(before, mid, sweep));
        let ok = limiter.check_key(ip);
        let ghost now = ip_admitted_by(limiter);
        assert(charged(ip_burst_of(limiter), mid, now, ip@, ok));
        self.per_ip = Some(limiter);
        proof {
            assert(old(self)@.per_ip->0.admitted == before);
            assert(self@.per_ip->0.admitted == now);
            assert(swept(old(self)@.per_ip->0.admitted, mid, old(self)@.sweep));
        }
        ok
    }

    /// Consumes one unit of the token's budget. `false` means "over quota".
    pub fn check(&mut self, token: &TokenConfig) -> (r: bool)
        ensures
            old(self)@.token_spent(final(self)@, token@.name, r),
    {
        proof {
            use_type_invariant(&*self);
        }
        let mut budgets = Budgets::new();
        std::mem::swap(&mut budgets, &mut self.budgets);
        let ok = budgets.spend(token.name.as_str());
        self.budgets = budgets;
        ok
    }
}

// ---------------------------------------------------------------------------
// What holds of budgets
// ---------------------------------------------------------------------------

/// One token's requests never touch another's budget, whatever comes of them.
pub proof fn a_noisy_token_spends_only_its_own_budget(
    before: RateView,
    after: RateView,
    name: Seq<char>,
    other: Seq<char>,
    ok: bool,
)
    requires
        before.token_spent(after, name, ok),
        other != name,
    ensures
        after.tokens.dom().contains(other) <==> before.tokens.dom().contains(other),
        before.tokens.dom().contains(other) ==> after.tokens[other] == before.tokens[other],
{
}

/// One source's requests never spend another's budget: what another has spent
/// stays, or is forgotten.
pub proof fn a_noisy_source_spends_only_its_own_budget(
    before: RateView,
    after: RateView,
    ip: Seq<u8>,
    other: Seq<u8>,
    ok: bool,
)
    requires
        before.ip_spent(after, ip, ok),
        before.per_ip is Some,
        other != ip,
    ensures
        after.per_ip is Some,
        admitted_count(after.per_ip->0.admitted, other) <= admitted_count(
            before.per_ip->0.admitted,
            other,
        ),
{
    let b = before.per_ip->0;
    let mid = choose|mid: Map<Seq<u8>, nat>|
        #[trigger] swept(b.admitted, mid, before.sweep) && charged(
            b.burst,
            mid,
            after.per_ip->0.admitted,
            ip,
            ok,
        );
    if mid.dom().contains(other) {
        assert(b.admitted.dom().contains(other));
    }
}

/// A source that has not used up its budget is let through, however many others
/// have.
pub proof fn a_source_within_its_budget_is_let_through(
    before: RateView,
    after: RateView,
    ip: Seq<u8>,
    ok: bool,
)
    requires
        before.ip_spent(after, ip, ok),
        before.per_ip matches Some(b) ==> admitted_count(b.admitted, ip) < b.burst,
    ensures
        ok,
{
    if let Some(b) = before.per_ip {
        let mid = choose|mid: Map<Seq<u8>, nat>|
            #[trigger] swept(b.admitted, mid, before.sweep) && charged(
                b.burst,
                mid,
                after.per_ip->0.admitted,
                ip,
                ok,
            );
        if mid.dom().contains(ip) {
            assert(b.admitted.dom().contains(ip));
        }
    }
}

proof fn lemma_unlimited_token_has_no_budget(tokens: Seq<TokenView>, limits: Limits, name: Seq<char>)
    requires
        forall|i: int|
            0 <= i < tokens.len() && (#[trigger] tokens[i]).name == name
                ==> tokens[i].effective_rate_limit(limits) == 0,
    ensures
        !starting_budgets(tokens, limits).dom().contains(name),
    decreases tokens.len(),
{
    if tokens.len() > 0 {
        let front = tokens.drop_last();
        assert forall|i: int| 0 <= i < front.len() && (#[trigger] front[i]).name == name implies
            front[i].effective_rate_limit(limits) == 0 by {
            assert(front[i] == tokens[i]);
        }
        lemma_unlimited_token_has_no_budget(front, limits, name);
        assert(tokens.last() == tokens[tokens.len() - 1]);
    }
}

/// A token whose effective limit is zero is unlimited.
pub proof fn zero_means_unlimited(
    tokens: Seq<TokenView>,
    limits: Limits,
    before: RateView,
    after: RateView,
    name: Seq<char>,
    ok: bool,
)
    requires
        forall|i: int|
            0 <= i < tokens.len() && (#[trigger] tokens[i]).name == name
                ==> tokens[i].effective_rate_limit(limits) == 0,
        before.tokens == starting_budgets(tokens, limits),
        before.token_spent(after, name, ok),
    ensures
        ok,
        after.tokens == before.tokens,
{
    lemma_unlimited_token_has_no_budget(tokens, limits, name);
}

// ---------------------------------------------------------------------------
// What the budgets are
// ---------------------------------------------------------------------------

/// Where sources are limited to `n` requests a minute, every source starts with a
/// budget of `n`, whatever the other limits are; where that limit is zero, no source
/// has a budget.
pub proof fn a_source_starts_with_the_limit_for_sources(limits: Limits, ip: Seq<u8>)
    ensures
        limits.rate_limit_per_ip_per_minute == 0 <==> starting_ip_budgets(limits) is None,
        starting_ip_budgets(limits) matches Some(b) ==> {
            &&& b.burst == limits.rate_limit_per_ip_per_minute
            &&& admitted_count(b.admitted, ip) == 0
            &&& b.sweeps == 0
        },
{
}

/// The requests a minute that a token's own limit and the global one allow it; zero
/// where it is not limited.
pub open spec fn allowance(own: Option<u32>, global: u32) -> nat {
    match own {
        None => global as nat,
        Some(own) => if global == 0 || own <= global {
            own as nat
        } else {
            global as nat
        },
    }
}

proof fn lemma_starting_budget(tokens: Seq<TokenView>, limits: Limits, i: int)
    requires
        0 <= i < tokens.len(),
        forall|j: int| i < j < tokens.len() ==> (#[trigger] tokens[j]).name != tokens[i].name,
        tokens[i].effective_rate_limit(limits) > 0,
    ensures
        starting_budgets(tokens, limits).dom().contains(tokens[i].name),
        starting_budgets(tokens, limits)[tokens[i].name] == (Budget {
            burst: tokens[i].effective_rate_limit(limits) as nat,
            admitted: 0,
        }),
    decreases tokens.len(),
{
    let front = tokens.drop_last();
    if i < tokens.len() - 1 {
        assert forall|j: int| i < j < front.len() implies (#[trigger] front[j]).name
            != front[i].name by {
            assert(front[j] == tokens[j]);
        }
        assert(front[i] == tokens[i]);
        lemma_starting_budget(front, limits, i);
        assert(tokens[tokens.len() - 1].name != tokens[i].name);
    }
}

/// A token starts with a budget of its own limit where there is no global one, of
/// the global one where it has none, and of the lesser otherwise; none of it is
/// spent. A token that is not limited has no budget. Of tokens with one name, the
/// last has its way.
pub proof fn a_token_starts_with_its_own_limit(tokens: Seq<TokenView>, limits: Limits, i: int)
    requires
        0 <= i < tokens.len(),
        forall|j: int| i < j < tokens.len() ==> (#[trigger] tokens[j]).name != tokens[i].name,
    ensures
        ({
            let t = tokens[i];
            let n = allowance(t.rate_limit_per_minute, limits.rate_limit_per_minute);
            let budgets = starting_budgets(tokens, limits);
            &&& n > 0 ==> budgets.dom().contains(t.name) && budgets[t.name] == (Budget {
                burst: n,
                admitted: 0,
            })
            &&& n == 0 && (forall|j: int|
                0 <= j < i ==> (#[trigger] tokens[j]).name != t.name) ==> !budgets.dom().contains(
                t.name,
            )
        }),
{
    let t = tokens[i];
    let n = allowance(t.rate_limit_per_minute, limits.rate_limit_per_minute);
    if n > 0 {
        lemma_starting_budget(tokens, limits, i);
    } else if forall|j: int| 0 <= j < i ==> (#[trigger] tokens[j]).name != t.name {
        assert forall|j: int| 0 <= j < tokens.len() && (#[trigger] tokens[j]).name
            == t.name implies tokens[j].effective_rate_limit(limits) == 0 by {
            assert(j == i);
        }
        lemma_unlimited_token_has_no_budget(tokens, limits, t.name);
    }
}

// ---------------------------------------------------------------------------
// Runs of requests
// ---------------------------------------------------------------------------

/// How many of the first `n` requests came from a source.
pub open spec fn times_from(ips: Seq<Seq<u8>>, n: int, ip: Seq<u8>) -> nat
    decreases n,
{
    if n <= 0 {
        0
    } else {
        times_from(ips, n - 1, ip) + (if ips[n - 1] == ip {
            1nat
        } else {
            0
        })
    }
}

/// Whether `states` are what the budgets went through as the sources `ips` were
/// charged one after the other, with the outcomes `oks`.
pub open spec fn is_ip_run(states: Seq<RateView>, ips: Seq<Seq<u8>>, oks: Seq<bool>) -> bool {
    &&& states.len() == ips.len() + 1
    &&& oks.len() == ips.len()
    &&& forall|k: int|
        0 <= k < ips.len() ==> states[k].ip_spent(states[k + 1], #[trigger] ips[k], oks[k])
}

proof fn lemma_ip_run(states: Seq<RateView>, ips: Seq<Seq<u8>>, oks: Seq<bool>, k: int, ip: Seq<u8>)
    requires
        is_ip_run(states, ips, oks),
        0 <= k <= ips.len(),
    ensures
        states[k].per_ip is Some <==> states[0].per_ip is Some,
        states[0].per_ip is None ==> states[k] == states[0],
        states[0].per_ip matches Some(b) ==> {
            &&& states[k].per_ip->0.burst == b.burst
            &&& admitted_count(states[k].per_ip->0.admitted, ip) <= admitted_count(b.admitted, ip)
                + times_from(ips, k, ip)
            &&& states[k].tokens == states[0].tokens
        },
    decreases k,
{
    if k > 0 {
        lemma_ip_run(states, ips, oks, k - 1, ip);
        let before = states[k - 1];
        let after = states[k];
        assert(before.ip_spent(after, ips[k - 1], oks[k - 1]));
        if let Some(b) = before.per_ip {
            let mid = choose|mid: Map<Seq<u8>, nat>|
                #[trigger] swept(b.admitted, mid, before.sweep) && charged(
                    b.burst,
                    mid,
                    after.per_ip->0.admitted,
                    ips[k - 1],
                    oks[k - 1],
                );
            if mid.dom().contains(ip) {
                assert(b.admitted.dom().contains(ip));
            }
        }
    }
}

/// Where sources are limited to `n` requests a minute, the first `n` requests of
/// every source are let through, however many other sources there are and however
/// many requests they make. Without such a limit every request is.
pub proof fn the_first_requests_of_a_source_are_let_through(
    limits: Limits,
    states: Seq<RateView>,
    ips: Seq<Seq<u8>>,
    oks: Seq<bool>,
    k: int,
)
    requires
        is_ip_run(states, ips, oks),
        states[0].per_ip == starting_ip_budgets(limits),
        0 <= k < ips.len(),
    ensures
        limits.rate_limit_per_ip_per_minute == 0 ==> oks[k],
        times_from(ips, k, ips[k]) < limits.rate_limit_per_ip_per_minute ==> oks[k],
{
    lemma_ip_run(states, ips, oks, k, ips[k]);
    assert(states[k].ip_spent(states[k + 1], ips[k], oks[k]));
    if times_from(ips, k, ips[k]) < limits.rate_limit_per_ip_per_minute {
        a_source_within_its_budget_is_let_through(states[k], states[k + 1], ips[k], oks[k]);
    }
}

proof fn lemma_sweeps(states: Seq<RateView>, ips: Seq<Seq<u8>>, oks: Seq<bool>, k: int)
    requires
        is_ip_run(states, ips, oks),
        states[0].per_ip is Some,
        states[0].per_ip->0.sweeps == 0,
        states[0].sweep == 0,
        0 <= k <= ips.len() <= u32::MAX,
    ensures
        states[k].per_ip is Some,
        states[k].sweep == k,
        states[k].per_ip->0.sweeps == k / 1024,
    decreases k,
{
    if k > 0 {
        lemma_sweeps(states, ips, oks, k - 1);
        assert(states[k - 1].ip_spent(states[k], ips[k - 1], oks[k - 1]));
    }
}

/// The sources are swept of those that need not be remembered with every 1024th
/// charge, and never in between.
pub proof fn the_sources_are_swept_at_every_thousand_and_twenty_fourth_charge(
    limits: Limits,
    states: Seq<RateView>,
    ips: Seq<Seq<u8>>,
    oks: Seq<bool>,
)
    requires
        is_ip_run(states, ips, oks),
        limits.rate_limit_per_ip_per_minute > 0,
        states[0].per_ip == starting_ip_budgets(limits),
        states[0].sweep == 0,
        ips.len() <= u32::MAX,
    ensures
        states.last().per_ip is Some,
        states.last().per_ip->0.sweeps == ips.len() / 1024,
{
    lemma_sweeps(states, ips, oks, ips.len() as int);
}

/// How many of the first `n` requests a token made and was let through with.
pub open spec fn times_let_through(names: Seq<Seq<char>>, oks: Seq<bool>, n: int, name: Seq<char>) -> nat
    decreases n,
{
    if n <= 0 {
        0
    } else {
        times_let_through(names, oks, n - 1, name) + (if names[n - 1] == name && oks[n - 1] {
            1nat
        } else {
            0
        })
    }
}

/// Whether `states` are what the budgets went through as the tokens `names` were
/// charged one after the other, with the outcomes `oks`.
pub open spec fn is_token_run(states: Seq<RateView>, names: Seq<Seq<char>>, oks: Seq<bool>) -> bool {
    &&& states.len() == names.len() + 1
    &&& oks.len() == names.len()
    &&& forall|k: int|
        0 <= k < names.len() ==> states[k].token_spent(states[k + 1], #[trigger] names[k], oks[k])
}

proof fn lemma_token_run(
    states: Seq<RateView>,
    names: Seq<Seq<char>>,
    oks: Seq<bool>,
    k: int,
    name: Seq<char>,
)
    requires
        is_token_run(states, names, oks),
        0 <= k <= names.len(),
    ensures
        states[k].tokens.dom().contains(name) <==> states[0].tokens.dom().contains(name),
        states[0].tokens.dom().contains(name) ==> states[k].tokens[name] == (Budget {
            burst: states[0].tokens[name].burst,
            admitted: states[0].tokens[name].admitted + times_let_through(names, oks, k, name),
        }),
        states[k].per_ip == states[0].per_ip,
    decreases k,
{
    if k > 0 {
        lemma_token_run(states, names, oks, k - 1, name);
        assert(states[k - 1].token_spent(states[k], names[k - 1], oks[k - 1]));
    }
}

/// A token is let through until it was let through as often as its limit says; one
/// that is not limited always is. How often it was is exactly what its budget has
/// counted, and what other tokens do makes no difference.
pub proof fn a_token_is_let_through_up_to_its_limit(
    tokens: Seq<TokenView>,
    limits: Limits,
    i: int,
    states: Seq<RateView>,
    names: Seq<Seq<char>>,
    oks: Seq<bool>,
    k: int,
)
    requires
        0 <= i < tokens.len(),
        forall|j: int|
            0 <= j < tokens.len() && j != i ==> (#[trigger] tokens[j]).name != tokens[i].name,
        is_token_run(states, names, oks),
        states[0].tokens == starting_budgets(tokens, limits),
        0 <= k < names.len(),
        names[k] == tokens[i].name,
    ensures
        ({
            let n = allowance(tokens[i].rate_limit_per_minute, limits.rate_limit_per_minute);
            &&& n == 0 ==> oks[k]
            &&& times_let_through(names, oks, k, names[k]) < n ==> oks[k]
            &&& n > 0 ==> states[k].tokens[names[k]].admitted == times_let_through(
                names,
                oks,
                k,
                names[k],
            )
        }),
{
    a_token_starts_with_its_own_limit(tokens, limits, i);
    lemma_token_run(states, names, oks, k, names[k]);
    assert(states[k].token_spent(states[k + 1], names[k], oks[k]));
}

} // verus!
