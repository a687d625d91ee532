//! The per-worker bot manager's decision rules: how many connections a tick
//! may open under the shared admission counter, and on which ticks a bot
//! emits its randomized gameplay packet. The event loop itself (polling,
//! sockets, sleeping) lives with the caller; it consults these rules.

use vstd::prelude::*;

verus! {

/// Per-worker scheduler state. The poller, the sockets and the shared atomic
/// counter live with the caller; this record carries the tick bookkeeping
/// and the targets that drive its decisions.
pub struct BotManager {
    /// Total number of bots all workers together may open.
    pub count: u32,
    /// Connections a single tick may open.
    pub bots_per_tick: u32,
    /// Ticks between gameplay actions of one bot.
    pub action_tick: u32,
    /// Ticks completed so far.
    pub tick_counter: u32,
}

/// How many bot ids a reservation admits: a worker whose `fetch_add` on the
/// shared counter returned `prior` opens the ids `prior .. prior + admitted`.
/// A reservation at or past the target admits none (and is undone).
pub open spec fn admitted(prior: int, k: int, target: int) -> int {
    if prior < target {
        if prior + k <= target {
            k
        } else {
            target - prior
        }
    } else {
        0
    }
}

/// The counter's value after a reservation: it keeps the full `fetch_add`
/// while below the target; a reservation at or past it is undone by the
/// matching `fetch_sub`, leaving the counter as it was.
pub open spec fn counter_after(prior: int, k: int, target: int) -> int {
    if prior < target {
        prior + k
    } else {
        prior
    }
}

/// The counter after `rounds` serialized reservations of `k` slots each,
/// starting from zero.
pub open spec fn counter_at(rounds: nat, k: int, target: int) -> int
    decreases rounds,
{
    if rounds == 0 {
        0
    } else {
        counter_after(counter_at((rounds - 1) as nat, k, target), k, target)
    }
}

/// The bots admitted over `rounds` serialized reservations of `k` slots
/// each, starting from zero.
pub open spec fn total_admitted(rounds: nat, k: int, target: int) -> int
    decreases rounds,
{
    if rounds == 0 {
        0
    } else {
        total_admitted((rounds - 1) as nat, k, target) + admitted(
            counter_at((rounds - 1) as nat, k, target),
            k,
            target,
        )
    }
}

proof fn lemma_admission_invariant(rounds: nat, k: int, target: int)
    requires
        k >= 1,
        target >= 0,
    ensures
        total_admitted(rounds, k, target) == if counter_at(rounds, k, target) <= target {
            counter_at(rounds, k, target)
        } else {
            target
        },
        counter_at(rounds, k, target) >= 0,
        counter_at(rounds, k, target) >= k * rounds || counter_at(rounds, k, target) >= target,
    decreases rounds,
{
    if rounds > 0 {
        lemma_admission_invariant((rounds - 1) as nat, k, target);
        assert(k * rounds == k * (rounds - 1) + k) by (nonlinear_arith);
    }
}

/// Admission cap: however the workers' reservations interleave, the atomic
/// counter serializes them, and once enough reservations have happened
/// (`k * rounds >= target`) the bots admitted across all workers total the
/// target exactly — never more, never fewer.
pub proof fn lemma_admission_cap(rounds: nat, k: int, target: int)
    requires
        k >= 1,
        target >= 0,
        k * rounds >= target,
    ensures
        total_admitted(rounds, k, target) == target,
{
    lemma_admission_invariant(rounds, k, target);
}

/// Admission never exceeds the target, at any point.
pub proof fn lemma_admission_never_over(rounds: nat, k: int, target: int)
    requires
        k >= 1,
        target >= 0,
    ensures
        total_admitted(rounds, k, target) <= target,
{
    lemma_admission_invariant(rounds, k, target);
}

/// Whether tick `tick` is an action tick for bot `id` under period `p`:
/// every `p`-th tick, with the bot's id as phase offset.
pub open spec fn action_due_spec(tick: int, id: int, p: int) -> bool {
    (tick + id) % p == 0
}

/// The number of action ticks a bot with phase offset `id` sees during
/// ticks `0 .. ticks`.
pub open spec fn action_hits(ticks: nat, id: int, p: int) -> int
    decreases ticks,
{
    if ticks == 0 {
        0
    } else {
        action_hits((ticks - 1) as nat, id, p) + if action_due_spec(ticks - 1, id, p) {
            1int
        } else {
            0int
        }
    }
}

/// Action cadence: over `ticks` ticks with period `p`, a bot whose id is a
/// multiple of `p` emits exactly ceiling(ticks / p) gameplay actions. (A bot
/// whose id is not a multiple of `p` has its first action tick later, so
/// its count over the same window can be one lower.)
pub proof fn lemma_action_cadence(ticks: nat, id: int, p: int)
    requires
        p >= 1,
        id >= 0,
        id % p == 0,
    ensures
        action_hits(ticks, id, p) == (ticks + p - 1) / p,
    decreases ticks,
{
    if ticks == 0 {
        assert((p - 1) / p == 0) by (nonlinear_arith)
            requires
                p >= 1,
        ;
    } else {
        lemma_action_cadence((ticks - 1) as nat, id, p);
        let t = ticks - 1;
        vstd::arithmetic::div_mod::lemma_add_mod_noop(t, id, p);
        vstd::arithmetic::div_mod::lemma_mod_bound(t, p);
        vstd::arithmetic::div_mod::lemma_small_mod((t % p) as nat, p as nat);
        assert((t + id) % p == t % p);
        assert(t % p == 0 ==> (t + p - 1) / p + 1 == (t + p) / p) by (nonlinear_arith)
            requires
                p >= 1,
                t >= 0,
        ;
        assert(t % p != 0 ==> (t + p - 1) / p == (t + p) / p) by (nonlinear_arith)
            requires
                p >= 1,
                t >= 0,
        ;
    }
}

impl BotManager {
    /// A fresh per-worker manager: one connection per tick, an action every
    /// fourth tick, no ticks run yet.
    pub fn create(count: u32) -> (r: BotManager)
        ensures
            r.count == count,
            r.bots_per_tick == 1,
            r.action_tick == 4,
            r.tick_counter == 0,
    {
        BotManager { count, bots_per_tick: 1, action_tick: 4, tick_counter: 0 }
    }

    /// The admission decision of one tick: a worker whose `fetch_add` of
    /// `bots_per_tick` returned `prior` opens connections for the returned
    /// id range, empty when the target was already reached (the caller then
    /// undoes the reservation with the matching `fetch_sub`).
    pub fn admission_range(&self, prior: u32) -> (r: (u32, u32))
        ensures
            r.0 == prior,
            r.1 as int == prior + admitted(prior as int, self.bots_per_tick as int, self.count as int),
    {
        if prior < self.count {
            if self.count - prior <= self.bots_per_tick {
                (prior, self.count)
            } else {
                (prior, prior + self.bots_per_tick)
            }
        } else {
            (prior, prior)
        }
    }

    /// Whether the current tick is an action tick for bot `id`.
    pub fn action_due(&self, id: u32) -> (r: bool)
        requires
            self.action_tick >= 1,
        ensures
            r == action_due_spec(self.tick_counter as int, id as int, self.action_tick as int),
    {
        let due = (self.tick_counter as u64 + id as u64) % (self.action_tick as u64) == 0;
        proof {
            assert((self.tick_counter as u64 + id as u64) as int == self.tick_counter + id);
            assert((self.tick_counter + id) % (self.action_tick as int) == (((self.tick_counter
                as u64 + id as u64) as int) % (self.action_tick as u64) as int));
        }
        due
    }

    /// End one tick. The counter wraps around after 2^32 ticks.
    pub fn advance_tick(&mut self)
        ensures
            final(self).count == old(self).count,
            final(self).bots_per_tick == old(self).bots_per_tick,
            final(self).action_tick == old(self).action_tick,
            final(self).tick_counter as int == (old(self).tick_counter + 1) % 0x100000000,
    {
        self.tick_counter = self.tick_counter.wrapping_add(1);
    }
}

} // verus!
