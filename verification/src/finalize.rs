//! Prize-pool finalization, staged claims, and clawback of unclaimed prizes.
//!
//! Once an event has ended and every match is resolved, finalization splits
//! the escrowed prize pool over the best-ranked participants according to
//! the event's reward distribution. Each positive share is staged as a
//! [`PrizeAllocation`] rather than transferred; what is not allocated goes
//! back to the creator at once. A winner settles their allocation by a
//! claim; once the claim deadline has passed, whatever is still unclaimed
//! may be swept to treasury. Each allocation is settled exactly once.
//!
//! The functions here make the decisions; reading and writing the ledger,
//! moving tokens and publishing events is left to the caller.

use vstd::prelude::*;

use crate::address::Address;
use crate::event::EventError;
use crate::storage_types::{Event, LeaderboardEntry, Match, PrizeAllocation, CLAIM_PERIOD_SECONDS};

verus! {

// ---------------------------------------------------------------------------
// Arithmetic
// ---------------------------------------------------------------------------

/// Integer division rounding toward zero, as machine division does.
pub open spec fn trunc_div(x: int, d: int) -> int {
    if x >= 0 {
        x / d
    } else {
        -((-x) / d)
    }
}

// ---------------------------------------------------------------------------
// finalize_event
// ---------------------------------------------------------------------------

/// A match counts as resolved when its record exists and has a result.
pub open spec fn match_resolved(m: Option<Match>) -> bool {
    match m {
        Some(x) => x.result_submitted,
        None => false,
    }
}

/// Why an event may not be finalized, checked in this order: the contract
/// is paused; the event does not exist; it is cancelled; it is already
/// finalized; it has not ended at `now`; some listed match is missing or
/// unresolved. `None` when it may be finalized.
pub open spec fn finalize_refusal(
    paused: bool,
    event: Option<Event>,
    now: u64,
    matches: Seq<Option<Match>>,
) -> Option<EventError> {
    if paused {
        Some(EventError::Paused)
    } else if event is None {
        Some(EventError::EventNotFound)
    } else if event->0.is_cancelled {
        Some(EventError::EventCancelled)
    } else if event->0.is_finalized {
        Some(EventError::AlreadyFinalized)
    } else if now < event->0.end_time {
        Some(EventError::EventNotEnded)
    } else if exists|i: int| 0 <= i < matches.len() && !match_resolved(#[trigger] matches[i]) {
        Some(EventError::MatchesNotComplete)
    } else {
        None
    }
}

/// The result matching a refusal: the error, or `Ok` when there is none.
pub open spec fn refusal_result(refusal: Option<EventError>) -> Result<(), EventError> {
    match refusal {
        Some(e) => Err(e),
        None => Ok(()),
    }
}

/// Decides whether an event may be finalized.
///
/// `event` is the stored event (if any); `matches` holds, for each match id
/// listed for the event, the stored match (if any).
pub fn check_finalizable(
    paused: bool,
    event: &Option<Event>,
    now: u64,
    matches: &Vec<Option<Match>>,
) -> (r: Result<(), EventError>)
    ensures
        r == refusal_result(finalize_refusal(paused, *event, now, matches@)),
{
    if paused {
        return Err(EventError::Paused);
    }
    let ev = match event {
        Some(e) => e,
        None => {
            return Err(EventError::EventNotFound);
        },
    };
    if ev.is_cancelled {
        return Err(EventError::EventCancelled);
    }
    if ev.is_finalized {
        return Err(EventError::AlreadyFinalized);
    }
    if !ev.has_ended(now) {
        return Err(EventError::EventNotEnded);
    }
    let mut i: usize = 0;
    while i < matches.len()
        invariant
            0 <= i <= matches@.len(),
            !paused,
            *event == Some(*ev),
            !ev.is_cancelled,
            !ev.is_finalized,
            now >= ev.end_time,
            forall|k: int| 0 <= k < i ==> match_resolved(#[trigger] matches@[k]),
        decreases matches@.len() - i,
    {
        match &matches[i] {
            Some(m) => {
                if !m.result_submitted {
                    assert(!match_resolved(matches@[i as int]));
                    return Err(EventError::MatchesNotComplete);
                }
            },
            None => {
                assert(!match_resolved(matches@[i as int]));
                return Err(EventError::MatchesNotComplete);
            },
        }
        i = i + 1;
    }
    Ok(())
}

/// The share of the prize pool for a rank with the given percentage:
/// `prize_pool * percent / 100`, rounded toward zero.
pub open spec fn rank_amount(prize_pool: i128, percent: u32) -> int {
    trunc_div(prize_pool * percent, 100)
}

/// How many ranks are paid: one per reward percentage, as far as there are
/// ranked participants.
pub open spec fn paid_rank_count(event: Event, leaderboard: Seq<LeaderboardEntry>) -> int {
    if event.reward_distribution@.len() < leaderboard.len() {
        event.reward_distribution@.len() as int
    } else {
        leaderboard.len() as int
    }
}

/// The payout of each paid rank: the rank's user and its share of the pool.
pub open spec fn planned_payouts(event: Event, leaderboard: Seq<LeaderboardEntry>) -> Seq<
    (Address, i128),
> {
    Seq::new(
        paid_rank_count(event, leaderboard) as nat,
        |i: int|
            (
                leaderboard[i].user,
                rank_amount(event.prize_pool, event.reward_distribution@[i]) as i128,
            ),
    )
}

/// The allocations staged for payouts: one unclaimed allocation per payout
/// with a positive amount, in payout order.
pub open spec fn allocations_of(event_id: u64, payouts: Seq<(Address, i128)>) -> Seq<
    PrizeAllocation,
>
    decreases payouts.len(),
{
    if payouts.len() == 0 {
        Seq::empty()
    } else {
        let rest = allocations_of(event_id, payouts.drop_last());
        let p = payouts.last();
        if p.1 > 0 {
            rest.push(PrizeAllocation { winner: p.0, event_id, amount: p.1, claimed: false })
        } else {
            rest
        }
    }
}

/// The sum of the positive payout amounts.
pub open spec fn positive_total(payouts: Seq<(Address, i128)>) -> int
    decreases payouts.len(),
{
    if payouts.len() == 0 {
        0
    } else {
        positive_total(payouts.drop_last()) + if payouts.last().1 > 0 {
            payouts.last().1 as int
        } else {
            0
        }
    }
}

proof fn lemma_positive_total_zero(payouts: Seq<(Address, i128)>)
    requires
        forall|k: int| 0 <= k < payouts.len() ==> (#[trigger] payouts[k]).1 <= 0,
    ensures
        positive_total(payouts) == 0,
    decreases payouts.len(),
{
    if payouts.len() > 0 {
        lemma_positive_total_zero(payouts.drop_last());
    }
}

/// Every product `prize_pool * percent` of a paid rank, and the running
/// total of the allocated amounts, fit in an `i128`.
pub open spec fn payouts_fit(event: Event, leaderboard: Seq<LeaderboardEntry>) -> bool {
    &&& forall|i: int|
        0 <= i < paid_rank_count(event, leaderboard) ==> i128::MIN <= event.prize_pool
            * #[trigger] event.reward_distribution@[i] <= i128::MAX
    &&& positive_total(planned_payouts(event, leaderboard)) <= i128::MAX
}

/// `true` when every share of the pool and the running total of the
/// allocations fit in an `i128`, so that [`finalize_event`] may be called.
pub fn payouts_fit_check(event: &Event, leaderboard: &Vec<LeaderboardEntry>) -> (r: bool)
    ensures
        r == payouts_fit(*event, leaderboard@),
{
    let ghost planned = planned_payouts(*event, leaderboard@);
    let n = event.reward_distribution.len();
    let paid_ranks = if n < leaderboard.len() {
        n
    } else {
        leaderboard.len()
    };
    let mut total: i128 = 0;
    let mut i: usize = 0;
    while i < paid_ranks
        invariant
            0 <= i <= paid_ranks,
            paid_ranks == paid_rank_count(*event, leaderboard@),
            planned == planned_payouts(*event, leaderboard@),
            n == event.reward_distribution@.len(),
            forall|k: int|
                0 <= k < i ==> i128::MIN <= event.prize_pool
                    * #[trigger] event.reward_distribution@[k] <= i128::MAX,
            total == positive_total(planned.subrange(0, i as int)),
        decreases paid_ranks - i,
    {
        let percent = event.reward_distribution[i];
        match event.prize_pool.checked_mul(percent as i128) {
            None => {
                return false;
            },
            Some(product) => {
                let amount = product / 100;
                proof {
                    assert(planned[i as int].1 == amount);
                    assert(planned.subrange(0, i + 1).drop_last() =~= planned.subrange(
                        0,
                        i as int,
                    ));
                }
                if amount > 0 {
                    match total.checked_add(amount) {
                        None => {
                            proof {
                                lemma_positive_total_prefix(planned, i + 1);
                            }
                            return false;
                        },
                        Some(t) => {
                            total = t;
                        },
                    }
                }
            },
        }
        i = i + 1;
    }
    proof {
        assert(planned.subrange(0, paid_ranks as int) =~= planned);
    }
    true
}

/// What finalizing an event produces.
#[derive(Clone, Debug, PartialEq, Eq)]
pub struct FinalizePlan {
    /// The event, now marked finalized
    pub event: Event,
    /// The staged allocations, one per positive payout
    pub allocations: Vec<PrizeAllocation>,
    /// The payout snapshot: each paid rank's user and amount
    pub payouts: Vec<(Address, i128)>,
    /// The sum of the staged allocations
    pub total_distributed: i128,
    /// What goes back to the creator at once: the unallocated rest of the pool
    pub creator_refund: i128,
    /// The refund transfer to make: `Some(creator_refund)` when it is positive
    pub refund_transfer: Option<i128>,
    /// Until when winners may claim before a clawback is allowed
    pub claim_deadline: u64,
}

proof fn lemma_positive_total_prefix(payouts: Seq<(Address, i128)>, i: int)
    requires
        0 <= i <= payouts.len(),
    ensures
        0 <= positive_total(payouts.subrange(0, i)) <= positive_total(payouts),
    decreases payouts.len() - i,
{
    if i < payouts.len() {
        lemma_positive_total_prefix(payouts, i + 1);
        assert(payouts.subrange(0, i + 1).drop_last() =~= payouts.subrange(0, i));
    } else {
        assert(payouts.subrange(0, i) =~= payouts);
    }
    lemma_positive_total_nonneg(payouts.subrange(0, i));
}

proof fn lemma_positive_total_nonneg(payouts: Seq<(Address, i128)>)
    ensures
        positive_total(payouts) >= 0,
    decreases payouts.len(),
{
    if payouts.len() > 0 {
        lemma_positive_total_nonneg(payouts.drop_last());
    }
}

/// The plan that finalizing `event` produces (see [`plan_finalization`]).
pub open spec fn planned_finalization(
    event: Event,
    event_id: u64,
    leaderboard: Seq<LeaderboardEntry>,
    now: u64,
    plan: FinalizePlan,
) -> bool {
    let total = positive_total(planned_payouts(event, leaderboard));
    &&& plan.payouts@ == planned_payouts(event, leaderboard)
    &&& plan.allocations@ == allocations_of(event_id, plan.payouts@)
    &&& plan.total_distributed == total
    &&& plan.creator_refund == event.prize_pool - total
    &&& plan.refund_transfer == (if event.prize_pool - total > 0 {
        Some((event.prize_pool - total) as i128)
    } else {
        None
    })
    &&& plan.event == (Event { is_finalized: true, ..event })
    &&& plan.claim_deadline == now + CLAIM_PERIOD_SECONDS
}

/// Splits the prize pool of an event that may be finalized.
///
/// `leaderboard` is the event's ranked leaderboard, best first. Rank `i`
/// (for each `i` below both the number of reward percentages and the number
/// of ranked participants) is paid `prize_pool * reward_distribution[i] /
/// 100`; each positive amount is staged as an unclaimed allocation for the
/// rank's user. The rest of the pool is refunded to the creator (all of it
/// when nobody is ranked). The event is marked finalized, and the claim
/// deadline is `now + CLAIM_PERIOD_SECONDS`.
pub fn plan_finalization(
    event: Event,
    event_id: u64,
    leaderboard: &Vec<LeaderboardEntry>,
    now: u64,
) -> (plan: FinalizePlan)
    requires
        payouts_fit(event, leaderboard@),
        now + CLAIM_PERIOD_SECONDS <= u64::MAX,
    ensures
        plan.payouts@ == planned_payouts(event, leaderboard@),
        plan.allocations@ == allocations_of(event_id, plan.payouts@),
        plan.total_distributed == positive_total(plan.payouts@),
        plan.creator_refund == event.prize_pool - plan.total_distributed,
        plan.refund_transfer == (if plan.creator_refund > 0 {
            Some(plan.creator_refund)
        } else {
            None
        }),
        plan.event == (Event { is_finalized: true, ..event }),
        plan.claim_deadline == now + CLAIM_PERIOD_SECONDS,
        planned_finalization(event, event_id, leaderboard@, now, plan),
{
    let ghost planned = planned_payouts(event, leaderboard@);
    let prize_pool = event.prize_pool;
    let n = event.reward_distribution.len();
    let paid_ranks = if n < leaderboard.len() {
        n
    } else {
        leaderboard.len()
    };
    let mut payouts: Vec<(Address, i128)> = Vec::new();
    let mut allocations: Vec<PrizeAllocation> = Vec::new();
    let mut total_distributed: i128 = 0;
    let mut i: usize = 0;
    proof {
        lemma_positive_total_prefix(planned, planned.len() as int);
    }
    while i < paid_ranks
        invariant
            0 <= i <= paid_ranks,
            paid_ranks == paid_rank_count(event, leaderboard@),
            planned == planned_payouts(event, leaderboard@),
            planned.len() == paid_ranks,
            payouts_fit(event, leaderboard@),
            prize_pool == event.prize_pool,
            n == event.reward_distribution@.len(),
            payouts@ == planned.subrange(0, i as int),
            allocations@ == allocations_of(event_id, payouts@),
            total_distributed == positive_total(payouts@),
        decreases paid_ranks - i,
    {
        let percent = event.reward_distribution[i];
        let entry = leaderboard[i];
        proof {
            assert(i128::MIN <= prize_pool * event.reward_distribution@[i as int] <= i128::MAX);
        }
        let amount: i128 = prize_pool * percent as i128 / 100;
        proof {
            assert(planned[i as int] == (entry.user, amount));
            assert(planned.subrange(0, i + 1).drop_last() =~= planned.subrange(0, i as int));
            lemma_positive_total_prefix(planned, i + 1);
            assert(planned.subrange(0, i + 1) =~= payouts@.push((entry.user, amount)));
        }
        if amount > 0 {
            allocations.push(
                PrizeAllocation { winner: entry.user, event_id, amount, claimed: false },
            );
            total_distributed = total_distributed + amount;
        }
        payouts.push((entry.user, amount));
        proof {
            assert(payouts@.drop_last() =~= planned.subrange(0, i as int));
        }
        i = i + 1;
    }
    proof {
        assert(payouts@ =~= planned);
        lemma_positive_total_nonneg(planned);
        if prize_pool < 0 {
            assert forall|k: int| 0 <= k < planned.len() implies (#[trigger] planned[k]).1 <= 0 by {
                let p = event.reward_distribution@[k];
                assert(prize_pool * p <= 0) by (nonlinear_arith)
                    requires
                        prize_pool < 0,
                        p >= 0,
                ;
            }
            lemma_positive_total_zero(planned);
        }
    }
    let creator_refund = prize_pool - total_distributed;
    let refund_transfer = if creator_refund > 0 {
        Some(creator_refund)
    } else {
        None
    };
    let mut finalized = event;
    finalized.is_finalized = true;
    FinalizePlan {
        event: finalized,
        allocations,
        payouts,
        total_distributed,
        creator_refund,
        refund_transfer,
        claim_deadline: now + CLAIM_PERIOD_SECONDS,
    }
}


/// Finalizes an event: refused, producing no plan at all, exactly when
/// [`finalize_refusal`] gives a reason (checked in the order paused, event
/// not found, cancelled, already finalized, not ended, matches not
/// complete); otherwise the plan of [`plan_finalization`].
///
/// `event` is the stored event (if any), `matches` holds the stored match
/// (if any) of each match id listed for the event, and `leaderboard` is the
/// event's ranked leaderboard, best first. Anyone may finalize: `caller`
/// (whose authorization the contract checks) plays no part, and the outcome
/// is the same whoever asks.
pub fn finalize_event(
    caller: Address,
    paused: bool,
    event: Option<Event>,
    now: u64,
    matches: &Vec<Option<Match>>,
    event_id: u64,
    leaderboard: &Vec<LeaderboardEntry>,
) -> (r: Result<FinalizePlan, EventError>)
    requires
        finalize_refusal(paused, event, now, matches@) is None ==> payouts_fit(
            event->0,
            leaderboard@,
        ) && now + CLAIM_PERIOD_SECONDS <= u64::MAX,
    ensures
        match finalize_refusal(paused, event, now, matches@) {
            Some(e) => r == Err::<FinalizePlan, EventError>(e),
            None => r is Ok && planned_finalization(
                event->0,
                event_id,
                leaderboard@,
                now,
                r->Ok_0,
            ),
        },
{
    check_finalizable(paused, &event, now, matches)?;
    match event {
        Some(ev) => Ok(plan_finalization(ev, event_id, leaderboard, now)),
        None => Err(EventError::EventNotFound),
    }
}

// ---------------------------------------------------------------------------
// claim_prize
// ---------------------------------------------------------------------------

/// Why a claim is refused, checked in this order: the contract is paused;
/// the event does not exist; it is not finalized; the claimant has no
/// allocation; the allocation is already settled. `None` when the claim
/// goes through.
pub open spec fn claim_refusal(
    paused: bool,
    event: Option<Event>,
    allocation: Option<PrizeAllocation>,
) -> Option<EventError> {
    if paused {
        Some(EventError::Paused)
    } else if event is None {
        Some(EventError::EventNotFound)
    } else if !event->0.is_finalized {
        Some(EventError::EventNotFinalized)
    } else if allocation is None {
        Some(EventError::NoAllocation)
    } else if allocation->0.claimed {
        Some(EventError::AlreadyClaimed)
    } else {
        None
    }
}

/// The same allocation, marked settled.
pub open spec fn settled(a: PrizeAllocation) -> PrizeAllocation {
    PrizeAllocation { claimed: true, ..a }
}

/// Decides a winner's claim on their staged allocation.
///
/// `event` is the stored event (if any) and `allocation` the claimant's
/// stored allocation for it (if any). On success returns the allocation
/// marked settled; its `amount` is what the winner is paid.
pub fn claim_prize(paused: bool, event: &Option<Event>, allocation: Option<PrizeAllocation>) -> (r:
    Result<PrizeAllocation, EventError>)
    ensures
        match claim_refusal(paused, *event, allocation) {
            Some(e) => r == Err::<PrizeAllocation, EventError>(e),
            None => r == Ok::<PrizeAllocation, EventError>(settled(allocation->0)),
        },
{
    if paused {
        return Err(EventError::Paused);
    }
    let ev = match event {
        Some(e) => e,
        None => {
            return Err(EventError::EventNotFound);
        },
    };
    if !ev.is_finalized {
        return Err(EventError::EventNotFinalized);
    }
    let mut a = match allocation {
        Some(a) => a,
        None => {
            return Err(EventError::NoAllocation);
        },
    };
    if a.claimed {
        return Err(EventError::AlreadyClaimed);
    }
    a.claimed = true;
    Ok(a)
}

// ---------------------------------------------------------------------------
// clawback_unclaimed
// ---------------------------------------------------------------------------

/// Why a clawback is refused, checked in this order: the contract is
/// paused; the event does not exist; it is not finalized; the claim
/// deadline (never, when none is recorded) has not passed at `now`.
pub open spec fn clawback_refusal(
    paused: bool,
    event: Option<Event>,
    claim_deadline: Option<u64>,
    now: u64,
) -> Option<EventError> {
    if paused {
        Some(EventError::Paused)
    } else if event is None {
        Some(EventError::EventNotFound)
    } else if !event->0.is_finalized {
        Some(EventError::EventNotFinalized)
    } else if now < (match claim_deadline {
        Some(d) => d,
        None => u64::MAX,
    }) {
        Some(EventError::ClaimPeriodNotExpired)
    } else {
        None
    }
}

/// Decides whether a clawback may run: refused when the contract is
/// paused, the event does not exist or is not finalized, or its claim
/// deadline (never, when none is recorded) has not passed at `now`.
pub fn check_clawback(paused: bool, event: &Option<Event>, claim_deadline: Option<u64>, now: u64) -> (r:
    Result<(), EventError>)
    ensures
        r == refusal_result(clawback_refusal(paused, *event, claim_deadline, now)),
{
    if paused {
        return Err(EventError::Paused);
    }
    let ev = match event {
        Some(e) => e,
        None => {
            return Err(EventError::EventNotFound);
        },
    };
    if !ev.is_finalized {
        return Err(EventError::EventNotFinalized);
    }
    let deadline = match claim_deadline {
        Some(d) => d,
        None => u64::MAX,
    };
    if now < deadline {
        return Err(EventError::ClaimPeriodNotExpired);
    }
    Ok(())
}

/// Some allocation written during the sweep is stored under the key of
/// `winner`'s allocation for the event.
pub open spec fn written_to(writes: Seq<PrizeAllocation>, winner: Address, event_id: u64) -> bool {
    exists|k: int|
        0 <= k < writes.len() && (#[trigger] writes[k]).winner == winner && writes[k].event_id
            == event_id
}

/// The stored allocation of payout `i`, as read before the sweep.
pub open spec fn snapshot_at(snapshot: Seq<Option<PrizeAllocation>>, i: int) -> Option<
    PrizeAllocation,
> {
    if 0 <= i < snapshot.len() {
        snapshot[i]
    } else {
        None
    }
}

/// The sweep over the payouts: the allocations it settles, in order, and the
/// total it sweeps.
///
/// Payouts are visited in order. One with a non-positive amount is skipped.
/// So is one whose allocation was already settled earlier in the same sweep
/// (a settled allocation is stored under its own winner and event), one with
/// no stored allocation, and one whose allocation is already settled.
/// Otherwise the allocation is settled and its amount added to the sweep.
pub open spec fn sweep(
    event_id: u64,
    payouts: Seq<(Address, i128)>,
    snapshot: Seq<Option<PrizeAllocation>>,
) -> (Seq<PrizeAllocation>, int)
    decreases payouts.len(),
{
    if payouts.len() == 0 {
        (Seq::empty(), 0)
    } else {
        let prev = sweep(event_id, payouts.drop_last(), snapshot);
        let i = payouts.len() - 1;
        let p = payouts[i];
        if p.1 <= 0 || written_to(prev.0, p.0, event_id) {
            prev
        } else {
            match snapshot_at(snapshot, i) {
                Some(a) => if a.claimed {
                    prev
                } else {
                    (prev.0.push(settled(a)), prev.1 + a.amount)
                },
                None => prev,
            }
        }
    }
}

/// Every running total of the sweep fits in an `i128`.
pub open spec fn sweep_fits(
    event_id: u64,
    payouts: Seq<(Address, i128)>,
    snapshot: Seq<Option<PrizeAllocation>>,
) -> bool {
    forall|j: int|
        0 <= j <= payouts.len() ==> i128::MIN <= #[trigger] sweep(
            event_id,
            payouts.subrange(0, j),
            snapshot,
        ).1 <= i128::MAX
}

/// Runs the sweep, or `None` when a running total leaves the `i128` range.
fn sweep_checked(
    event_id: u64,
    payouts: &Vec<(Address, i128)>,
    snapshot: &Vec<Option<PrizeAllocation>>,
) -> (r: Option<(Vec<PrizeAllocation>, i128)>)
    ensures
        r is Some <==> sweep_fits(event_id, payouts@, snapshot@),
        r matches Some(x) ==> (x.0@, x.1 as int) == sweep(event_id, payouts@, snapshot@),
{
    let mut written: Vec<PrizeAllocation> = Vec::new();
    let mut swept: i128 = 0;
    let mut i: usize = 0;
    proof {
        assert(payouts@.subrange(0, 0) =~= Seq::<(Address, i128)>::empty());
    }
    while i < payouts.len()
        invariant
            0 <= i <= payouts@.len(),
            forall|j: int|
                0 <= j <= i ==> i128::MIN <= #[trigger] sweep(
                    event_id,
                    payouts@.subrange(0, j),
                    snapshot@,
                ).1 <= i128::MAX,
            (written@, swept as int) == sweep(event_id, payouts@.subrange(0, i as int), snapshot@),
        decreases payouts@.len() - i,
    {
        let (winner, amount) = payouts[i];
        proof {
            assert(payouts@.subrange(0, i + 1).drop_last() =~= payouts@.subrange(0, i as int));
        }
        if amount > 0 {
            let mut already = false;
            let mut k: usize = 0;
            while k < written.len()
                invariant
                    0 <= k <= written@.len(),
                    already == exists|m: int|
                        0 <= m < k && (#[trigger] written@[m]).winner == winner
                            && written@[m].event_id == event_id,
                decreases written@.len() - k,
            {
                if written[k].winner.same_as(&winner) && written[k].event_id == event_id {
                    already = true;
                }
                k = k + 1;
            }
            if !already && i < snapshot.len() {
                match snapshot[i] {
                    Some(a) => {
                        if !a.claimed {
                            match swept.checked_add(a.amount) {
                                Some(t) => {
                                    let mut s = a;
                                    s.claimed = true;
                                    written.push(s);
                                    swept = t;
                                },
                                None => {
                                    assert(!sweep_fits(event_id, payouts@, snapshot@)) by {
                                        assert(!(i128::MIN <= sweep(
                                            event_id,
                                            payouts@.subrange(0, i + 1),
                                            snapshot@,
                                        ).1 <= i128::MAX));
                                    }
                                    return None;
                                },
                            }
                        }
                    },
                    None => {},
                }
            }
        }
        i = i + 1;
    }
    proof {
        assert(payouts@.subrange(0, payouts@.len() as int) =~= payouts@);
    }
    Some((written, swept))
}

/// `true` when every running total of the sweep fits in an `i128`, so that
/// [`clawback_unclaimed`] may be called.
pub fn sweep_fits_check(
    event_id: u64,
    payouts: &Vec<(Address, i128)>,
    snapshot: &Vec<Option<PrizeAllocation>>,
) -> (r: bool)
    ensures
        r == sweep_fits(event_id, payouts@, snapshot@),
{
    sweep_checked(event_id, payouts, snapshot).is_some()
}

/// What a clawback produces.
#[derive(Clone, Debug, PartialEq, Eq)]
pub struct Clawback {
    /// The allocations it settles, to be stored back, in order
    pub settled: Vec<PrizeAllocation>,
    /// The total swept to treasury
    pub swept: i128,
    /// The transfer to treasury to make: `Some(swept)` when it is positive
    pub sweep_transfer: Option<i128>,
}

/// Decides a clawback of the unclaimed allocations of an event.
///
/// `event` is the stored event (if any), `claim_deadline` its stored claim
/// deadline (if any), `payouts` its stored payout snapshot, and
/// `snapshot[i]` the stored allocation of `payouts[i]`'s user (if any), all
/// read before the sweep. Every allocation still unclaimed is settled and
/// its amount swept; allocations already claimed are left alone, so a
/// repeated clawback sweeps nothing.
pub fn clawback_unclaimed(
    paused: bool,
    event_id: u64,
    event: &Option<Event>,
    claim_deadline: Option<u64>,
    now: u64,
    payouts: &Vec<(Address, i128)>,
    snapshot: &Vec<Option<PrizeAllocation>>,
) -> (r: Result<Clawback, EventError>)
    requires
        clawback_refusal(paused, *event, claim_deadline, now) is None ==> sweep_fits(
            event_id,
            payouts@,
            snapshot@,
        ),
    ensures
        match clawback_refusal(paused, *event, claim_deadline, now) {
            Some(e) => r == Err::<Clawback, EventError>(e),
            None => r is Ok && r->Ok_0.settled@ == sweep(event_id, payouts@, snapshot@).0
                && r->Ok_0.swept == sweep(event_id, payouts@, snapshot@).1
                && r->Ok_0.sweep_transfer == (if r->Ok_0.swept > 0 {
                Some(r->Ok_0.swept)
            } else {
                None
            }),
        },
{
    check_clawback(paused, event, claim_deadline, now)?;
    let (written, swept) = sweep_checked(event_id, payouts, snapshot).unwrap();
    let sweep_transfer = if swept > 0 {
        Some(swept)
    } else {
        None
    };
    Ok(Clawback { settled: written, swept, sweep_transfer })
}


// ---------------------------------------------------------------------------
// Laws
// ---------------------------------------------------------------------------

/// A claim settles an allocation once: the settled allocation is refused
/// as already claimed on any later claim.
pub proof fn lemma_claim_settles_once(paused: bool, event: Option<Event>, allocation: PrizeAllocation)
    requires
        claim_refusal(paused, event, Some(allocation)) is None,
    ensures
        claim_refusal(paused, event, Some(settled(allocation))) == Some(EventError::AlreadyClaimed),
{
}

/// Before an event is finalized, neither a claim nor a clawback goes
/// through: both are refused with `EventNotFinalized` (unless paused).
pub proof fn lemma_nothing_settles_before_finalization(
    event: Event,
    allocation: Option<PrizeAllocation>,
    claim_deadline: Option<u64>,
    now: u64,
)
    requires
        !event.is_finalized,
    ensures
        claim_refusal(false, Some(event), allocation) == Some(EventError::EventNotFinalized),
        clawback_refusal(false, Some(event), claim_deadline, now) == Some(
            EventError::EventNotFinalized,
        ),
{
}

/// Finalization stages exactly what it distributes: the staged allocations
/// are unclaimed, positive, belong to the event, and sum to the total
/// distributed; and no clawback is possible before the claim period has
/// run its full length.
pub proof fn lemma_finalize_accounts_for_pool(
    event: Event,
    event_id: u64,
    leaderboard: Seq<LeaderboardEntry>,
    now: u64,
    later: u64,
)
    requires
        now + CLAIM_PERIOD_SECONDS <= u64::MAX,
        later < now + CLAIM_PERIOD_SECONDS,
    ensures
        ({
            let payouts = planned_payouts(event, leaderboard);
            let allocations = allocations_of(event_id, payouts);
            &&& allocation_sum(allocations) == positive_total(payouts)
            &&& forall|k: int|
                0 <= k < allocations.len() ==> !(#[trigger] allocations[k]).claimed
                    && allocations[k].amount > 0 && allocations[k].event_id == event_id
        }),
        clawback_refusal(
            false,
            Some(Event { is_finalized: true, ..event }),
            Some((now + CLAIM_PERIOD_SECONDS) as u64),
            later,
        ) == Some(EventError::ClaimPeriodNotExpired),
{
    lemma_allocations_of(event_id, planned_payouts(event, leaderboard));
}

/// The sum of the allocations' amounts.
pub open spec fn allocation_sum(allocations: Seq<PrizeAllocation>) -> int
    decreases allocations.len(),
{
    if allocations.len() == 0 {
        0
    } else {
        allocation_sum(allocations.drop_last()) + allocations.last().amount
    }
}

proof fn lemma_allocations_of(event_id: u64, payouts: Seq<(Address, i128)>)
    ensures
        allocation_sum(allocations_of(event_id, payouts)) == positive_total(payouts),
        forall|k: int|
            0 <= k < allocations_of(event_id, payouts).len() ==> !(#[trigger] allocations_of(
                event_id,
                payouts,
            )[k]).claimed && allocations_of(event_id, payouts)[k].amount > 0 && allocations_of(
                event_id,
                payouts,
            )[k].event_id == event_id,
    decreases payouts.len(),
{
    if payouts.len() > 0 {
        lemma_allocations_of(event_id, payouts.drop_last());
        let rest = allocations_of(event_id, payouts.drop_last());
        let all = allocations_of(event_id, payouts);
        if payouts.last().1 > 0 {
            assert(all.drop_last() =~= rest);
        }
    }
}

/// Everything a sweep writes is a settled allocation.
pub proof fn lemma_sweep_settles(
    event_id: u64,
    payouts: Seq<(Address, i128)>,
    snapshot: Seq<Option<PrizeAllocation>>,
)
    ensures
        forall|k: int|
            0 <= k < sweep(event_id, payouts, snapshot).0.len() ==> (#[trigger] sweep(
                event_id,
                payouts,
                snapshot,
            ).0[k]).claimed,
    decreases payouts.len(),
{
    if payouts.len() > 0 {
        lemma_sweep_settles(event_id, payouts.drop_last(), snapshot);
    }
}

/// A claim on an allocation that a clawback settled is refused as already
/// claimed, exactly like a second claim.
pub proof fn lemma_claim_after_clawback_refused(
    event: Event,
    event_id: u64,
    payouts: Seq<(Address, i128)>,
    snapshot: Seq<Option<PrizeAllocation>>,
    k: int,
)
    requires
        event.is_finalized,
        0 <= k < sweep(event_id, payouts, snapshot).0.len(),
    ensures
        claim_refusal(false, Some(event), Some(sweep(event_id, payouts, snapshot).0[k])) == Some(
            EventError::AlreadyClaimed,
        ),
{
    lemma_sweep_settles(event_id, payouts, snapshot);
}

/// What the ledger holds under `winner`'s allocation key for the event once
/// `writes` have been stored on top of `before`: the last write under that
/// key, or `before` when there is none.
pub open spec fn read_after(
    before: Option<PrizeAllocation>,
    winner: Address,
    event_id: u64,
    writes: Seq<PrizeAllocation>,
) -> Option<PrizeAllocation>
    decreases writes.len(),
{
    if writes.len() == 0 {
        before
    } else if writes.last().winner == winner && writes.last().event_id == event_id {
        Some(writes.last())
    } else {
        read_after(before, winner, event_id, writes.drop_last())
    }
}

/// Each stored allocation read for a payout is the allocation of that
/// payout's user for the event (as every stored allocation is kept under its
/// own winner and event).
pub open spec fn snapshot_matches_keys(
    event_id: u64,
    payouts: Seq<(Address, i128)>,
    snapshot: Seq<Option<PrizeAllocation>>,
) -> bool {
    forall|i: int|
        0 <= i < payouts.len() && 0 <= i < snapshot.len() ==> match #[trigger] snapshot[i] {
            Some(a) => a.winner == payouts[i].0 && a.event_id == event_id,
            None => true,
        }
}

proof fn lemma_read_after_written(
    before: Option<PrizeAllocation>,
    winner: Address,
    event_id: u64,
    writes: Seq<PrizeAllocation>,
)
    requires
        written_to(writes, winner, event_id),
        forall|k: int| 0 <= k < writes.len() ==> (#[trigger] writes[k]).claimed,
    ensures
        read_after(before, winner, event_id, writes) matches Some(a) && a.claimed,
    decreases writes.len(),
{
    if writes.len() > 0 {
        let last = writes.last();
        if !(last.winner == winner && last.event_id == event_id) {
            let k = choose|k: int|
                0 <= k < writes.len() && (#[trigger] writes[k]).winner == winner
                    && writes[k].event_id == event_id;
            assert(writes.drop_last()[k] == writes[k]);
            lemma_read_after_written(before, winner, event_id, writes.drop_last());
        }
    }
}

proof fn lemma_read_after_unwritten(
    before: Option<PrizeAllocation>,
    winner: Address,
    event_id: u64,
    writes: Seq<PrizeAllocation>,
)
    requires
        !written_to(writes, winner, event_id),
    ensures
        read_after(before, winner, event_id, writes) == before,
    decreases writes.len(),
{
    if writes.len() > 0 {
        assert(!(writes.last().winner == winner && writes.last().event_id == event_id)) by {
            if writes.last().winner == winner && writes.last().event_id == event_id {
                assert(writes[writes.len() - 1] == writes.last());
            }
        }
        assert forall|k: int|
            0 <= k < writes.drop_last().len() implies !((#[trigger] writes.drop_last()[k]).winner
            == winner && writes.drop_last()[k].event_id == event_id) by {
            assert(writes.drop_last()[k] == writes[k]);
        }
        lemma_read_after_unwritten(before, winner, event_id, writes.drop_last());
    }
}

/// The writes of a shorter sweep are a prefix of those of a longer one.
proof fn lemma_sweep_prefix(
    event_id: u64,
    payouts: Seq<(Address, i128)>,
    snapshot: Seq<Option<PrizeAllocation>>,
    j: int,
)
    requires
        0 <= j <= payouts.len(),
    ensures
        sweep(event_id, payouts.subrange(0, j), snapshot).0.len() <= sweep(
            event_id,
            payouts,
            snapshot,
        ).0.len(),
        forall|k: int|
            0 <= k < sweep(event_id, payouts.subrange(0, j), snapshot).0.len() ==> (
            #[trigger] sweep(event_id, payouts.subrange(0, j), snapshot).0[k]) == sweep(
                event_id,
                payouts,
                snapshot,
            ).0[k],
    decreases payouts.len() - j,
{
    if j == payouts.len() {
        assert(payouts.subrange(0, j) =~= payouts);
    } else {
        lemma_sweep_prefix(event_id, payouts, snapshot, j + 1);
        assert(payouts.subrange(0, j + 1).drop_last() =~= payouts.subrange(0, j));
        let a = sweep(event_id, payouts.subrange(0, j), snapshot).0;
        let b = sweep(event_id, payouts.subrange(0, j + 1), snapshot).0;
        let full = sweep(event_id, payouts, snapshot).0;
        assert(b =~= a || (b.len() == a.len() + 1 && b.drop_last() =~= a));
        assert forall|k: int| 0 <= k < a.len() implies (#[trigger] a[k]) == full[k] by {
            assert(a[k] == b[k]);
        }
    }
}

/// A repeated clawback is a no-op: re-reading the ledger after a sweep, a
/// second sweep over the same payouts settles nothing and sweeps 0.
pub proof fn lemma_clawback_twice_is_noop(
    event_id: u64,
    payouts: Seq<(Address, i128)>,
    first: Seq<Option<PrizeAllocation>>,
    second: Seq<Option<PrizeAllocation>>,
)
    requires
        snapshot_matches_keys(event_id, payouts, first),
        second.len() == payouts.len(),
        forall|i: int|
            0 <= i < payouts.len() ==> #[trigger] second[i] == read_after(
                snapshot_at(first, i),
                payouts[i].0,
                event_id,
                sweep(event_id, payouts, first).0,
            ),
    ensures
        sweep(event_id, payouts, second) == (Seq::<PrizeAllocation>::empty(), 0int),
        sweep_fits(event_id, payouts, second),
{
    lemma_sweep_settles(event_id, payouts, first);
    lemma_second_sweep_empty(event_id, payouts, first, second, payouts.len() as int);
    assert(payouts.subrange(0, payouts.len() as int) =~= payouts);
    assert forall|j: int| 0 <= j <= payouts.len() implies i128::MIN <= #[trigger] sweep(
        event_id,
        payouts.subrange(0, j),
        second,
    ).1 <= i128::MAX by {
        lemma_second_sweep_empty(event_id, payouts, first, second, j);
    }
}

proof fn lemma_second_sweep_empty(
    event_id: u64,
    payouts: Seq<(Address, i128)>,
    first: Seq<Option<PrizeAllocation>>,
    second: Seq<Option<PrizeAllocation>>,
    j: int,
)
    requires
        0 <= j <= payouts.len(),
        snapshot_matches_keys(event_id, payouts, first),
        second.len() == payouts.len(),
        forall|i: int|
            0 <= i < payouts.len() ==> #[trigger] second[i] == read_after(
                snapshot_at(first, i),
                payouts[i].0,
                event_id,
                sweep(event_id, payouts, first).0,
            ),
        forall|k: int|
            0 <= k < sweep(event_id, payouts, first).0.len() ==> (#[trigger] sweep(
                event_id,
                payouts,
                first,
            ).0[k]).claimed,
    ensures
        sweep(event_id, payouts.subrange(0, j), second) == (Seq::<PrizeAllocation>::empty(), 0int),
    decreases j,
{
    if j > 0 {
        let i = j - 1;
        let pre = payouts.subrange(0, j);
        assert(pre.drop_last() =~= payouts.subrange(0, i));
        lemma_second_sweep_empty(event_id, payouts, first, second, i);
        let p = payouts[i];
        assert(pre[i] == p);
        let writes = sweep(event_id, payouts, first).0;
        if p.1 > 0 {
            assert(!written_to(Seq::<PrizeAllocation>::empty(), p.0, event_id));
            if written_to(writes, p.0, event_id) {
                lemma_read_after_written(snapshot_at(first, i), p.0, event_id, writes);
            } else {
                lemma_read_after_unwritten(snapshot_at(first, i), p.0, event_id, writes);
                // The first sweep, at payout i, did not settle anything.
                let before = sweep(event_id, payouts.subrange(0, i), first);
                lemma_sweep_prefix(event_id, payouts, first, j);
                lemma_sweep_prefix(event_id, payouts, first, i);
                let at_j = sweep(event_id, pre, first);
                assert(!written_to(before.0, p.0, event_id)) by {
                    if written_to(before.0, p.0, event_id) {
                        let k = choose|k: int|
                            0 <= k < before.0.len() && (#[trigger] before.0[k]).winner == p.0
                                && before.0[k].event_id == event_id;
                        assert(writes[k] == before.0[k]);
                    }
                }
                match snapshot_at(first, i) {
                    Some(a) => {
                        if !a.claimed {
                            assert(at_j.0 == before.0.push(settled(a)));
                            assert(at_j.0[before.0.len() as int] == settled(a));
                            assert(writes[before.0.len() as int] == settled(a));
                            assert(a.winner == p.0 && a.event_id == event_id);
                            assert(written_to(writes, p.0, event_id));
                        }
                    },
                    None => {},
                }
            }
        }
    }
}


/// What the ledger holds for a payout's user once some winners have
/// claimed: the staged allocation for a positive payout (settled exactly
/// when its user is among `claimers`), nothing for any other payout.
pub open spec fn allocation_after_claims(
    event_id: u64,
    payout: (Address, i128),
    claimers: Set<Address>,
) -> Option<PrizeAllocation> {
    if payout.1 > 0 {
        Some(
            PrizeAllocation {
                winner: payout.0,
                event_id,
                amount: payout.1,
                claimed: claimers.contains(payout.0),
            },
        )
    } else {
        None
    }
}

/// The sum of the positive payouts whose users are among `claimers`.
pub open spec fn claimed_total(payouts: Seq<(Address, i128)>, claimers: Set<Address>) -> int
    decreases payouts.len(),
{
    if payouts.len() == 0 {
        0
    } else {
        claimed_total(payouts.drop_last(), claimers) + if payouts.last().1 > 0
            && claimers.contains(payouts.last().0) {
            payouts.last().1 as int
        } else {
            0
        }
    }
}

/// No user appears twice among the payouts.
pub open spec fn distinct_winners(payouts: Seq<(Address, i128)>) -> bool {
    forall|i: int, j: int| 0 <= i < j < payouts.len() ==> payouts[i].0 != payouts[j].0
}

/// Claims and clawback together settle exactly what was allocated: when
/// some winners have claimed their allocations and a clawback then sweeps
/// the rest, the claimed amounts plus the swept amount equal the sum of the
/// allocations (the positive payouts), and the sweep settles exactly the
/// unclaimed ones.
pub proof fn lemma_claims_plus_clawback_equal_allocated(
    event_id: u64,
    payouts: Seq<(Address, i128)>,
    claimers: Set<Address>,
    snapshot: Seq<Option<PrizeAllocation>>,
)
    requires
        distinct_winners(payouts),
        snapshot.len() == payouts.len(),
        forall|i: int|
            0 <= i < payouts.len() ==> #[trigger] snapshot[i] == allocation_after_claims(
                event_id,
                payouts[i],
                claimers,
            ),
    ensures
        claimed_total(payouts, claimers) + sweep(event_id, payouts, snapshot).1 == positive_total(
            payouts,
        ),
{
    lemma_conservation_prefix(event_id, payouts, claimers, snapshot, payouts.len() as int);
    assert(payouts.subrange(0, payouts.len() as int) =~= payouts);
}

proof fn lemma_conservation_prefix(
    event_id: u64,
    payouts: Seq<(Address, i128)>,
    claimers: Set<Address>,
    snapshot: Seq<Option<PrizeAllocation>>,
    j: int,
)
    requires
        0 <= j <= payouts.len(),
        distinct_winners(payouts),
        snapshot.len() == payouts.len(),
        forall|i: int|
            0 <= i < payouts.len() ==> #[trigger] snapshot[i] == allocation_after_claims(
                event_id,
                payouts[i],
                claimers,
            ),
    ensures
        claimed_total(payouts.subrange(0, j), claimers) + sweep(
            event_id,
            payouts.subrange(0, j),
            snapshot,
        ).1 == positive_total(payouts.subrange(0, j)),
        forall|k: int|
            0 <= k < sweep(event_id, payouts.subrange(0, j), snapshot).0.len() ==> exists|m: int|
                0 <= m < j && (#[trigger] sweep(event_id, payouts.subrange(0, j), snapshot).0[k]).winner
                    == payouts[m].0,
    decreases j,
{
    if j > 0 {
        let i = j - 1;
        let pre = payouts.subrange(0, j);
        assert(pre.drop_last() =~= payouts.subrange(0, i));
        lemma_conservation_prefix(event_id, payouts, claimers, snapshot, i);
        let prev = sweep(event_id, payouts.subrange(0, i), snapshot);
        let p = payouts[i];
        assert(pre.last() == p);
        assert(!written_to(prev.0, p.0, event_id)) by {
            if written_to(prev.0, p.0, event_id) {
                let k = choose|k: int|
                    0 <= k < prev.0.len() && (#[trigger] prev.0[k]).winner == p.0
                        && prev.0[k].event_id == event_id;
                let m = choose|m: int| 0 <= m < i && (#[trigger] prev.0[k]).winner == payouts[m].0;
                assert(payouts[m].0 != payouts[i].0);
            }
        }
        assert(snapshot_at(snapshot, i) == allocation_after_claims(event_id, p, claimers));
        let cur = sweep(event_id, pre, snapshot);
        assert forall|k: int| 0 <= k < cur.0.len() implies exists|m: int|
            0 <= m < j && (#[trigger] cur.0[k]).winner == payouts[m].0 by {
            if k < prev.0.len() {
                assert(cur.0[k] == prev.0[k]);
                let m = choose|m: int| 0 <= m < i && (#[trigger] prev.0[k]).winner == payouts[m].0;
                assert(cur.0[k].winner == payouts[m].0);
            } else {
                assert(cur.0[k].winner == payouts[i].0);
            }
        }
    }
}

/// Distinct leaderboard users get distinct payouts.
pub proof fn lemma_planned_payouts_distinct(event: Event, leaderboard: Seq<LeaderboardEntry>)
    requires
        forall|i: int, j: int|
            0 <= i < j < leaderboard.len() ==> leaderboard[i].user != leaderboard[j].user,
    ensures
        distinct_winners(planned_payouts(event, leaderboard)),
{
}

/// The sum of a reward distribution's percentages.
pub open spec fn percent_sum(percents: Seq<u32>) -> int
    decreases percents.len(),
{
    if percents.len() == 0 {
        0
    } else {
        percent_sum(percents.drop_last()) + percents.last()
    }
}

proof fn lemma_percent_sum_bounds(percents: Seq<u32>, i: int)
    requires
        0 <= i < percents.len(),
    ensures
        0 <= percents[i] <= percent_sum(percents),
        0 <= percent_sum(percents.subrange(0, i)),
        percent_sum(percents.subrange(0, i)) + percents[i] <= percent_sum(percents),
        percent_sum(percents.subrange(0, i + 1)) == percent_sum(percents.subrange(0, i))
            + percents[i],
    decreases percents.len(),
{
    assert(percents.subrange(0, i + 1).drop_last() =~= percents.subrange(0, i));
    lemma_percent_sum_nonneg(percents.subrange(0, i));
    if i < percents.len() - 1 {
        lemma_percent_sum_bounds(percents.drop_last(), i);
        assert(percents.drop_last().subrange(0, i) =~= percents.subrange(0, i));
        assert(percents.drop_last().subrange(0, i + 1) =~= percents.subrange(0, i + 1));
    } else {
        assert(percents.drop_last() =~= percents.subrange(0, i));
    }
}

proof fn lemma_percent_sum_nonneg(percents: Seq<u32>)
    ensures
        percent_sum(percents) >= 0,
    decreases percents.len(),
{
    if percents.len() > 0 {
        lemma_percent_sum_nonneg(percents.drop_last());
    }
}

/// A reward distribution as events are created with it: empty for a fun
/// event (no pool), otherwise percentages of 1 to 100 each that sum to 100.
pub open spec fn distribution_is_valid(event: Event) -> bool {
    &&& event.prize_pool >= 0
    &&& event.prize_pool == 0 ==> event.reward_distribution@.len() == 0
    &&& event.prize_pool > 0 ==> {
        &&& forall|i: int|
            0 <= i < event.reward_distribution@.len() ==> 1 <= #[trigger]
            event.reward_distribution@[i] <= 100
        &&& percent_sum(event.reward_distribution@) == 100
    }
}

/// For an event with a valid distribution the allocations never exceed the
/// pool, so the creator's refund is never negative, however many
/// participants are ranked.
pub proof fn lemma_valid_distribution_refund_nonnegative(
    event: Event,
    leaderboard: Seq<LeaderboardEntry>,
)
    requires
        distribution_is_valid(event),
    ensures
        0 <= positive_total(planned_payouts(event, leaderboard)) <= event.prize_pool,
{
    let n = paid_rank_count(event, leaderboard);
    let d = event.reward_distribution@;
    if n < d.len() {
        lemma_percent_sum_bounds(d, n);
    } else {
        assert(d.subrange(0, n) =~= d);
    }
    lemma_percent_sum_nonneg(d);
    lemma_allocations_within_pool(event, leaderboard);
}

/// With a non-negative pool and paid percentages summing to at most 100,
/// the allocations never exceed the pool, so the creator's refund is never
/// negative. When every percentage of a distribution summing to exactly 100
/// is paid and the pool is a multiple of 100, the whole pool is allocated
/// and nothing is refunded to the creator.
pub proof fn lemma_allocations_within_pool(event: Event, leaderboard: Seq<LeaderboardEntry>)
    requires
        event.prize_pool >= 0,
        percent_sum(event.reward_distribution@.subrange(0, paid_rank_count(event, leaderboard)))
            <= 100,
    ensures
        0 <= positive_total(planned_payouts(event, leaderboard)) <= event.prize_pool,
        (event.prize_pool % 100 == 0 && percent_sum(event.reward_distribution@) == 100
            && paid_rank_count(event, leaderboard) == event.reward_distribution@.len())
            ==> positive_total(planned_payouts(event, leaderboard)) == event.prize_pool,
{
    let n = paid_rank_count(event, leaderboard);
    let d = event.reward_distribution@.subrange(0, n);
    let payouts = planned_payouts(event, leaderboard);
    lemma_pool_split_prefix(event, leaderboard, n);
    assert(payouts.subrange(0, n) =~= payouts);
    let pool = event.prize_pool;
    let total = positive_total(payouts);
    let sum = percent_sum(d);
    lemma_positive_total_nonneg(payouts);
    assert(100 * total <= pool * sum);
    assert(pool * sum <= pool * 100) by (nonlinear_arith)
        requires
            pool >= 0,
            sum <= 100,
    ;
    if pool % 100 == 0 && percent_sum(event.reward_distribution@) == 100
        && n == event.reward_distribution@.len() {
        assert(d =~= event.reward_distribution@);
        assert(100 * total == pool * 100);
    }
}

proof fn lemma_pool_split_prefix(event: Event, leaderboard: Seq<LeaderboardEntry>, j: int)
    requires
        event.prize_pool >= 0,
        0 <= j <= paid_rank_count(event, leaderboard),
        percent_sum(event.reward_distribution@.subrange(0, paid_rank_count(event, leaderboard)))
            <= 100,
    ensures
        ({
            let total = positive_total(planned_payouts(event, leaderboard).subrange(0, j));
            let sum = percent_sum(event.reward_distribution@.subrange(0, j));
            &&& 100 * total <= event.prize_pool * sum
            &&& event.prize_pool % 100 == 0 ==> 100 * total == event.prize_pool * sum
        }),
    decreases j,
{
    let n = paid_rank_count(event, leaderboard);
    let all_d = event.reward_distribution@.subrange(0, n);
    let payouts = planned_payouts(event, leaderboard);
    if j > 0 {
        let i = j - 1;
        lemma_pool_split_prefix(event, leaderboard, i);
        let pool = event.prize_pool;
        let d = event.reward_distribution@[i];
        lemma_percent_sum_bounds(all_d, i);
        assert(all_d[i] == d);
        assert(all_d.subrange(0, i) =~= event.reward_distribution@.subrange(0, i));
        assert(all_d.subrange(0, i + 1) =~= event.reward_distribution@.subrange(0, j));
        assert(d <= 100);
        let prod = pool * d;
        assert(prod >= 0) by (nonlinear_arith)
            requires
                prod == pool * d,
                pool >= 0,
                d >= 0,
        ;
        assert(prod <= pool * 100) by (nonlinear_arith)
            requires
                prod == pool * d,
                pool >= 0,
                d <= 100,
        ;
        let amount = prod / 100;
        assert(0 <= amount <= pool);
        assert(payouts[i].1 == amount);
        assert(payouts.subrange(0, j).drop_last() =~= payouts.subrange(0, i));
        assert(payouts.subrange(0, j).last() == payouts[i]);
        let s = percent_sum(event.reward_distribution@.subrange(0, i));
        assert(pool * (s + d) == pool * s + pool * d) by (nonlinear_arith);
        if pool % 100 == 0 {
            let q = pool / 100;
            assert(pool == 100 * q);
            assert(prod == 100 * (q * d)) by (nonlinear_arith)
                requires
                    pool == 100 * q,
                    prod == pool * d,
            ;
            vstd::arithmetic::div_mod::lemma_div_multiples_vanish(q * d, 100);
            assert(amount == q * d);
        }
    }
}


/// Finalization refuses, in order: a paused contract; a missing event; a
/// cancelled one; an already finalized one; one that has not ended; and
/// then, if any listed match at any position is missing or has no result,
/// with `MatchesNotComplete`, whatever the other matches are. An event that
/// passes all of these, with every listed match present and resolved, is
/// not refused.
pub proof fn lemma_finalize_refusal_order(
    paused: bool,
    event: Option<Event>,
    now: u64,
    matches: Seq<Option<Match>>,
)
    ensures
        paused ==> finalize_refusal(paused, event, now, matches) == Some(EventError::Paused),
        !paused && event is None ==> finalize_refusal(paused, event, now, matches) == Some(
            EventError::EventNotFound,
        ),
        !paused && event is Some && event->0.is_cancelled ==> finalize_refusal(
            paused,
            event,
            now,
            matches,
        ) == Some(EventError::EventCancelled),
        !paused && event is Some && !event->0.is_cancelled && event->0.is_finalized ==> finalize_refusal(
            paused,
            event,
            now,
            matches,
        ) == Some(EventError::AlreadyFinalized),
        !paused && event is Some && !event->0.is_cancelled && !event->0.is_finalized && now < event->0.end_time
            ==> finalize_refusal(paused, event, now, matches) == Some(EventError::EventNotEnded),
        forall|i: int|
            #![trigger matches[i]]
            !paused && event is Some && !event->0.is_cancelled && !event->0.is_finalized && now
                >= event->0.end_time && 0 <= i < matches.len() && (matches[i] is None
                || !matches[i]->0.result_submitted) ==> finalize_refusal(
                paused,
                event,
                now,
                matches,
            ) == Some(EventError::MatchesNotComplete),
        (!paused && event is Some && !event->0.is_cancelled && !event->0.is_finalized && now
            >= event->0.end_time && forall|i: int|
            0 <= i < matches.len() ==> (#[trigger] matches[i]) is Some
                && matches[i]->0.result_submitted) ==> finalize_refusal(paused, event, now, matches) is None,
{
    assert forall|i: int|
        #![trigger matches[i]]
        !paused && event is Some && !event->0.is_cancelled && !event->0.is_finalized && now >= event->0.end_time
            && 0 <= i < matches.len() && (matches[i] is None || !matches[i]->0.result_submitted)
        implies finalize_refusal(paused, event, now, matches) == Some(
        EventError::MatchesNotComplete,
    ) by {
        assert(!match_resolved(matches[i]));
    }
}

/// A claim goes through exactly when the contract is not paused, the event
/// exists and is finalized, and the claimant holds an allocation not yet
/// settled; the refusals come in the order paused, event not found, not
/// finalized, no allocation, already claimed.
pub proof fn lemma_claim_refusal_order(
    paused: bool,
    event: Option<Event>,
    allocation: Option<PrizeAllocation>,
)
    ensures
        claim_refusal(paused, event, allocation) is None <==> (!paused && event is Some
            && event->0.is_finalized && allocation is Some && !allocation->0.claimed),
        paused ==> claim_refusal(paused, event, allocation) == Some(EventError::Paused),
        !paused && event is None ==> claim_refusal(paused, event, allocation) == Some(
            EventError::EventNotFound,
        ),
        !paused && event is Some && !event->0.is_finalized ==> claim_refusal(
            paused,
            event,
            allocation,
        ) == Some(EventError::EventNotFinalized),
        !paused && event is Some && event->0.is_finalized && allocation is None ==> claim_refusal(
            paused,
            event,
            allocation,
        ) == Some(EventError::NoAllocation),
        !paused && event is Some && event->0.is_finalized && allocation is Some
            && allocation->0.claimed ==> claim_refusal(paused, event, allocation) == Some(
            EventError::AlreadyClaimed,
        ),
        settled(allocation->0).claimed && settled(allocation->0).amount == allocation->0.amount
            && settled(allocation->0).winner == allocation->0.winner && settled(
            allocation->0,
        ).event_id == allocation->0.event_id,
{
}

/// A clawback runs exactly when the contract is not paused, the event
/// exists and is finalized, and a claim deadline is recorded that `now` has
/// reached; the refusals come in the order paused, event not found, not
/// finalized, claim period not expired.
pub proof fn lemma_clawback_refusal_order(
    paused: bool,
    event: Option<Event>,
    claim_deadline: Option<u64>,
    now: u64,
)
    ensures
        clawback_refusal(paused, event, claim_deadline, now) is None <==> (!paused && event is Some
            && event->0.is_finalized && ((claim_deadline is Some && claim_deadline->0 <= now) || (
        claim_deadline is None && now == u64::MAX))),
        paused ==> clawback_refusal(paused, event, claim_deadline, now) == Some(EventError::Paused),
        !paused && event is None ==> clawback_refusal(paused, event, claim_deadline, now) == Some(
            EventError::EventNotFound,
        ),
        !paused && event is Some && !event->0.is_finalized ==> clawback_refusal(
            paused,
            event,
            claim_deadline,
            now,
        ) == Some(EventError::EventNotFinalized),
        !paused && event is Some && event->0.is_finalized && claim_deadline is Some && now
            < claim_deadline->0 ==> clawback_refusal(paused, event, claim_deadline, now) == Some(
            EventError::ClaimPeriodNotExpired,
        ),
{
}

/// Each paid rank goes to the rank's user, and its amount is the pool's
/// share rounded toward zero: `100 * amount` is within 100 of
/// `prize_pool * percent`, never beyond it in magnitude. As many ranks are
/// paid as there are both percentages and ranked users.
pub proof fn lemma_payout_amounts(event: Event, leaderboard: Seq<LeaderboardEntry>, i: int)
    requires
        payouts_fit(event, leaderboard),
        0 <= i < planned_payouts(event, leaderboard).len(),
    ensures
        planned_payouts(event, leaderboard).len() == (if event.reward_distribution@.len()
            < leaderboard.len() {
            event.reward_distribution@.len()
        } else {
            leaderboard.len()
        }),
        ({
            let p = planned_payouts(event, leaderboard)[i];
            let product = event.prize_pool * event.reward_distribution@[i];
            &&& p.0 == leaderboard[i].user
            &&& product >= 0 ==> 0 <= product - 100 * p.1 < 100
            &&& product < 0 ==> -100 < product - 100 * p.1 <= 0
        }),
{
    let product = event.prize_pool * event.reward_distribution@[i];
    assert(i128::MIN <= product <= i128::MAX);
}

/// An event is finalized once: after finalization, a second finalization
/// is refused with `AlreadyFinalized` (unless the contract is paused).
pub proof fn lemma_finalize_once(event: Event, now: u64, matches: Seq<Option<Match>>)
    requires
        !event.is_cancelled,
    ensures
        finalize_refusal(false, Some(Event { is_finalized: true, ..event }), now, matches)
            == Some(EventError::AlreadyFinalized),
{
}

/// With nobody ranked, nothing is allocated and the creator gets the whole
/// pool back.
pub proof fn lemma_no_participants_refund_everything(event: Event, event_id: u64)
    ensures
        planned_payouts(event, Seq::empty()).len() == 0,
        positive_total(planned_payouts(event, Seq::empty())) == 0,
        allocations_of(event_id, planned_payouts(event, Seq::empty())).len() == 0,
        event.prize_pool - positive_total(planned_payouts(event, Seq::empty())) == event.prize_pool,
{
}

/// Claims plus clawback return exactly the prize pool when the pool is
/// fully allocated: for a non-negative pool that is a multiple of 100, a
/// distribution summing to 100 with every rank filled by distinct users,
/// whatever subset of winners claims before the deadline, the amounts they
/// claim plus what the clawback then sweeps equal the whole prize pool.
pub proof fn lemma_claims_plus_clawback_equal_pool(
    event: Event,
    event_id: u64,
    leaderboard: Seq<LeaderboardEntry>,
    claimers: Set<Address>,
    snapshot: Seq<Option<PrizeAllocation>>,
)
    requires
        event.prize_pool >= 0,
        event.prize_pool % 100 == 0,
        percent_sum(event.reward_distribution@) == 100,
        leaderboard.len() >= event.reward_distribution@.len(),
        forall|i: int, j: int|
            0 <= i < j < leaderboard.len() ==> leaderboard[i].user != leaderboard[j].user,
        snapshot.len() == planned_payouts(event, leaderboard).len(),
        forall|i: int|
            0 <= i < snapshot.len() ==> #[trigger] snapshot[i] == allocation_after_claims(
                event_id,
                planned_payouts(event, leaderboard)[i],
                claimers,
            ),
    ensures
        claimed_total(planned_payouts(event, leaderboard), claimers) + sweep(
            event_id,
            planned_payouts(event, leaderboard),
            snapshot,
        ).1 == event.prize_pool,
{
    let payouts = planned_payouts(event, leaderboard);
    let n = paid_rank_count(event, leaderboard);
    assert(event.reward_distribution@.subrange(0, n) =~= event.reward_distribution@);
    lemma_allocations_within_pool(event, leaderboard);
    lemma_planned_payouts_distinct(event, leaderboard);
    lemma_claims_plus_clawback_equal_allocated(event_id, payouts, claimers, snapshot);
}

/// A freshly finalized allocation is paid out in full by a claim: the
/// claimed allocation carries the payout's amount.
pub proof fn lemma_claim_pays_allocation(event: Event, event_id: u64, payout: (Address, i128))
    requires
        event.is_finalized,
        payout.1 > 0,
    ensures
        claim_refusal(false, Some(event), allocation_after_claims(event_id, payout, Set::empty()))
            is None,
        settled(allocation_after_claims(event_id, payout, Set::empty())->0).amount == payout.1,
        allocation_after_claims(event_id, payout, Set::empty().insert(payout.0)) == Some(
            settled(allocation_after_claims(event_id, payout, Set::empty())->0),
        ),
{
}

} // verus!
