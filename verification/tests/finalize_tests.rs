use creator_event_manager::address::{Address, AddressKind};
use creator_event_manager::event::EventError;
use creator_event_manager::finalize::{
    check_clawback, check_finalizable, claim_prize, clawback_unclaimed, finalize_event,
    payouts_fit_check, plan_finalization, sweep_fits_check,
};
use creator_event_manager::storage_types::{
    Event, LeaderboardEntry, Match, MatchResult, PrizeAllocation, CLAIM_PERIOD_SECONDS,
};

const PRIZE: i128 = 10_000_000;

fn account(b: u8) -> Address {
    Address::new(AddressKind::Account, [b; 32])
}

fn event(prize_pool: i128, dist: Vec<u32>) -> Event {
    Event::new(
        1,
        account(200),
        b"Test Event".to_vec(),
        b"Test Description".to_vec(),
        1_000_000,
        0,
        3_600,
        7_200,
        b"INVITE01".to_vec(),
        100,
        prize_pool,
        dist,
        0,
    )
}

fn resolved_match(id: u64) -> Match {
    let mut m = Match::new(id, 1, b"Team A".to_vec(), b"Team B".to_vec(), 100, 1);
    m.submit_result(MatchResult::TeamA, account(99), 7_300).unwrap();
    m
}

fn ranked(users: &[Address]) -> Vec<LeaderboardEntry> {
    users
        .iter()
        .enumerate()
        .map(|(i, u)| {
            let mut e = LeaderboardEntry::new(*u, 1, 1_000 - i as u32, 0, 0, 1, 10);
            e.rank = i as u32 + 1;
            e
        })
        .collect()
}

/// The allocation stored for `winner` in a ledger holding `allocations`.
fn stored(allocations: &[PrizeAllocation], winner: &Address) -> Option<PrizeAllocation> {
    allocations.iter().rev().find(|a| a.winner == *winner).copied()
}

fn store(allocations: &mut Vec<PrizeAllocation>, a: PrizeAllocation) {
    allocations.retain(|x| x.winner != a.winner);
    allocations.push(a);
}

// ---------------------------------------------------------------------------
// check_finalizable
// ---------------------------------------------------------------------------

#[test]
fn finalize_checks_in_order() {
    let e = event(PRIZE, vec![100]);
    let done = vec![Some(resolved_match(1))];
    assert_eq!(check_finalizable(true, &Some(e.clone()), 7_300, &done), Err(EventError::Paused));
    assert_eq!(check_finalizable(false, &None, 7_300, &done), Err(EventError::EventNotFound));
    let mut cancelled = e.clone();
    cancelled.cancel();
    assert_eq!(
        check_finalizable(false, &Some(cancelled), 7_300, &done),
        Err(EventError::EventCancelled)
    );
    let mut finalized = e.clone();
    finalized.is_finalized = true;
    assert_eq!(
        check_finalizable(false, &Some(finalized), 7_300, &done),
        Err(EventError::AlreadyFinalized)
    );
    assert_eq!(
        check_finalizable(false, &Some(e.clone()), 7_199, &done),
        Err(EventError::EventNotEnded)
    );
    assert_eq!(check_finalizable(false, &Some(e.clone()), 7_200, &done), Ok(()));
    let pending = vec![Some(resolved_match(1)), Some(Match::new(2, 1, b"X".to_vec(), b"Y".to_vec(), 5, 1))];
    assert_eq!(
        check_finalizable(false, &Some(e.clone()), 7_300, &pending),
        Err(EventError::MatchesNotComplete)
    );
    let missing = vec![Some(resolved_match(1)), None];
    assert_eq!(
        check_finalizable(false, &Some(e.clone()), 7_300, &missing),
        Err(EventError::MatchesNotComplete)
    );
    assert_eq!(check_finalizable(false, &Some(e), 7_300, &Vec::new()), Ok(()));
}

// ---------------------------------------------------------------------------
// finalize_event
// ---------------------------------------------------------------------------

#[test]
fn finalize_single_winner_takes_pool() {
    let e = event(PRIZE, vec![100]);
    let user = account(1);
    let plan = plan_finalization(e.clone(), 1, &ranked(&[user]), 7_300);
    assert_eq!(plan.payouts, vec![(user, PRIZE)]);
    assert_eq!(
        plan.allocations,
        vec![PrizeAllocation { winner: user, event_id: 1, amount: PRIZE, claimed: false }]
    );
    assert_eq!(plan.total_distributed, PRIZE);
    assert_eq!(plan.creator_refund, 0);
    assert_eq!(plan.refund_transfer, None);
    assert!(plan.event.is_finalized);
    assert_eq!(plan.event.prize_pool, PRIZE);
    assert_eq!(plan.claim_deadline, 7_300 + CLAIM_PERIOD_SECONDS);
}

#[test]
fn finalize_split_and_refund_unpaid_rank() {
    // Three ranks are paid but only two participants are ranked: the third
    // percentage goes back to the creator.
    let e = event(PRIZE, vec![50, 30, 20]);
    let users = [account(1), account(2)];
    let plan = plan_finalization(e, 1, &ranked(&users), 7_300);
    assert_eq!(plan.payouts, vec![(users[0], 5_000_000), (users[1], 3_000_000)]);
    assert_eq!(plan.total_distributed, 8_000_000);
    assert_eq!(plan.creator_refund, 2_000_000);
    assert_eq!(plan.refund_transfer, Some(2_000_000));
    assert_eq!(plan.allocations.len(), 2);
}

#[test]
fn finalize_refunds_division_dust() {
    let e = event(1_001, vec![34, 33, 33]);
    let users = [account(1), account(2), account(3)];
    let plan = plan_finalization(e, 1, &ranked(&users), 7_300);
    assert_eq!(plan.payouts, vec![(users[0], 340), (users[1], 330), (users[2], 330)]);
    assert_eq!(plan.total_distributed, 1_000);
    assert_eq!(plan.creator_refund, 1);
    assert_eq!(plan.refund_transfer, Some(1));
}

#[test]
fn finalize_without_participants_refunds_everything() {
    let e = event(PRIZE, vec![60, 40]);
    let plan = plan_finalization(e, 1, &Vec::new(), 7_300);
    assert!(plan.payouts.is_empty());
    assert!(plan.allocations.is_empty());
    assert_eq!(plan.total_distributed, 0);
    assert_eq!(plan.creator_refund, PRIZE);
    assert_eq!(plan.refund_transfer, Some(PRIZE));
}

#[test]
fn finalize_zero_amounts_are_listed_but_not_allocated() {
    let e = event(99, vec![99, 1]);
    let users = [account(1), account(2)];
    let plan = plan_finalization(e, 1, &ranked(&users), 7_300);
    assert_eq!(plan.payouts, vec![(users[0], 98), (users[1], 0)]);
    assert_eq!(plan.allocations.len(), 1);
    assert_eq!(plan.allocations[0].winner, users[0]);
    assert_eq!(plan.creator_refund, 1);
}

#[test]
fn finalize_fun_event_moves_nothing() {
    let e = event(0, Vec::new());
    let plan = plan_finalization(e, 1, &ranked(&[account(1)]), 7_300);
    assert!(plan.payouts.is_empty());
    assert_eq!(plan.creator_refund, 0);
    assert_eq!(plan.refund_transfer, None);
    assert!(plan.event.is_finalized);
}

// ---------------------------------------------------------------------------
// A small ledger: the staged allocations and the token balances, updated
// the way the contract carries out the library's decisions.
// ---------------------------------------------------------------------------

const CONTRACT: u8 = 250;
const TREASURY: u8 = 251;
const CREATOR: u8 = 200;

struct Ledger {
    event: Event,
    allocations: Vec<PrizeAllocation>,
    payouts: Vec<(Address, i128)>,
    deadline: Option<u64>,
    balances: Vec<(Address, i128)>,
}

impl Ledger {
    /// An event whose creator escrowed `prize_pool` in the contract.
    fn new(prize_pool: i128, dist: Vec<u32>) -> Ledger {
        Ledger {
            event: event(prize_pool, dist),
            allocations: Vec::new(),
            payouts: Vec::new(),
            deadline: None,
            balances: vec![(account(CONTRACT), prize_pool)],
        }
    }

    fn balance(&self, who: &Address) -> i128 {
        self.balances.iter().filter(|(a, _)| a == who).map(|(_, b)| *b).sum()
    }

    fn transfer(&mut self, to: Address, amount: i128) {
        self.balances.push((account(CONTRACT), -amount));
        self.balances.push((to, amount));
    }

    fn finalize(&mut self, users: &[Address], now: u64) -> Vec<(Address, i128)> {
        let plan = finalize_event(
            account(90),
            false,
            Some(self.event.clone()),
            now,
            &vec![Some(resolved_match(1))],
            1,
            &ranked(users),
        )
        .unwrap();
        for a in &plan.allocations {
            store(&mut self.allocations, *a);
        }
        if let Some(refund) = plan.refund_transfer {
            self.transfer(account(CREATOR), refund);
        }
        self.event = plan.event;
        self.payouts = plan.payouts.clone();
        self.deadline = Some(plan.claim_deadline);
        plan.payouts
    }

    fn claim(&mut self, winner: &Address) -> Result<i128, EventError> {
        let settled = claim_prize(false, &Some(self.event.clone()), stored(&self.allocations, winner))?;
        self.transfer(*winner, settled.amount);
        store(&mut self.allocations, settled);
        Ok(settled.amount)
    }

    fn clawback(&mut self, now: u64) -> Result<i128, EventError> {
        let snapshot: Vec<Option<PrizeAllocation>> =
            self.payouts.iter().map(|(w, _)| stored(&self.allocations, w)).collect();
        let out = clawback_unclaimed(
            false,
            1,
            &Some(self.event.clone()),
            self.deadline,
            now,
            &self.payouts,
            &snapshot,
        )?;
        for a in &out.settled {
            store(&mut self.allocations, *a);
        }
        if let Some(amount) = out.sweep_transfer {
            self.transfer(account(TREASURY), amount);
        }
        Ok(out.swept)
    }
}

const AFTER_END: u64 = 7_300;

// ---------------------------------------------------------------------------
// claim_prize
// ---------------------------------------------------------------------------

#[test]
fn test_claim_prize_transfers_allocation_once() {
    let mut ledger = Ledger::new(PRIZE, vec![100]);
    let user = account(1);
    ledger.finalize(&[user], AFTER_END);
    // Nothing moved yet.
    assert_eq!(ledger.balance(&user), 0);
    let claimed = ledger.claim(&user).unwrap();
    assert_eq!(claimed, PRIZE);
    assert_eq!(ledger.balance(&user), PRIZE);
    assert_eq!(ledger.balance(&account(CONTRACT)), 0);
}

#[test]
fn test_claim_prize_twice_rejected() {
    let mut ledger = Ledger::new(PRIZE, vec![100]);
    let user = account(1);
    ledger.finalize(&[user], AFTER_END);
    ledger.claim(&user).unwrap();
    assert_eq!(ledger.balance(&user), PRIZE);
    assert_eq!(ledger.claim(&user), Err(EventError::AlreadyClaimed));
    assert_eq!(ledger.balance(&user), PRIZE);
}

#[test]
fn test_claim_prize_non_winner_rejected() {
    let mut ledger = Ledger::new(PRIZE, vec![100]);
    ledger.finalize(&[account(1)], AFTER_END);
    let stranger = account(77);
    assert_eq!(ledger.claim(&stranger), Err(EventError::NoAllocation));
}

#[test]
fn test_claim_prize_before_finalize_rejected() {
    let mut ledger = Ledger::new(PRIZE, vec![100]);
    assert_eq!(ledger.claim(&account(1)), Err(EventError::EventNotFinalized));
}

#[test]
fn claim_prize_refusals() {
    let e = event(PRIZE, vec![100]);
    let user = account(1);
    let plan = plan_finalization(e.clone(), 1, &ranked(&[user]), 7_300);
    let fin = Some(plan.event.clone());
    let alloc = stored(&plan.allocations, &user);
    assert_eq!(claim_prize(true, &fin, alloc), Err(EventError::Paused));
    assert_eq!(claim_prize(false, &None, alloc), Err(EventError::EventNotFound));
    assert_eq!(claim_prize(false, &Some(e), alloc), Err(EventError::EventNotFinalized));
    assert_eq!(claim_prize(false, &fin, None), Err(EventError::NoAllocation));
    let settled = claim_prize(false, &fin, alloc).unwrap();
    assert_eq!(settled, PrizeAllocation { winner: user, event_id: 1, amount: PRIZE, claimed: true });
}

// ---------------------------------------------------------------------------
// clawback_unclaimed
// ---------------------------------------------------------------------------

#[test]
fn test_clawback_before_deadline_rejected() {
    let mut ledger = Ledger::new(PRIZE, vec![100]);
    ledger.finalize(&[account(1)], AFTER_END);
    assert_eq!(ledger.clawback(AFTER_END), Err(EventError::ClaimPeriodNotExpired));
}

#[test]
fn test_clawback_before_finalize_rejected() {
    let mut ledger = Ledger::new(PRIZE, vec![100]);
    assert_eq!(ledger.clawback(AFTER_END), Err(EventError::EventNotFinalized));
}

#[test]
fn test_clawback_after_deadline_sweeps_only_unclaimed() {
    let mut ledger = Ledger::new(PRIZE, vec![60, 40]);
    let claimer = account(1);
    let no_show = account(2);
    ledger.finalize(&[claimer, no_show], AFTER_END);

    let rank1 = PRIZE * 60 / 100;
    let rank2 = PRIZE * 40 / 100;
    assert_eq!(ledger.claim(&claimer), Ok(rank1));
    assert_eq!(ledger.balance(&claimer), rank1);

    let treasury_before = ledger.balance(&account(TREASURY));
    let swept = ledger.clawback(AFTER_END + CLAIM_PERIOD_SECONDS + 1).unwrap();
    assert_eq!(swept, rank2);
    assert_eq!(ledger.balance(&account(TREASURY)), treasury_before + rank2);
    assert_eq!(ledger.balance(&claimer), rank1);
    assert_eq!(ledger.balance(&no_show), 0);
    assert_eq!(ledger.balance(&account(CONTRACT)), 0);
}

#[test]
fn test_claim_after_clawback_rejected() {
    let mut ledger = Ledger::new(PRIZE, vec![100]);
    let no_show = account(1);
    ledger.finalize(&[no_show], AFTER_END);
    assert_eq!(ledger.clawback(AFTER_END + CLAIM_PERIOD_SECONDS + 1), Ok(PRIZE));
    assert_eq!(ledger.claim(&no_show), Err(EventError::AlreadyClaimed));
    assert_eq!(ledger.balance(&no_show), 0);
}

#[test]
fn test_clawback_called_twice_is_noop() {
    let mut ledger = Ledger::new(PRIZE, vec![100]);
    ledger.finalize(&[account(1)], AFTER_END);
    let now = AFTER_END + CLAIM_PERIOD_SECONDS + 1;
    assert_eq!(ledger.clawback(now), Ok(PRIZE));
    let treasury_after_first_sweep = ledger.balance(&account(TREASURY));
    assert_eq!(ledger.clawback(now), Ok(0));
    assert_eq!(ledger.balance(&account(TREASURY)), treasury_after_first_sweep);
}

#[test]
fn clawback_refusals() {
    let e = event(PRIZE, vec![100]);
    let user = account(1);
    let plan = plan_finalization(e.clone(), 1, &ranked(&[user]), 7_300);
    let fin = Some(plan.event.clone());
    let snap: Vec<Option<PrizeAllocation>> =
        plan.payouts.iter().map(|(w, _)| stored(&plan.allocations, w)).collect();
    let deadline = Some(plan.claim_deadline);
    assert_eq!(
        clawback_unclaimed(true, 1, &fin, deadline, u64::MAX, &plan.payouts, &snap),
        Err(EventError::Paused)
    );
    assert_eq!(
        clawback_unclaimed(false, 1, &None, deadline, u64::MAX, &plan.payouts, &snap),
        Err(EventError::EventNotFound)
    );
    assert_eq!(
        clawback_unclaimed(false, 1, &Some(e), deadline, u64::MAX, &plan.payouts, &snap),
        Err(EventError::EventNotFinalized)
    );
    assert_eq!(
        clawback_unclaimed(false, 1, &fin, deadline, plan.claim_deadline - 1, &plan.payouts, &snap),
        Err(EventError::ClaimPeriodNotExpired)
    );
    // Without a recorded deadline the claim period never expires.
    assert_eq!(
        clawback_unclaimed(false, 1, &fin, None, u64::MAX - 1, &plan.payouts, &snap),
        Err(EventError::ClaimPeriodNotExpired)
    );
    let out = clawback_unclaimed(false, 1, &fin, deadline, plan.claim_deadline, &plan.payouts, &snap)
        .unwrap();
    assert_eq!(out.swept, PRIZE);
    assert_eq!(out.sweep_transfer, Some(PRIZE));
    assert_eq!(
        out.settled,
        vec![PrizeAllocation { winner: user, event_id: 1, amount: PRIZE, claimed: true }]
    );
}

#[test]
fn clawback_skips_payouts_without_allocation() {
    let fin = {
        let mut e = event(PRIZE, vec![100]);
        e.is_finalized = true;
        Some(e)
    };
    let payouts = vec![(account(1), 0i128), (account(2), 500), (account(3), 700)];
    let snap = vec![
        Some(PrizeAllocation { winner: account(1), event_id: 1, amount: 9, claimed: false }),
        None,
        Some(PrizeAllocation { winner: account(3), event_id: 1, amount: 700, claimed: false }),
    ];
    let out = clawback_unclaimed(false, 1, &fin, Some(10), 10, &payouts, &snap).unwrap();
    assert_eq!(out.swept, 700);
    assert_eq!(out.settled.len(), 1);
    assert_eq!(out.settled[0].winner, account(3));
}

#[test]
fn clawback_settles_a_repeated_winner_once() {
    let fin = {
        let mut e = event(PRIZE, vec![100]);
        e.is_finalized = true;
        Some(e)
    };
    let w = account(4);
    let a = PrizeAllocation { winner: w, event_id: 1, amount: 300, claimed: false };
    let payouts = vec![(w, 300i128), (w, 300)];
    let out = clawback_unclaimed(false, 1, &fin, Some(10), 10, &payouts, &vec![Some(a), Some(a)]).unwrap();
    assert_eq!(out.swept, 300);
    assert_eq!(out.settled.len(), 1);
}

// ---------------------------------------------------------------------------
// Claims plus clawback account for the whole pool
// ---------------------------------------------------------------------------

#[test]
fn test_property_claims_plus_clawback_equals_prize_pool() {
    let mut state: u64 = 0x9E37_79B9_7F4A_7C15;
    let mut next_u32 = move || {
        state = state.wrapping_mul(6364136223846793005).wrapping_add(1);
        (state >> 33) as u32
    };

    for iteration in 0..40u32 {
        let num_winners = 1 + (next_u32() % 5);
        let base = 100 / num_winners;
        let remainder = 100 % num_winners;
        let percents: Vec<u32> =
            (0..num_winners).map(|i| if i < remainder { base + 1 } else { base }).collect();
        assert_eq!(percents.iter().sum::<u32>(), 100);
        let k: i128 = 1_000 + (next_u32() % 9_000) as i128;
        let prize_pool = k * 100;

        let mut ledger = Ledger::new(prize_pool, percents);
        let users: Vec<Address> = (0..num_winners).map(|i| account(i as u8 + 1)).collect();
        let payouts = ledger.finalize(&users, AFTER_END);
        assert_eq!(payouts.len() as u32, num_winners);
        assert_eq!(ledger.balance(&account(CREATOR)), 0);

        let mut claimed_total: i128 = 0;
        for (i, user) in users.iter().enumerate() {
            let (_, amount) = payouts[i];
            if next_u32() % 2 == 0 {
                let claimed = ledger.claim(user).unwrap();
                assert_eq!(claimed, amount);
                claimed_total += claimed;
            }
        }

        let swept = ledger.clawback(AFTER_END + CLAIM_PERIOD_SECONDS + 1).unwrap();
        assert_eq!(
            claimed_total + swept,
            prize_pool,
            "iteration {iteration}: num_winners={num_winners} prize_pool={prize_pool}"
        );
        assert_eq!(ledger.balance(&account(CONTRACT)), 0);
        assert_eq!(ledger.clawback(AFTER_END + CLAIM_PERIOD_SECONDS + 1), Ok(0));
        assert_eq!(claimed_total + swept, prize_pool);
    }
}

// ---------------------------------------------------------------------------
// Overflow guards
// ---------------------------------------------------------------------------

#[test]
fn payouts_fit_check_detects_overflow() {
    let users = [account(1), account(2)];
    assert!(payouts_fit_check(&event(PRIZE, vec![60, 40]), &ranked(&users)));
    assert!(payouts_fit_check(&event(i128::MAX / 100, vec![100]), &ranked(&users)));
    assert!(!payouts_fit_check(&event(i128::MAX / 50, vec![100]), &ranked(&users)));
    assert!(!payouts_fit_check(&event(i128::MIN / 50, vec![100]), &ranked(&users)));
    // Shares that fit one by one but not together.
    let many: Vec<Address> = (0..150u8).map(account).collect();
    assert!(payouts_fit_check(&event(i128::MAX / 100, vec![100; 99]), &ranked(&many)));
    assert!(!payouts_fit_check(&event(i128::MAX / 100, vec![100; 150]), &ranked(&many)));
    // Unpaid percentages are never multiplied.
    assert!(payouts_fit_check(&event(i128::MAX / 100, vec![100, 100]), &ranked(&users[..1])));
}

#[test]
fn sweep_fits_check_detects_overflow() {
    let a = PrizeAllocation { winner: account(1), event_id: 1, amount: i128::MAX, claimed: false };
    let b = PrizeAllocation { winner: account(2), event_id: 1, amount: 1, claimed: false };
    let payouts = vec![(account(1), 1i128), (account(2), 1)];
    assert!(!sweep_fits_check(1, &payouts, &vec![Some(a), Some(b)]));
    assert!(sweep_fits_check(1, &payouts, &vec![Some(a), None]));
    assert!(sweep_fits_check(1, &payouts, &vec![Some(a), Some(PrizeAllocation { claimed: true, ..b })]));
}

#[test]
fn check_clawback_outcomes() {
    let mut fin = event(PRIZE, vec![100]);
    fin.is_finalized = true;
    let fin = Some(fin);
    assert_eq!(check_clawback(true, &fin, Some(5), 10), Err(EventError::Paused));
    assert_eq!(check_clawback(false, &None, Some(5), 10), Err(EventError::EventNotFound));
    assert_eq!(
        check_clawback(false, &Some(event(PRIZE, vec![100])), Some(5), 10),
        Err(EventError::EventNotFinalized)
    );
    assert_eq!(check_clawback(false, &fin, Some(11), 10), Err(EventError::ClaimPeriodNotExpired));
    assert_eq!(check_clawback(false, &fin, Some(10), 10), Ok(()));
    assert_eq!(check_clawback(false, &fin, None, u64::MAX), Ok(()));
}

#[test]
fn finalized_event_cannot_be_finalized_again() {
    let plan = plan_finalization(event(PRIZE, vec![100]), 1, &ranked(&[account(1)]), AFTER_END);
    assert_eq!(
        check_finalizable(false, &Some(plan.event), AFTER_END + 1, &vec![Some(resolved_match(1))]),
        Err(EventError::AlreadyFinalized)
    );
}

#[test]
fn finalize_event_refusals_produce_no_plan() {
    let e = event(PRIZE, vec![100]);
    let done = vec![Some(resolved_match(1))];
    let board = ranked(&[account(1)]);
    let caller = account(90);
    assert_eq!(finalize_event(caller, true, Some(e.clone()), AFTER_END, &done, 1, &board), Err(EventError::Paused));
    assert_eq!(finalize_event(caller, false, None, AFTER_END, &done, 1, &board), Err(EventError::EventNotFound));
    let mut cancelled = e.clone();
    cancelled.cancel();
    assert_eq!(
        finalize_event(caller, false, Some(cancelled), AFTER_END, &done, 1, &board),
        Err(EventError::EventCancelled)
    );
    let mut finalized = e.clone();
    finalized.is_finalized = true;
    assert_eq!(
        finalize_event(caller, false, Some(finalized), AFTER_END, &done, 1, &board),
        Err(EventError::AlreadyFinalized)
    );
    assert_eq!(
        finalize_event(caller, false, Some(e.clone()), 7_199, &done, 1, &board),
        Err(EventError::EventNotEnded)
    );
    assert_eq!(
        finalize_event(caller, false, Some(e.clone()), AFTER_END, &vec![None], 1, &board),
        Err(EventError::MatchesNotComplete)
    );
}

#[test]
fn finalize_event_same_for_every_caller() {
    let e = event(PRIZE, vec![60, 40]);
    let done = vec![Some(resolved_match(1))];
    let board = ranked(&[account(1), account(2)]);
    let a = finalize_event(account(90), false, Some(e.clone()), AFTER_END, &done, 1, &board).unwrap();
    let b = finalize_event(account(91), false, Some(e.clone()), AFTER_END, &done, 1, &board).unwrap();
    assert_eq!(a, b);
    assert_eq!(a, plan_finalization(e, 1, &board, AFTER_END));
}
