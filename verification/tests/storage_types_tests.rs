use creator_event_manager::address::{Address, AddressKind};
use creator_event_manager::storage_types::{
    weighted_contribution, Event, LeaderboardEntry, Match, MatchResult, ParticipantScore,
    Prediction, StandingEntry, MAX_DESCRIPTION_LEN, MAX_TITLE_LEN, OUTCOME_DRAW, OUTCOME_TEAM_A,
    OUTCOME_TEAM_B,
};

fn account(b: u8) -> Address {
    Address::new(AddressKind::Account, [b; 32])
}

fn contract(b: u8) -> Address {
    Address::new(AddressKind::Contract, [b; 32])
}

fn sample_event() -> Event {
    Event::new(
        7,
        account(1),
        b"Test Event".to_vec(),
        b"Test Description".to_vec(),
        1_000_000,
        100,
        3_700,
        7_300,
        b"INVITE01".to_vec(),
        2,
        10_000_000,
        vec![60, 40],
        0,
    )
}

fn sample_match() -> Match {
    Match::new(3, 7, b"Lions".to_vec(), b"Tigers".to_vec(), 10_000, 1)
}

// ---------------------------------------------------------------------------
// weighted_contribution
// ---------------------------------------------------------------------------

#[test]
fn weighted_contribution_plain_late_with_crowd() {
    assert_eq!(weighted_contribution(1, 9_000, 10_000, false), (10_000, 0, 0));
}

#[test]
fn weighted_contribution_early_against_crowd() {
    let (b, t, u) = weighted_contribution(1, 1_000, 10_000, true);
    assert_eq!((b, t, u), (10_000, 2_500, 5_000));
    assert_eq!(b + t + u, 17_500);
}

#[test]
fn weighted_contribution_zero_points_is_zero() {
    assert_eq!(weighted_contribution(0, 0, 1_000_000, true), (0, 0, 0));
}

#[test]
fn weighted_contribution_lead_boundary() {
    // Exactly the lead time qualifies; one second less does not.
    assert_eq!(weighted_contribution(4, 6_400, 10_000, false), (40_000, 10_000, 0));
    assert_eq!(weighted_contribution(4, 6_401, 10_000, false), (40_000, 0, 0));
    // A prediction after the match start never earns the bonus.
    assert_eq!(weighted_contribution(2, 20_000, 10_000, true), (20_000, 0, 10_000));
}

#[test]
fn weighted_contribution_is_deterministic() {
    let a = weighted_contribution(12, 5, 99_999, true);
    let b = weighted_contribution(12, 5, 99_999, true);
    assert_eq!(a, b);
    assert_eq!(a, (120_000, 30_000, 60_000));
}

#[test]
fn weighted_contribution_largest_points() {
    let (b, t, u) = weighted_contribution(u32::MAX, 0, u64::MAX, true);
    assert_eq!(b, u32::MAX as u64 * 10_000);
    assert_eq!(t, u32::MAX as u64 * 2_500);
    assert_eq!(u, u32::MAX as u64 * 5_000);
}

// ---------------------------------------------------------------------------
// MatchResult
// ---------------------------------------------------------------------------

#[test]
fn match_result_codes() {
    assert_eq!(MatchResult::TeamA.to_u8(), 0);
    assert_eq!(MatchResult::TeamB.to_u8(), 1);
    assert_eq!(MatchResult::Draw.to_u8(), 2);
    assert_eq!(MatchResult::Draw.to_u32(), 2);
}

#[test]
fn match_result_decoding() {
    assert_eq!(MatchResult::from_u8(0), Some(MatchResult::TeamA));
    assert_eq!(MatchResult::from_u8(1), Some(MatchResult::TeamB));
    assert_eq!(MatchResult::from_u8(2), Some(MatchResult::Draw));
    assert_eq!(MatchResult::from_u8(3), None);
    assert_eq!(MatchResult::from_u8(255), None);
    assert_eq!(MatchResult::from_u32(1), Some(MatchResult::TeamB));
    assert_eq!(MatchResult::from_u32(256), None);
    assert_eq!(MatchResult::from_u32(258), None);
    assert_eq!(MatchResult::from_u32(u32::MAX), None);
}

#[test]
fn match_result_roundtrip() {
    for r in [MatchResult::TeamA, MatchResult::TeamB, MatchResult::Draw] {
        assert_eq!(MatchResult::from_u8(r.to_u8()), Some(r));
        assert_eq!(MatchResult::from_u32(r.to_u32()), Some(r));
    }
}

#[test]
fn match_result_from_scores() {
    assert_eq!(MatchResult::from_scores(2, 1), MatchResult::TeamA);
    assert_eq!(MatchResult::from_scores(0, 3), MatchResult::TeamB);
    assert_eq!(MatchResult::from_scores(1, 1), MatchResult::Draw);
    assert_eq!(MatchResult::from_scores(0, 0), MatchResult::Draw);
    assert_eq!(MatchResult::from_scores(u32::MAX, 0), MatchResult::TeamA);
}

// ---------------------------------------------------------------------------
// Event
// ---------------------------------------------------------------------------

#[test]
fn event_new_defaults() {
    let e = sample_event();
    assert_eq!(e.event_id, 7);
    assert!(e.is_active);
    assert!(!e.is_cancelled);
    assert!(!e.is_finalized);
    assert_eq!(e.participant_count, 0);
    assert_eq!(e.match_count, 0);
    assert_eq!(e.reward_distribution, vec![60, 40]);
    assert_eq!(e.prize_pool, 10_000_000);
}

#[test]
fn event_time_window() {
    let e = sample_event();
    assert!(!e.has_ended(7_299));
    assert!(e.has_ended(7_300));
    assert!(e.is_within_window(3_700));
    assert!(e.is_within_window(7_300));
    assert!(!e.is_within_window(3_699));
    assert!(!e.is_within_window(7_301));
    assert_eq!(e.get_age_seconds(150), 50);
    assert_eq!(e.get_age_seconds(10), 0);
}

#[test]
fn event_add_participant_until_full() {
    let mut e = sample_event();
    assert!(e.can_accept_participants());
    assert_eq!(e.add_participant(), Ok(()));
    assert_eq!(e.add_participant(), Ok(()));
    assert_eq!(e.participant_count, 2);
    assert!(!e.can_accept_participants());
    assert_eq!(e.add_participant(), Err("Event has reached maximum participants"));
    assert_eq!(e.participant_count, 2);
}

#[test]
fn event_unlimited_participants() {
    let mut e = sample_event();
    e.max_participants = 0;
    for _ in 0..10 {
        assert_eq!(e.add_participant(), Ok(()));
    }
    assert_eq!(e.participant_count, 10);
    assert!(e.can_accept_participants());
}

#[test]
fn event_deactivate_and_cancel() {
    let mut e = sample_event();
    e.deactivate();
    assert!(!e.is_active);
    assert!(!e.is_cancelled);
    assert_eq!(e.add_participant(), Err("Event is not active"));
    e.cancel();
    assert!(e.is_cancelled);
    assert_eq!(e.add_participant(), Err("Event is cancelled"));
    assert!(!e.can_accept_participants());
    assert_eq!(e.participant_count, 0);
}

#[test]
fn event_add_match_counts() {
    let mut e = sample_event();
    e.add_match();
    e.add_match();
    assert_eq!(e.match_count, 2);
}

#[test]
fn event_validate_messages() {
    let mut e = sample_event();
    assert_eq!(e.validate(), Ok(()));
    e.title = Vec::new();
    assert_eq!(e.validate(), Err("Title cannot be empty"));
    e.title = vec![b'x'; 201];
    assert_eq!(e.validate(), Err("Title exceeds maximum length"));
    e.title = vec![b'x'; 200];
    assert_eq!(e.validate(), Ok(()));
    e.description = vec![b'y'; 1001];
    assert_eq!(e.validate(), Err("Description exceeds maximum length"));
    e.description = vec![b'y'; 1000];
    assert_eq!(e.validate(), Ok(()));
}

#[test]
fn event_title_and_description_limits() {
    assert!(Event::is_valid_title(&vec![b'a'; MAX_TITLE_LEN as usize]));
    assert!(!Event::is_valid_title(&vec![b'a'; MAX_TITLE_LEN as usize + 1]));
    assert!(Event::is_valid_title(&Vec::new()));
    assert!(Event::is_valid_description(&vec![b'a'; MAX_DESCRIPTION_LEN as usize]));
    assert!(!Event::is_valid_description(&vec![b'a'; MAX_DESCRIPTION_LEN as usize + 1]));
}

// ---------------------------------------------------------------------------
// Match
// ---------------------------------------------------------------------------

#[test]
fn match_new_is_pending() {
    let m = sample_match();
    assert!(!m.result_submitted);
    assert!(!m.is_completed());
    assert_eq!(m.winning_team, None);
    assert_eq!(m.submitted_by, None);
    assert_eq!(m.get_winner(), None);
    assert_eq!(m.points_multiplier, 1);
    assert_eq!(m.validate(), Ok(()));
}

#[test]
fn match_submit_result_once() {
    let mut m = sample_match();
    let oracle = account(9);
    assert_eq!(m.submit_result(MatchResult::TeamB, oracle, 12_000), Ok(()));
    assert!(m.is_completed());
    assert_eq!(m.winning_team, Some(1));
    assert_eq!(m.get_winner(), Some(MatchResult::TeamB));
    assert_eq!(m.submitted_by, Some(oracle));
    assert_eq!(m.submitted_at, Some(12_000));
    assert_eq!(m.home_score, None);
    let before = m.clone();
    assert_eq!(
        m.submit_result(MatchResult::TeamA, account(8), 13_000),
        Err("Result already submitted for this match")
    );
    assert_eq!(m, before);
    assert_eq!(m.validate(), Ok(()));
}

#[test]
fn match_timing_helpers() {
    let mut m = sample_match();
    assert!(!m.has_started(9_999));
    assert!(m.has_started(10_000));
    assert!(!m.is_ready_for_result(9_999));
    assert!(m.is_ready_for_result(10_000));
    assert_eq!(m.time_until_start(9_000), 1_000);
    assert_eq!(m.time_until_start(11_000), 0);
    assert_eq!(m.time_since_result(20_000), 0);
    m.submit_result(MatchResult::Draw, account(9), 12_000).unwrap();
    assert!(!m.is_ready_for_result(13_000));
    assert_eq!(m.time_since_result(12_500), 500);
    assert_eq!(m.time_since_result(11_000), 0);
}

#[test]
fn match_prediction_window() {
    let mut m = sample_match();
    // Cutoff 10 minutes before 10_000 is 9_400.
    assert!(m.allows_predictions(9_399, 10));
    assert!(!m.allows_predictions(9_400, 10));
    assert!(m.allows_predictions(9_999, 0));
    assert!(!m.allows_predictions(10_000, 0));
    // A cutoff reaching before time 0 closes predictions entirely.
    assert!(!m.allows_predictions(0, 1_000));
    m.submit_result(MatchResult::TeamA, account(9), 1).unwrap();
    assert!(!m.allows_predictions(0, 0));
}

#[test]
fn match_validate_names() {
    let mut m = sample_match();
    m.team_a = Vec::new();
    assert_eq!(m.validate(), Err("Team A name cannot be empty"));
    m.team_a = vec![b'a'; 101];
    assert_eq!(m.validate(), Err("Team A name exceeds maximum length"));
    m.team_a = vec![b'a'; 100];
    m.team_b = Vec::new();
    assert_eq!(m.validate(), Err("Team B name cannot be empty"));
    m.team_b = vec![b'b'; 101];
    assert_eq!(m.validate(), Err("Team B name exceeds maximum length"));
    m.team_b = vec![b'a'; 100];
    assert_eq!(m.validate(), Err("Team names must be different"));
    m.team_b = vec![b'b'; 100];
    assert_eq!(m.validate(), Ok(()));
}

#[test]
fn match_validate_result_consistency() {
    let mut m = sample_match();
    m.result_submitted = true;
    assert_eq!(m.validate(), Err("Result submitted but winning_team is None"));
    m.winning_team = Some(0);
    assert_eq!(m.validate(), Err("Result submitted but submitted_by is None"));
    m.submitted_by = Some(account(2));
    assert_eq!(m.validate(), Err("Result submitted but submitted_at is None"));
    m.submitted_at = Some(5);
    assert_eq!(m.validate(), Ok(()));
    m.winning_team = Some(3);
    assert_eq!(
        m.validate(),
        Err("winning_team value must be 0 (TeamA), 1 (TeamB), or 2 (Draw)")
    );
    assert_eq!(m.get_winner(), None);

    let mut p = sample_match();
    p.winning_team = Some(1);
    assert_eq!(p.validate(), Err("winning_team set but result_submitted is false"));
    p.winning_team = None;
    p.submitted_at = Some(1);
    assert_eq!(p.validate(), Err("submitted_at set but result_submitted is false"));
    p.submitted_at = None;
    p.submitted_by = Some(account(3));
    assert_eq!(p.validate(), Ok(()));
}

// ---------------------------------------------------------------------------
// Prediction
// ---------------------------------------------------------------------------

#[test]
fn prediction_new_derives_outcome_symbol() {
    let a = Prediction::new(1, 3, 7, account(4), 2, 1, 500);
    assert_eq!(a.predicted_outcome, OUTCOME_TEAM_A.as_bytes().to_vec());
    let b = Prediction::new(2, 3, 7, account(4), 0, 1, 500);
    assert_eq!(b.predicted_outcome, OUTCOME_TEAM_B.as_bytes().to_vec());
    let d = Prediction::new(3, 3, 7, account(4), 2, 2, 500);
    assert_eq!(d.predicted_outcome, OUTCOME_DRAW.as_bytes().to_vec());
    assert_eq!(d.prediction_id, 3);
    assert_eq!(d.match_id, 3);
    assert_eq!(d.event_id, 7);
    assert_eq!(d.predicted_at, 500);
    assert_eq!(d.is_correct, None);
    assert_eq!(d.points_earned, None);
    assert!(!d.is_winner());
}

#[test]
fn prediction_validate_outcome() {
    assert_eq!(Prediction::validate_outcome(&b"TEAM_A".to_vec()), Ok(()));
    assert_eq!(Prediction::validate_outcome(&b"TEAM_B".to_vec()), Ok(()));
    assert_eq!(Prediction::validate_outcome(&b"DRAW".to_vec()), Ok(()));
    let msg = Err("predicted_outcome must be TEAM_A, TEAM_B, or DRAW");
    assert_eq!(Prediction::validate_outcome(&b"TEAM_C".to_vec()), msg);
    assert_eq!(Prediction::validate_outcome(&b"draw".to_vec()), msg);
    assert_eq!(Prediction::validate_outcome(&Vec::new()), msg);
}

#[test]
fn prediction_grading_points() {
    let mut exact = Prediction::new(1, 3, 7, account(4), 1, 0, 500);
    exact.grade(1, 0, 1);
    assert_eq!(exact.is_correct, Some(true));
    assert_eq!(exact.points_earned, Some(4));
    assert!(exact.is_winner());

    let mut result_only = Prediction::new(2, 3, 7, account(5), 2, 0, 500);
    result_only.grade(1, 0, 1);
    assert_eq!(result_only.is_correct, Some(true));
    assert_eq!(result_only.points_earned, Some(1));

    let mut wrong = Prediction::new(3, 3, 7, account(6), 0, 1, 500);
    wrong.grade(1, 0, 1);
    assert_eq!(wrong.is_correct, Some(false));
    assert_eq!(wrong.points_earned, Some(0));
    assert!(!wrong.is_winner());
}

#[test]
fn prediction_grading_with_multiplier() {
    let mut exact = Prediction::new(1, 3, 7, account(4), 2, 2, 500);
    exact.grade(2, 2, 2);
    assert_eq!(exact.points_earned, Some(8));
    let mut draw = Prediction::new(2, 3, 7, account(4), 0, 0, 500);
    draw.grade(3, 3, 2);
    assert_eq!(draw.points_earned, Some(2));
    let mut wrong = Prediction::new(3, 3, 7, account(4), 0, 0, 500);
    wrong.grade(3, 1, 3);
    assert_eq!(wrong.points_earned, Some(0));
}

#[test]
fn prediction_before_match_time() {
    let p = Prediction::new(1, 3, 7, account(4), 1, 0, 500);
    assert!(p.is_before_match_time(501));
    assert!(!p.is_before_match_time(500));
}

// ---------------------------------------------------------------------------
// Ranking
// ---------------------------------------------------------------------------

#[test]
fn leaderboard_entry_new_has_no_rank() {
    let e = LeaderboardEntry::new(account(1), 7, 5, 2, 1, 3, 900);
    assert_eq!(e.rank, 0);
    assert_eq!(e.total_points, 5);
    assert_eq!(e.correct_results, 2);
    assert_eq!(e.exact_scores, 1);
    assert_eq!(e.matches_played, 3);
    assert_eq!(e.last_prediction_time, 900);
}

#[test]
fn leaderboard_outranks_tiebreaks() {
    let base = LeaderboardEntry::new(account(5), 7, 5, 2, 1, 3, 900);
    let more_points = LeaderboardEntry { total_points: 6, ..base };
    assert!(more_points.outranks(&base));
    assert!(!base.outranks(&more_points));
    let more_exact = LeaderboardEntry { exact_scores: 2, ..base };
    assert!(more_exact.outranks(&base));
    let earlier = LeaderboardEntry { last_prediction_time: 800, ..base };
    assert!(earlier.outranks(&base));
    assert!(!base.outranks(&earlier));
    let smaller_address = LeaderboardEntry { user: account(4), ..base };
    assert!(smaller_address.outranks(&base));
    assert!(!base.outranks(&smaller_address));
    assert!(!base.outranks(&base));
    // Points dominate every later criterion.
    let fewer_points_but_better =
        LeaderboardEntry { total_points: 4, exact_scores: 9, last_prediction_time: 0, ..base };
    assert!(base.outranks(&fewer_points_but_better));
}

#[test]
fn standing_outranks_tiebreaks() {
    let base = StandingEntry {
        user: account(5),
        event_id: 7,
        weighted_score: 10_000,
        correct_count: 1,
        achieved_at: 50,
        rank: 0,
    };
    assert!(StandingEntry { weighted_score: 10_001, ..base }.outranks(&base));
    assert!(StandingEntry { correct_count: 2, ..base }.outranks(&base));
    assert!(StandingEntry { achieved_at: 49, ..base }.outranks(&base));
    assert!(!StandingEntry { achieved_at: 51, ..base }.outranks(&base));
    assert!(StandingEntry { user: contract(0), ..base }.outranks(&base) == false);
    assert!(base.outranks(&StandingEntry { user: contract(0), ..base }));
    assert!(!base.outranks(&base));
}

#[test]
fn participant_score_zero() {
    let s = ParticipantScore::zero(account(3), 11);
    assert_eq!(s.user, account(3));
    assert_eq!(s.event_id, 11);
    assert_eq!(s.weighted_score, 0);
    assert_eq!(s.base_component, 0);
    assert_eq!(s.timing_component, 0);
    assert_eq!(s.underdog_component, 0);
    assert_eq!(s.correct_count, 0);
    assert_eq!(s.achieved_at, 0);
}

// ---------------------------------------------------------------------------
// Address order
// ---------------------------------------------------------------------------

#[test]
fn address_order() {
    assert!(account(255).lt(&contract(0)));
    assert!(!contract(0).lt(&account(255)));
    let mut k = [7u8; 32];
    k[31] = 8;
    let a = Address::new(AddressKind::Account, [7u8; 32]);
    let b = Address::new(AddressKind::Account, k);
    assert!(a.lt(&b));
    assert!(!b.lt(&a));
    assert!(!a.lt(&a));
    assert!(a.same_as(&a));
    assert!(!a.same_as(&b));
    let mut first = [0u8; 32];
    first[0] = 1;
    assert!(b.lt(&Address::new(AddressKind::Account, [0u8; 32])) == false);
    assert!(Address::new(AddressKind::Account, [0u8; 32]).lt(&Address::new(AddressKind::Account, first)));
}

#[test]
fn match_result_scores_swap() {
    for (h, a) in [(3u32, 1u32), (0, 2), (4, 4)] {
        let forward = MatchResult::from_scores(h, a);
        let backward = MatchResult::from_scores(a, h);
        match forward {
            MatchResult::TeamA => assert_eq!(backward, MatchResult::TeamB),
            MatchResult::TeamB => assert_eq!(backward, MatchResult::TeamA),
            MatchResult::Draw => assert_eq!(backward, MatchResult::Draw),
        }
    }
}
