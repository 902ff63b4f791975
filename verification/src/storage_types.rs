//! Event, match and prediction records, with the scoring and ranking rules
//! that apply to them.
//!
//! Text fields hold the raw bytes of the ledger string (titles, descriptions,
//! team names) or symbol (invite codes, predicted outcomes) they stand for.

use vstd::prelude::*;

use crate::address::{
    addr_lt, lemma_addr_lt_irreflexive, lemma_addr_lt_total, lemma_addr_lt_transitive, Address,
};

verus! {

// ---------------------------------------------------------------------------
// Constants
// ---------------------------------------------------------------------------

/// Maximum number of leaderboard ranks that can receive a prize pool payout.
pub const MAX_REWARD_RANKS: u32 = 5;

/// The reward distribution percentages must sum to exactly this value.
pub const REWARD_PERCENT_TOTAL: u32 = 100;

/// Maximum length for an event title (bytes).
pub const MAX_TITLE_LEN: u32 = 200;

/// Maximum length for an event description (bytes).
pub const MAX_DESCRIPTION_LEN: u32 = 1000;

/// Maximum length for a team name (bytes).
pub const MAX_TEAM_NAME_LEN: u32 = 100;

/// Maximum event duration in seconds (90 days).
pub const MAX_EVENT_DURATION_SECONDS: u64 = 7_776_000;

/// Time after finalization during which a winner may claim a prize before
/// it may be swept back to treasury (30 days).
pub const CLAIM_PERIOD_SECONDS: u64 = 2_592_000;

/// Outcome symbol: the first team wins.
pub const OUTCOME_TEAM_A: &'static str = "TEAM_A";

/// Outcome symbol: the second team wins.
pub const OUTCOME_TEAM_B: &'static str = "TEAM_B";

/// Outcome symbol: the match is drawn.
pub const OUTCOME_DRAW: &'static str = "DRAW";

/// Points for the correct 1X2 result (wrong scoreline).
pub const POINTS_CORRECT_RESULT: u32 = 1;

/// Points for the exact scoreline, on top of the result point.
pub const POINTS_EXACT_SCORE: u32 = 3;

/// Largest points multiplier a bonus match may carry (inclusive).
pub const MAX_POINTS_MULTIPLIER: u32 = 3;

/// Base weighting factor applied to every correct prediction (1.00x).
pub const WEIGHT_BASE_BPS: u64 = 10_000;

/// Bonus factor (+0.25x) for a prediction placed early enough.
pub const EARLY_PREDICTION_BONUS_BPS: u64 = 2_500;

/// Lead time (seconds before the match) that earns the early bonus.
pub const EARLY_PREDICTION_LEAD_SECONDS: u64 = 3_600;

/// Bonus factor (+0.50x) for a winning pick made by fewer than half of the
/// match's predictors.
pub const UNDERDOG_BONUS_BPS: u64 = 5_000;

// ---------------------------------------------------------------------------
// Weighted scoring
// ---------------------------------------------------------------------------

/// The early bonus applies: the prediction led the match start by at least
/// the lead time (a prediction after the start leads by nothing).
pub open spec fn is_early(predicted_at: u64, match_time: u64) -> bool {
    match_time >= predicted_at + EARLY_PREDICTION_LEAD_SECONDS
}

/// Weighted contribution `(base, timing, underdog)` of one graded prediction.
pub open spec fn spec_weighted_contribution(
    points_earned: u32,
    predicted_at: u64,
    match_time: u64,
    minority_pick: bool,
) -> (int, int, int) {
    (
        points_earned * WEIGHT_BASE_BPS,
        if is_early(predicted_at, match_time) {
            points_earned * EARLY_PREDICTION_BONUS_BPS
        } else {
            0
        },
        if minority_pick {
            points_earned * UNDERDOG_BONUS_BPS
        } else {
            0
        },
    )
}

/// Computes the weighted contribution of a single graded prediction as
/// `(base, timing_bonus, underdog_bonus)` in point-basis-point units.
///
/// `base` is `points_earned × WEIGHT_BASE_BPS`; the timing bonus is
/// `points_earned × EARLY_PREDICTION_BONUS_BPS` when the prediction led the
/// match start by at least `EARLY_PREDICTION_LEAD_SECONDS`; the underdog
/// bonus is `points_earned × UNDERDOG_BONUS_BPS` for a minority pick. Zero
/// points yield `(0, 0, 0)`.
pub fn weighted_contribution(
    points_earned: u32,
    predicted_at: u64,
    match_time: u64,
    minority_pick: bool,
) -> (r: (u64, u64, u64))
    ensures
        (r.0 as int, r.1 as int, r.2 as int) == spec_weighted_contribution(
            points_earned,
            predicted_at,
            match_time,
            minority_pick,
        ),
{
    if points_earned == 0 {
        return (0, 0, 0);
    }
    let pts = points_earned as u64;
    let base = pts * WEIGHT_BASE_BPS;
    let timing = if match_time.saturating_sub(predicted_at) >= EARLY_PREDICTION_LEAD_SECONDS {
        pts * EARLY_PREDICTION_BONUS_BPS
    } else {
        0
    };
    let underdog = if minority_pick {
        pts * UNDERDOG_BONUS_BPS
    } else {
        0
    };
    (base, timing, underdog)
}

// ---------------------------------------------------------------------------
// MatchResult
// ---------------------------------------------------------------------------

/// Possible outcomes of a prediction match.
///
/// Encoded as a number: 0 = TeamA, 1 = TeamB, 2 = Draw.
#[derive(Clone, Copy, Debug, PartialEq, Eq, Structural)]
pub enum MatchResult {
    /// First team / option A wins
    TeamA,
    /// Second team / option B wins
    TeamB,
    /// Match ends in a draw / tie
    Draw,
}

/// The numeric code of a result.
pub open spec fn result_code(r: MatchResult) -> int {
    match r {
        MatchResult::TeamA => 0,
        MatchResult::TeamB => 1,
        MatchResult::Draw => 2,
    }
}

/// The result a numeric code stands for, if any.
pub open spec fn result_of_code(v: int) -> Option<MatchResult> {
    if v == 0 {
        Some(MatchResult::TeamA)
    } else if v == 1 {
        Some(MatchResult::TeamB)
    } else if v == 2 {
        Some(MatchResult::Draw)
    } else {
        None
    }
}

/// The 1X2 result of a scoreline.
pub open spec fn result_of_scores(home: u32, away: u32) -> MatchResult {
    if home > away {
        MatchResult::TeamA
    } else if home < away {
        MatchResult::TeamB
    } else {
        MatchResult::Draw
    }
}

impl MatchResult {
    /// Encodes the result as 0 (TeamA), 1 (TeamB) or 2 (Draw).
    pub fn to_u8(&self) -> (r: u8)
        ensures
            r == result_code(*self),
    {
        match self {
            MatchResult::TeamA => 0,
            MatchResult::TeamB => 1,
            MatchResult::Draw => 2,
        }
    }

    /// Decodes 0, 1 or 2; `None` for any other value.
    pub fn from_u8(value: u8) -> (r: Option<MatchResult>)
        ensures
            r == result_of_code(value as int),
    {
        match value {
            0 => Some(MatchResult::TeamA),
            1 => Some(MatchResult::TeamB),
            2 => Some(MatchResult::Draw),
            _ => None,
        }
    }

    /// The numeric code as a `u32`.
    pub fn to_u32(&self) -> (r: u32)
        ensures
            r == result_code(*self),
    {
        self.to_u8() as u32
    }

    /// Decodes a `u32` code; `None` for anything but 0, 1 or 2.
    pub fn from_u32(value: u32) -> (r: Option<MatchResult>)
        ensures
            r == result_of_code(value as int),
    {
        if value > u8::MAX as u32 {
            return None;
        }
        Self::from_u8(value as u8)
    }

    /// Derives the 1X2 result from a final scoreline.
    pub fn from_scores(home: u32, away: u32) -> (r: MatchResult)
        ensures
            r == result_of_scores(home, away),
    {
        if home > away {
            MatchResult::TeamA
        } else if home < away {
            MatchResult::TeamB
        } else {
            MatchResult::Draw
        }
    }
}

/// Decoding a result's code gives the result back.
pub proof fn lemma_result_code_roundtrip(r: MatchResult)
    ensures
        result_of_code(result_code(r)) == Some(r),
        0 <= result_code(r) <= 2,
{
}

/// Every code that decodes encodes back to itself.
pub proof fn lemma_result_decode_roundtrip(v: int)
    ensures
        result_of_code(v) matches Some(r) ==> result_code(r) == v,
        result_of_code(v) is Some <==> 0 <= v <= 2,
{
}

/// The encoding of results: TeamA is 0, TeamB is 1, Draw is 2, and no other
/// number stands for a result.
pub proof fn lemma_result_encoding(v: int)
    ensures
        result_code(MatchResult::TeamA) == 0,
        result_code(MatchResult::TeamB) == 1,
        result_code(MatchResult::Draw) == 2,
        (v < 0 || v > 2) ==> result_of_code(v) is None,
{
}

/// The home side wins exactly when it scored more, the away side exactly
/// when it scored more, and a draw is an equal scoreline.
pub proof fn lemma_result_of_scores_by_comparison(home: u32, away: u32)
    ensures
        result_of_scores(home, away) == MatchResult::TeamA <==> home > away,
        result_of_scores(home, away) == MatchResult::TeamB <==> home < away,
        result_of_scores(home, away) == MatchResult::Draw <==> home == away,
{
}

/// Swapping the scoreline swaps the winner and keeps a draw.
pub proof fn lemma_result_of_scores_swap(home: u32, away: u32)
    ensures
        result_of_scores(home, away) == MatchResult::TeamA <==> result_of_scores(away, home)
            == MatchResult::TeamB,
        result_of_scores(home, away) == MatchResult::Draw <==> result_of_scores(away, home)
            == MatchResult::Draw,
        result_of_scores(home, away) == MatchResult::Draw <==> home == away,
{
}


/// A prediction with no points contributes nothing; a scored prediction
/// placed early and against the crowd is worth strictly more than the same
/// prediction placed late with the crowd.
pub proof fn lemma_weighted_contribution_ordering(
    points_earned: u32,
    early_at: u64,
    late_at: u64,
    match_time: u64,
)
    requires
        is_early(early_at, match_time),
        !is_early(late_at, match_time),
    ensures
        spec_weighted_contribution(0, early_at, match_time, true) == (0int, 0int, 0int),
        points_earned > 0 ==> {
            let a = spec_weighted_contribution(points_earned, early_at, match_time, true);
            let b = spec_weighted_contribution(points_earned, late_at, match_time, false);
            a.0 + a.1 + a.2 > b.0 + b.1 + b.2
        },
{
}

/// How the weighted contribution is made up: the base is 10_000 per point;
/// the timing bonus is a quarter of the base when the prediction led the
/// match start by at least an hour and nothing otherwise; the underdog bonus
/// is half the base for a minority pick and nothing otherwise.
pub proof fn lemma_weighted_contribution_parts(
    points_earned: u32,
    predicted_at: u64,
    match_time: u64,
    minority_pick: bool,
)
    ensures
        ({
            let c = spec_weighted_contribution(points_earned, predicted_at, match_time, minority_pick);
            &&& c.0 == 10_000 * points_earned
            &&& predicted_at + 3_600 <= match_time ==> 4 * c.1 == c.0
            &&& predicted_at + 3_600 > match_time ==> c.1 == 0
            &&& minority_pick ==> 2 * c.2 == c.0
            &&& !minority_pick ==> c.2 == 0
        }),
{
}

// ---------------------------------------------------------------------------
// Event
// ---------------------------------------------------------------------------

/// Core event record: all information about a creator's prediction event.
#[derive(Clone, Debug, PartialEq, Eq)]
pub struct Event {
    /// Auto-incremented unique identifier
    pub event_id: u64,
    /// Address of the creator; only they can manage the event
    pub creator: Address,
    /// Human-readable title (at most `MAX_TITLE_LEN` bytes)
    pub title: Vec<u8>,
    /// Full description / rules (at most `MAX_DESCRIPTION_LEN` bytes)
    pub description: Vec<u8>,
    /// XLM fee (in stroops) the creator paid to create the event
    pub creation_fee_paid: i128,
    /// Unix timestamp when the event was created
    pub created_at: u64,
    /// Unix timestamp when the event starts accepting predictions
    pub start_time: u64,
    /// Unix timestamp when the event ends
    pub end_time: u64,
    /// Whether the event is open for new predictions
    pub is_active: bool,
    /// Whether the event has been cancelled
    pub is_cancelled: bool,
    /// Invite code symbol used for private events
    pub invite_code: Vec<u8>,
    /// Hard cap on participants (0 = unlimited)
    pub max_participants: u32,
    /// Current number of confirmed participants
    pub participant_count: u32,
    /// Number of matches that belong to this event
    pub match_count: u32,
    /// XLM prize pool (in stroops) escrowed for winners; 0 for a fun event
    pub prize_pool: i128,
    /// XLM fee (in stroops) each participant pays to join; 0 = free
    pub entry_fee: i128,
    /// Percentage of the prize pool awarded to each rank, best rank first
    pub reward_distribution: Vec<u32>,
    /// Whether the prize pool has been distributed / the event closed out
    pub is_finalized: bool,
}

/// The event can still take a new participant.
pub open spec fn event_accepts_participants(e: Event) -> bool {
    &&& e.is_active
    &&& !e.is_cancelled
    &&& (e.max_participants == 0 || e.participant_count < e.max_participants)
}

/// The event with one more participant.
pub open spec fn with_participant(e: Event) -> Event {
    Event { participant_count: (e.participant_count + 1) as u32, ..e }
}

/// What `Event::validate` reports for an event.
pub open spec fn event_validation(e: Event) -> Result<(), &'static str> {
    if e.title@.len() == 0 {
        Err("Title cannot be empty")
    } else if e.title@.len() > MAX_TITLE_LEN {
        Err("Title exceeds maximum length")
    } else if e.description@.len() > MAX_DESCRIPTION_LEN {
        Err("Description exceeds maximum length")
    } else {
        Ok(())
    }
}

/// An event passes validation exactly when its title is 1 to 200 bytes and
/// its description at most 1000 bytes; an empty title is reported before an
/// overlong one, and either title fault before a description fault.
pub proof fn lemma_event_validation(e: Event)
    ensures
        event_validation(e) is Ok <==> (1 <= e.title@.len() <= 200 && e.description@.len() <= 1000),
        e.title@.len() == 0 ==> event_validation(e) == Err::<(), &'static str>(
            "Title cannot be empty",
        ),
        e.title@.len() > 200 ==> event_validation(e) == Err::<(), &'static str>(
            "Title exceeds maximum length",
        ),
        1 <= e.title@.len() <= 200 && e.description@.len() > 1000 ==> event_validation(e) == Err::<
            (),
            &'static str,
        >("Description exceeds maximum length"),
{
}

impl Event {
    /// Constructs a new active, uncancelled, unfinalized event with no
    /// participants and no matches.
    #[allow(clippy::too_many_arguments)]
    pub fn new(
        event_id: u64,
        creator: Address,
        title: Vec<u8>,
        description: Vec<u8>,
        creation_fee_paid: i128,
        created_at: u64,
        start_time: u64,
        end_time: u64,
        invite_code: Vec<u8>,
        max_participants: u32,
        prize_pool: i128,
        reward_distribution: Vec<u32>,
        entry_fee: i128,
    ) -> (r: Event)
        ensures
            r == (Event {
                event_id,
                creator,
                title,
                description,
                creation_fee_paid,
                created_at,
                start_time,
                end_time,
                is_active: true,
                is_cancelled: false,
                invite_code,
                max_participants,
                participant_count: 0,
                match_count: 0,
                prize_pool,
                entry_fee,
                reward_distribution,
                is_finalized: false,
            }),
    {
        Event {
            event_id,
            creator,
            title,
            description,
            creation_fee_paid,
            created_at,
            start_time,
            end_time,
            is_active: true,
            is_cancelled: false,
            invite_code,
            max_participants,
            participant_count: 0,
            match_count: 0,
            prize_pool,
            entry_fee,
            reward_distribution,
            is_finalized: false,
        }
    }

    /// `true` once `current_time >= end_time`.
    pub fn has_ended(&self, current_time: u64) -> (r: bool)
        ensures
            r == (current_time >= self.end_time),
    {
        current_time >= self.end_time
    }

    /// `true` if `time` falls within `[start_time, end_time]` (inclusive).
    pub fn is_within_window(&self, time: u64) -> (r: bool)
        ensures
            r == (self.start_time <= time && time <= self.end_time),
    {
        time >= self.start_time && time <= self.end_time
    }

    /// `true` when the event is active, not cancelled, and below its
    /// participant cap (a cap of 0 means unlimited).
    pub fn can_accept_participants(&self) -> (r: bool)
        ensures
            r == event_accepts_participants(*self),
    {
        if !self.is_active || self.is_cancelled {
            return false;
        }
        self.max_participants == 0 || self.participant_count < self.max_participants
    }

    /// Closes the event for new predictions without cancelling it.
    pub fn deactivate(&mut self)
        ensures
            *final(self) == (Event { is_active: false, ..*old(self) }),
    {
        self.is_active = false;
    }

    /// Cancels the event entirely.
    pub fn cancel(&mut self)
        ensures
            *final(self) == (Event { is_active: false, is_cancelled: true, ..*old(self) }),
    {
        self.is_active = false;
        self.is_cancelled = true;
    }

    /// Registers a new participant.
    ///
    /// Fails, leaving the event unchanged, when it is cancelled, inactive or
    /// full; otherwise the participant count goes up by one.
    pub fn add_participant(&mut self) -> (r: Result<(), &'static str>)
        requires
            event_accepts_participants(*old(self)) ==> old(self).participant_count < u32::MAX,
        ensures
            old(self).is_cancelled ==> r == Err::<(), &'static str>("Event is cancelled"),
            !old(self).is_cancelled && !old(self).is_active ==> r == Err::<(), &'static str>(
                "Event is not active",
            ),
            !old(self).is_cancelled && old(self).is_active && old(self).max_participants > 0
                && old(self).participant_count >= old(self).max_participants ==> r == Err::<
                (),
                &'static str,
            >("Event has reached maximum participants"),
            r is Ok <==> event_accepts_participants(*old(self)),
            r is Ok ==> *final(self) == with_participant(*old(self)),
            r is Err ==> *final(self) == *old(self),
    {
        if self.is_cancelled {
            return Err("Event is cancelled");
        }
        if !self.is_active {
            return Err("Event is not active");
        }
        if self.max_participants > 0 && self.participant_count >= self.max_participants {
            return Err("Event has reached maximum participants");
        }
        self.participant_count = self.participant_count + 1;
        Ok(())
    }

    /// Increments the match counter when a new match is added.
    pub fn add_match(&mut self)
        requires
            old(self).match_count < u32::MAX,
        ensures
            *final(self) == (Event { match_count: (old(self).match_count + 1) as u32, ..*old(self) }),
    {
        self.match_count = self.match_count + 1;
    }

    /// Age of the event in seconds at `current_timestamp` (0 before creation).
    pub fn get_age_seconds(&self, current_timestamp: u64) -> (r: u64)
        ensures
            r == (if current_timestamp >= self.created_at {
                current_timestamp - self.created_at
            } else {
                0
            }),
    {
        current_timestamp.saturating_sub(self.created_at)
    }

    /// Validates title and description lengths.
    pub fn validate(&self) -> (r: Result<(), &'static str>)
        ensures
            r == event_validation(*self),
    {
        if self.title.len() == 0 {
            return Err("Title cannot be empty");
        }
        if self.title.len() > MAX_TITLE_LEN as usize {
            return Err("Title exceeds maximum length");
        }
        if self.description.len() > MAX_DESCRIPTION_LEN as usize {
            return Err("Description exceeds maximum length");
        }
        Ok(())
    }

    /// `true` when a title is at most `MAX_TITLE_LEN` bytes long.
    pub fn is_valid_title(title: &Vec<u8>) -> (r: bool)
        ensures
            r == (title@.len() <= MAX_TITLE_LEN),
    {
        title.len() <= MAX_TITLE_LEN as usize
    }

    /// `true` when a description is at most `MAX_DESCRIPTION_LEN` bytes long.
    pub fn is_valid_description(description: &Vec<u8>) -> (r: bool)
        ensures
            r == (description@.len() <= MAX_DESCRIPTION_LEN),
    {
        description.len() <= MAX_DESCRIPTION_LEN as usize
    }
}

/// A participant is only ever added while the event accepts one, so an
/// event with a cap never holds more participants than its cap: adding to an
/// event within its cap keeps it within its cap.
pub proof fn lemma_add_participant_respects_cap(before: Event)
    requires
        before.max_participants > 0,
        before.participant_count <= before.max_participants,
        event_accepts_participants(before),
    ensures
        with_participant(before).participant_count <= with_participant(before).max_participants,
        with_participant(before).participant_count == before.participant_count + 1,
{
}


// ---------------------------------------------------------------------------
// Match
// ---------------------------------------------------------------------------

/// A single prediction match within an event.
#[derive(Clone, Debug, PartialEq, Eq)]
pub struct Match {
    /// Unique identifier (global, assigned from the match counter)
    pub match_id: u64,
    /// ID of the parent event
    pub event_id: u64,
    /// Name of the first team / option (at most `MAX_TEAM_NAME_LEN` bytes)
    pub team_a: Vec<u8>,
    /// Name of the second team / option (at most `MAX_TEAM_NAME_LEN` bytes)
    pub team_b: Vec<u8>,
    /// Scheduled start time (Unix timestamp in seconds)
    pub match_time: u64,
    /// Whether a result has been submitted
    pub result_submitted: bool,
    /// The winning outcome code (0=TeamA, 1=TeamB, 2=Draw); `None` until a
    /// result is submitted
    pub winning_team: Option<u32>,
    /// Address of the oracle / admin that submitted the result
    pub submitted_by: Option<Address>,
    /// Unix timestamp when the result was submitted
    pub submitted_at: Option<u64>,
    /// Final score for team A (home team)
    pub home_score: Option<u32>,
    /// Final score for team B (away team)
    pub away_score: Option<u32>,
    /// Points multiplier for this match (1 = normal, 2 = double, 3 = triple)
    pub points_multiplier: u32,
}

/// The result a match records, if its winning code decodes.
pub open spec fn match_winner(m: Match) -> Option<MatchResult> {
    match m.winning_team {
        Some(v) => result_of_code(v as int),
        None => None,
    }
}

/// Whether predictions are open at `current_time` with the given cutoff.
pub open spec fn match_allows_predictions(
    m: Match,
    current_time: u64,
    prediction_cutoff_minutes: u64,
) -> bool {
    let lead = prediction_cutoff_minutes * 60;
    let cutoff = if m.match_time >= lead {
        m.match_time - lead
    } else {
        0
    };
    current_time < cutoff && !m.result_submitted
}

/// What `Match::validate` reports for a match: the first failing check, in
/// order, or `Ok`.
pub open spec fn match_validation(m: Match) -> Result<(), &'static str> {
    if m.team_a@.len() == 0 {
        Err("Team A name cannot be empty")
    } else if m.team_a@.len() > MAX_TEAM_NAME_LEN {
        Err("Team A name exceeds maximum length")
    } else if m.team_b@.len() == 0 {
        Err("Team B name cannot be empty")
    } else if m.team_b@.len() > MAX_TEAM_NAME_LEN {
        Err("Team B name exceeds maximum length")
    } else if m.team_a@ == m.team_b@ {
        Err("Team names must be different")
    } else if m.result_submitted {
        if m.winning_team is None {
            Err("Result submitted but winning_team is None")
        } else if m.submitted_by is None {
            Err("Result submitted but submitted_by is None")
        } else if m.submitted_at is None {
            Err("Result submitted but submitted_at is None")
        } else if m.winning_team->0 > 2 {
            Err("winning_team value must be 0 (TeamA), 1 (TeamB), or 2 (Draw)")
        } else {
            Ok(())
        }
    } else if m.winning_team is Some {
        Err("winning_team set but result_submitted is false")
    } else if m.submitted_at is Some {
        Err("submitted_at set but result_submitted is false")
    } else {
        Ok(())
    }
}

/// The match with a result recorded: the result's code, who submitted it
/// and when.
pub open spec fn with_result(m: Match, result: MatchResult, by: Address, at: u64) -> Match {
    Match {
        winning_team: Some(result_code(result) as u32),
        submitted_by: Some(by),
        submitted_at: Some(at),
        result_submitted: true,
        ..m
    }
}

/// `true` when two byte strings are equal.
pub fn bytes_equal(a: &Vec<u8>, b: &Vec<u8>) -> (r: bool)
    ensures
        r == (a@ == b@),
{
    if a.len() != b.len() {
        return false;
    }
    let mut i: usize = 0;
    while i < a.len()
        invariant
            a@.len() == b@.len(),
            0 <= i <= a@.len(),
            forall|j: int| 0 <= j < i ==> a@[j] == b@[j],
        decreases a@.len() - i,
    {
        if a[i] != b[i] {
            return false;
        }
        i = i + 1;
    }
    assert(a@ =~= b@);
    true
}

/// A match passes validation exactly when both team names are 1 to 100
/// bytes and differ, and its result fields agree with whether a result was
/// submitted: a submitted result has a winner code of at most 2, a
/// submitter and a time; a pending match has no winner code and no time.
pub proof fn lemma_match_validation(m: Match)
    ensures
        match_validation(m) is Ok <==> ({
            &&& 1 <= m.team_a@.len() <= 100
            &&& 1 <= m.team_b@.len() <= 100
            &&& m.team_a@ != m.team_b@
            &&& m.result_submitted ==> (m.winning_team matches Some(v) && v <= 2)
                && m.submitted_by is Some && m.submitted_at is Some
            &&& !m.result_submitted ==> m.winning_team is None && m.submitted_at is None
        }),
{
}

/// Predictions on a match are open exactly while no result has been
/// submitted and the cutoff lead still lies ahead: `current_time` plus the
/// cutoff (in seconds) is before the match time.
pub proof fn lemma_prediction_window(m: Match, current_time: u64, prediction_cutoff_minutes: u64)
    ensures
        match_allows_predictions(m, current_time, prediction_cutoff_minutes) <==> (
        !m.result_submitted && current_time + prediction_cutoff_minutes * 60 < m.match_time),
{
}

impl Match {
    /// Creates a new pending match with no result.
    pub fn new(
        match_id: u64,
        event_id: u64,
        team_a: Vec<u8>,
        team_b: Vec<u8>,
        match_time: u64,
        points_multiplier: u32,
    ) -> (r: Match)
        ensures
            r == (Match {
                match_id,
                event_id,
                team_a,
                team_b,
                match_time,
                result_submitted: false,
                winning_team: None,
                submitted_by: None,
                submitted_at: None,
                home_score: None,
                away_score: None,
                points_multiplier,
            }),
    {
        Match {
            match_id,
            event_id,
            team_a,
            team_b,
            match_time,
            result_submitted: false,
            winning_team: None,
            submitted_by: None,
            submitted_at: None,
            home_score: None,
            away_score: None,
            points_multiplier,
        }
    }

    /// Records a result for this match.
    ///
    /// Fails, leaving the match unchanged, when a result was already
    /// submitted; otherwise stores the result's code, the submitter and the
    /// timestamp, and marks the result submitted.
    pub fn submit_result(
        &mut self,
        result: MatchResult,
        submitted_by: Address,
        timestamp: u64,
    ) -> (r: Result<(), &'static str>)
        ensures
            old(self).result_submitted ==> r == Err::<(), &'static str>(
                "Result already submitted for this match",
            ) && *final(self) == *old(self),
            !old(self).result_submitted ==> r is Ok && *final(self) == with_result(
                *old(self),
                result,
                submitted_by,
                timestamp,
            ),
    {
        if self.result_submitted {
            return Err("Result already submitted for this match");
        }
        self.winning_team = Some(result.to_u32());
        self.submitted_by = Some(submitted_by);
        self.submitted_at = Some(timestamp);
        self.result_submitted = true;
        Ok(())
    }

    /// The winning result, or `None` if no (decodable) result is recorded.
    pub fn get_winner(&self) -> (r: Option<MatchResult>)
        ensures
            r == match_winner(*self),
    {
        match self.winning_team {
            Some(v) => MatchResult::from_u32(v),
            None => None,
        }
    }

    /// `true` once a result has been recorded.
    pub fn is_completed(&self) -> (r: bool)
        ensures
            r == self.result_submitted,
    {
        self.result_submitted
    }

    /// `true` if `current_time >= match_time`.
    pub fn has_started(&self, current_time: u64) -> (r: bool)
        ensures
            r == (current_time >= self.match_time),
    {
        current_time >= self.match_time
    }

    /// `true` if the match has started but no result has been submitted yet.
    pub fn is_ready_for_result(&self, current_time: u64) -> (r: bool)
        ensures
            r == (current_time >= self.match_time && !self.result_submitted),
    {
        self.has_started(current_time) && !self.result_submitted
    }

    /// Seconds until the match starts; 0 if already started.
    pub fn time_until_start(&self, current_time: u64) -> (r: u64)
        ensures
            r == (if self.match_time >= current_time {
                self.match_time - current_time
            } else {
                0
            }),
    {
        self.match_time.saturating_sub(current_time)
    }

    /// Seconds since the result was submitted; 0 if no result yet.
    pub fn time_since_result(&self, current_time: u64) -> (r: u64)
        ensures
            r == (match self.submitted_at {
                Some(t) => if current_time >= t {
                    (current_time - t) as u64
                } else {
                    0
                },
                None => 0,
            }),
    {
        match self.submitted_at {
            Some(t) => current_time.saturating_sub(t),
            None => 0,
        }
    }

    /// `true` if predictions are still open: before the cutoff, which lies
    /// `prediction_cutoff_minutes` before `match_time` (never before time 0),
    /// and only while no result has been submitted.
    pub fn allows_predictions(&self, current_time: u64, prediction_cutoff_minutes: u64) -> (r:
        bool)
        requires
            prediction_cutoff_minutes * 60 <= u64::MAX,
        ensures
            r == match_allows_predictions(*self, current_time, prediction_cutoff_minutes),
    {
        let cutoff = self.match_time.saturating_sub(prediction_cutoff_minutes * 60);
        current_time < cutoff && !self.result_submitted
    }

    /// Validates team names and the consistency of the result fields.
    pub fn validate(&self) -> (r: Result<(), &'static str>)
        ensures
            r == match_validation(*self),
    {
        if self.team_a.len() == 0 {
            return Err("Team A name cannot be empty");
        }
        if self.team_a.len() > MAX_TEAM_NAME_LEN as usize {
            return Err("Team A name exceeds maximum length");
        }
        if self.team_b.len() == 0 {
            return Err("Team B name cannot be empty");
        }
        if self.team_b.len() > MAX_TEAM_NAME_LEN as usize {
            return Err("Team B name exceeds maximum length");
        }
        if bytes_equal(&self.team_a, &self.team_b) {
            return Err("Team names must be different");
        }
        if self.result_submitted {
            if self.winning_team.is_none() {
                return Err("Result submitted but winning_team is None");
            }
            if self.submitted_by.is_none() {
                return Err("Result submitted but submitted_by is None");
            }
            if self.submitted_at.is_none() {
                return Err("Result submitted but submitted_at is None");
            }
            if let Some(v) = self.winning_team {
                if v > 2 {
                    return Err("winning_team value must be 0 (TeamA), 1 (TeamB), or 2 (Draw)");
                }
            }
        } else {
            if self.winning_team.is_some() {
                return Err("winning_team set but result_submitted is false");
            }
            if self.submitted_at.is_some() {
                return Err("submitted_at set but result_submitted is false");
            }
        }
        Ok(())
    }
}

/// A match that accepted a result reports that result as its winner, is
/// completed, and closes for predictions; a second submission is refused.
pub proof fn lemma_submitted_result_is_winner(
    before: Match,
    result: MatchResult,
    by: Address,
    at: u64,
)
    ensures
        match_winner(with_result(before, result, by, at)) == Some(result),
        with_result(before, result, by, at).result_submitted,
        forall|t: u64, c: u64|
            !match_allows_predictions(with_result(before, result, by, at), t, c),
{
}


/// A valid pending match stays valid once a result is recorded.
pub proof fn lemma_submit_result_keeps_match_valid(
    before: Match,
    result: MatchResult,
    by: Address,
    at: u64,
)
    requires
        match_validation(before) is Ok,
        !before.result_submitted,
    ensures
        match_validation(with_result(before, result, by, at)) is Ok,
{
}

// ---------------------------------------------------------------------------
// Prediction
// ---------------------------------------------------------------------------

/// A user's prediction for a single match inside an event.
#[derive(Clone, Debug, PartialEq, Eq)]
pub struct Prediction {
    /// Global unique identifier assigned from the prediction counter
    pub prediction_id: u64,
    /// Match this prediction is for
    pub match_id: u64,
    /// Parent event identifier
    pub event_id: u64,
    /// Address of the user who placed this prediction
    pub predictor: Address,
    /// Predicted outcome symbol: "TEAM_A", "TEAM_B" or "DRAW" (derived from
    /// the predicted scoreline)
    pub predicted_outcome: Vec<u8>,
    /// Predicted score for team A (home team)
    pub predicted_home_score: u32,
    /// Predicted score for team B (away team)
    pub predicted_away_score: u32,
    /// Unix timestamp when the prediction was submitted
    pub predicted_at: u64,
    /// `Some(true)` = correct 1X2 result, `Some(false)` = wrong result,
    /// `None` = not yet graded
    pub is_correct: Option<bool>,
    /// Points earned: `None` until graded
    pub points_earned: Option<u32>,
}

/// The outcome symbols spell "TEAM_A", "TEAM_B" and "DRAW".
pub proof fn lemma_outcome_symbol_spelling()
    ensures
        outcome_symbol(MatchResult::TeamA) == seq![
            'T' as u8,
            'E' as u8,
            'A' as u8,
            'M' as u8,
            '_' as u8,
            'A' as u8,
        ],
        outcome_symbol(MatchResult::TeamB) == seq![
            'T' as u8,
            'E' as u8,
            'A' as u8,
            'M' as u8,
            '_' as u8,
            'B' as u8,
        ],
        outcome_symbol(MatchResult::Draw) == seq!['D' as u8, 'R' as u8, 'A' as u8, 'W' as u8],
{
}

/// The legal outcome symbols are exactly "TEAM_A", "TEAM_B" and "DRAW".
pub proof fn lemma_legal_outcome_symbols(s: Seq<u8>)
    ensures
        is_outcome_symbol(s) <==> (s == seq![
            'T' as u8,
            'E' as u8,
            'A' as u8,
            'M' as u8,
            '_' as u8,
            'A' as u8,
        ] || s == seq!['T' as u8, 'E' as u8, 'A' as u8, 'M' as u8, '_' as u8, 'B' as u8] || s
            == seq!['D' as u8, 'R' as u8, 'A' as u8, 'W' as u8]),
{
    lemma_outcome_symbol_spelling();
}

/// Every result's outcome symbol is a legal outcome symbol, and different
/// results have different symbols.
pub proof fn lemma_outcome_symbols(a: MatchResult, b: MatchResult)
    ensures
        is_outcome_symbol(outcome_symbol(a)),
        a != b ==> outcome_symbol(a) != outcome_symbol(b),
{
    if a != b {
        assert(outcome_symbol(a) != outcome_symbol(b)) by {
            if outcome_symbol(a).len() == outcome_symbol(b).len() {
                assert(outcome_symbol(a)[5] != outcome_symbol(b)[5]);
            }
        }
    }
}

/// The bytes of the outcome symbol of a result: "TEAM_A", "TEAM_B" or "DRAW".
pub open spec fn outcome_symbol(r: MatchResult) -> Seq<u8> {
    match r {
        MatchResult::TeamA => seq![84u8, 69u8, 65u8, 77u8, 95u8, 65u8],
        MatchResult::TeamB => seq![84u8, 69u8, 65u8, 77u8, 95u8, 66u8],
        MatchResult::Draw => seq![68u8, 82u8, 65u8, 87u8],
    }
}

/// The symbol is one of the three legal outcome symbols.
pub open spec fn is_outcome_symbol(s: Seq<u8>) -> bool {
    s == outcome_symbol(MatchResult::TeamA) || s == outcome_symbol(MatchResult::TeamB) || s
        == outcome_symbol(MatchResult::Draw)
}

/// Base points (before the multiplier) for a predicted scoreline against the
/// actual one: 4 for the exact score, 1 for the right 1X2 result only, else 0.
pub open spec fn base_points(
    predicted_home: u32,
    predicted_away: u32,
    actual_home: u32,
    actual_away: u32,
) -> int {
    if predicted_home == actual_home && predicted_away == actual_away {
        POINTS_CORRECT_RESULT + POINTS_EXACT_SCORE
    } else if result_of_scores(predicted_home, predicted_away) == result_of_scores(
        actual_home,
        actual_away,
    ) {
        POINTS_CORRECT_RESULT as int
    } else {
        0
    }
}

/// The outcome symbol of a result, as bytes.
fn outcome_symbol_bytes(r: MatchResult) -> (s: Vec<u8>)
    ensures
        s@ == outcome_symbol(r),
{
    match r {
        MatchResult::TeamA => vec![84u8, 69u8, 65u8, 77u8, 95u8, 65u8],
        MatchResult::TeamB => vec![84u8, 69u8, 65u8, 77u8, 95u8, 66u8],
        MatchResult::Draw => vec![68u8, 82u8, 65u8, 87u8],
    }
}

impl Prediction {
    /// Creates a new ungraded prediction from a scoreline; the outcome symbol
    /// is derived from the scoreline.
    pub fn new(
        prediction_id: u64,
        match_id: u64,
        event_id: u64,
        predictor: Address,
        predicted_home_score: u32,
        predicted_away_score: u32,
        predicted_at: u64,
    ) -> (r: Prediction)
        ensures
            r.predicted_outcome@ == outcome_symbol(
                result_of_scores(predicted_home_score, predicted_away_score),
            ),
            r == (Prediction {
                prediction_id,
                match_id,
                event_id,
                predictor,
                predicted_outcome: r.predicted_outcome,
                predicted_home_score,
                predicted_away_score,
                predicted_at,
                is_correct: None,
                points_earned: None,
            }),
    {
        let predicted_outcome = outcome_symbol_bytes(
            MatchResult::from_scores(predicted_home_score, predicted_away_score),
        );
        Prediction {
            prediction_id,
            match_id,
            event_id,
            predictor,
            predicted_outcome,
            predicted_home_score,
            predicted_away_score,
            predicted_at,
            is_correct: None,
            points_earned: None,
        }
    }

    /// Checks that an outcome symbol is "TEAM_A", "TEAM_B" or "DRAW".
    pub fn validate_outcome(outcome: &Vec<u8>) -> (r: Result<(), &'static str>)
        ensures
            is_outcome_symbol(outcome@) ==> r is Ok,
            !is_outcome_symbol(outcome@) ==> r == Err::<(), &'static str>(
                "predicted_outcome must be TEAM_A, TEAM_B, or DRAW",
            ),
    {
        let team_a = outcome_symbol_bytes(MatchResult::TeamA);
        let team_b = outcome_symbol_bytes(MatchResult::TeamB);
        let draw = outcome_symbol_bytes(MatchResult::Draw);
        if bytes_equal(outcome, &team_a) || bytes_equal(outcome, &team_b) || bytes_equal(
            outcome,
            &draw,
        ) {
            Ok(())
        } else {
            Err("predicted_outcome must be TEAM_A, TEAM_B, or DRAW")
        }
    }

    /// Grades this prediction against the actual scoreline: records whether
    /// the 1X2 result was right, and awards the base points (4 exact, 1 right
    /// result, 0 otherwise) times `points_multiplier`.
    pub fn grade(&mut self, actual_home: u32, actual_away: u32, points_multiplier: u32)
        requires
            base_points(
                old(self).predicted_home_score,
                old(self).predicted_away_score,
                actual_home,
                actual_away,
            ) * points_multiplier <= u32::MAX,
        ensures
            *final(self) == (Prediction {
                is_correct: Some(
                    result_of_scores(old(self).predicted_home_score, old(self).predicted_away_score)
                        == result_of_scores(actual_home, actual_away),
                ),
                points_earned: Some(
                    (base_points(
                        old(self).predicted_home_score,
                        old(self).predicted_away_score,
                        actual_home,
                        actual_away,
                    ) * points_multiplier) as u32,
                ),
                ..*old(self)
            }),
    {
        let actual_result = MatchResult::from_scores(actual_home, actual_away);
        let predicted_result = MatchResult::from_scores(
            self.predicted_home_score,
            self.predicted_away_score,
        );
        let result_correct = predicted_result == actual_result;
        let exact_correct = self.predicted_home_score == actual_home && self.predicted_away_score
            == actual_away;
        self.is_correct = Some(result_correct);
        let base_points: u32 = if exact_correct {
            POINTS_CORRECT_RESULT + POINTS_EXACT_SCORE
        } else if result_correct {
            POINTS_CORRECT_RESULT
        } else {
            0
        };
        self.points_earned = Some(base_points * points_multiplier);
    }

    /// `true` if the prediction has been graded and was correct.
    pub fn is_winner(&self) -> (r: bool)
        ensures
            r == (self.is_correct == Some(true)),
    {
        match self.is_correct {
            Some(c) => c,
            None => false,
        }
    }

    /// `true` if `predicted_at` is strictly before `match_time`.
    pub fn is_before_match_time(&self, match_time: u64) -> (r: bool)
        ensures
            r == (self.predicted_at < match_time),
    {
        self.predicted_at < match_time
    }
}

/// Two scorelines have the same 1X2 result exactly when they agree on
/// which side, if any, scored more.
pub proof fn lemma_same_result_iff_same_winner(h1: u32, a1: u32, h2: u32, a2: u32)
    ensures
        (result_of_scores(h1, a1) == result_of_scores(h2, a2)) <==> ((h1 > a1) == (h2 > a2) && (h1
            < a1) == (h2 < a2)),
{
}

/// Grading by the scoreline: an exact scoreline (both scores equal) earns 4
/// base points; a different scoreline with the same winner (or a draw for a
/// draw) earns exactly 1; a different winner earns 0. The result is marked
/// correct exactly when the winner (or the draw) was predicted.
pub proof fn lemma_grading_by_scoreline(
    predicted_home: u32,
    predicted_away: u32,
    actual_home: u32,
    actual_away: u32,
)
    ensures
        predicted_home == actual_home && predicted_away == actual_away ==> base_points(
            predicted_home,
            predicted_away,
            actual_home,
            actual_away,
        ) == 4,
        !(predicted_home == actual_home && predicted_away == actual_away) && (predicted_home
            > predicted_away) == (actual_home > actual_away) && (predicted_home < predicted_away)
            == (actual_home < actual_away) ==> base_points(
            predicted_home,
            predicted_away,
            actual_home,
            actual_away,
        ) == 1,
        !((predicted_home > predicted_away) == (actual_home > actual_away) && (predicted_home
            < predicted_away) == (actual_home < actual_away)) ==> base_points(
            predicted_home,
            predicted_away,
            actual_home,
            actual_away,
        ) == 0,
        (result_of_scores(predicted_home, predicted_away) == result_of_scores(
            actual_home,
            actual_away,
        )) <==> ((predicted_home > predicted_away) == (actual_home > actual_away) && (
        predicted_home < predicted_away) == (actual_home < actual_away)),
{
    lemma_same_result_iff_same_winner(predicted_home, predicted_away, actual_home, actual_away);
}

/// Grading awards 0, 1 or 4 base points; an exact scoreline always has the
/// right 1X2 result; points are positive exactly when the result was right
/// (for a positive multiplier).
pub proof fn lemma_grading_points(
    predicted_home: u32,
    predicted_away: u32,
    actual_home: u32,
    actual_away: u32,
    multiplier: u32,
)
    ensures
        ({
            let b = base_points(predicted_home, predicted_away, actual_home, actual_away);
            b == 0 || b == 1 || b == 4
        }),
        (predicted_home == actual_home && predicted_away == actual_away) ==> result_of_scores(
            predicted_home,
            predicted_away,
        ) == result_of_scores(actual_home, actual_away),
        multiplier > 0 ==> ((base_points(predicted_home, predicted_away, actual_home, actual_away)
            * multiplier > 0) <==> result_of_scores(predicted_home, predicted_away)
            == result_of_scores(actual_home, actual_away)),
{
    let b = base_points(predicted_home, predicted_away, actual_home, actual_away);
    assert(b >= 0);
    if b > 0 {
        assert(b * multiplier >= multiplier) by (nonlinear_arith)
            requires
                b >= 1,
                multiplier >= 0,
        ;
    }
}


// ---------------------------------------------------------------------------
// LeaderboardEntry
// ---------------------------------------------------------------------------

/// Ranked leaderboard entry for an event participant.
#[derive(Clone, Copy, Debug, PartialEq, Eq)]
pub struct LeaderboardEntry {
    /// Address of the participant
    pub user: Address,
    /// Event identifier
    pub event_id: u64,
    /// Total points earned from all predictions
    pub total_points: u32,
    /// Number of predictions with the correct 1X2 result
    pub correct_results: u32,
    /// Number of predictions with the exact scoreline
    pub exact_scores: u32,
    /// Total number of predictions this user submitted for the event
    pub matches_played: u32,
    /// Unix timestamp of this user's most recent prediction (earlier ranks
    /// higher on a tie)
    pub last_prediction_time: u64,
    /// 1-based rank after sorting (1 is the top-ranked participant)
    pub rank: u32,
}

/// `a` outranks `b`: more points; then more exact scores; then an earlier
/// last prediction; then the smaller address.
pub open spec fn leaderboard_outranks(a: LeaderboardEntry, b: LeaderboardEntry) -> bool {
    if a.total_points != b.total_points {
        a.total_points > b.total_points
    } else if a.exact_scores != b.exact_scores {
        a.exact_scores > b.exact_scores
    } else if a.last_prediction_time != b.last_prediction_time {
        a.last_prediction_time < b.last_prediction_time
    } else {
        addr_lt(a.user, b.user)
    }
}

impl LeaderboardEntry {
    /// Constructs a leaderboard entry; its rank (0) is assigned later.
    pub fn new(
        user: Address,
        event_id: u64,
        total_points: u32,
        correct_results: u32,
        exact_scores: u32,
        matches_played: u32,
        last_prediction_time: u64,
    ) -> (r: LeaderboardEntry)
        ensures
            r == (LeaderboardEntry {
                user,
                event_id,
                total_points,
                correct_results,
                exact_scores,
                matches_played,
                last_prediction_time,
                rank: 0,
            }),
    {
        LeaderboardEntry {
            user,
            event_id,
            total_points,
            correct_results,
            exact_scores,
            matches_played,
            last_prediction_time,
            rank: 0,
        }
    }

    /// `true` if this entry outranks `other`: higher `total_points`; on a
    /// tie higher `exact_scores`; then earlier `last_prediction_time`; then
    /// the smaller address.
    pub fn outranks(&self, other: &LeaderboardEntry) -> (r: bool)
        ensures
            r == leaderboard_outranks(*self, *other),
    {
        if self.total_points != other.total_points {
            return self.total_points > other.total_points;
        }
        if self.exact_scores != other.exact_scores {
            return self.exact_scores > other.exact_scores;
        }
        if self.last_prediction_time != other.last_prediction_time {
            return self.last_prediction_time < other.last_prediction_time;
        }
        self.user.lt(&other.user)
    }
}

/// The leaderboard tie-breaks, each consulted only when all before it tie:
/// more points wins whatever else; with equal points, more exact scores wins
/// whatever the prediction times and addresses; with both equal, the
/// earlier last prediction wins whatever the addresses; with all three
/// equal, the smaller address wins.
pub proof fn lemma_leaderboard_tiebreaks(a: LeaderboardEntry, b: LeaderboardEntry)
    ensures
        a.total_points > b.total_points ==> leaderboard_outranks(a, b) && !leaderboard_outranks(
            b,
            a,
        ),
        a.total_points == b.total_points && a.exact_scores > b.exact_scores ==> leaderboard_outranks(
            a,
            b,
        ) && !leaderboard_outranks(b, a),
        a.total_points == b.total_points && a.exact_scores == b.exact_scores
            && a.last_prediction_time < b.last_prediction_time ==> leaderboard_outranks(a, b)
            && !leaderboard_outranks(b, a),
        a.total_points == b.total_points && a.exact_scores == b.exact_scores
            && a.last_prediction_time == b.last_prediction_time ==> (leaderboard_outranks(a, b)
            <==> addr_lt(a.user, b.user)),
{
}

/// Leaderboard order is a strict total order on participants: no entry
/// outranks itself, it is transitive, and of two entries for different
/// users exactly one outranks the other, so there are no shared ranks.
pub proof fn lemma_leaderboard_order(a: LeaderboardEntry, b: LeaderboardEntry, c: LeaderboardEntry)
    ensures
        !leaderboard_outranks(a, a),
        leaderboard_outranks(a, b) && leaderboard_outranks(b, c) ==> leaderboard_outranks(a, c),
        a.user != b.user ==> (leaderboard_outranks(a, b) || leaderboard_outranks(b, a)),
        !(leaderboard_outranks(a, b) && leaderboard_outranks(b, a)),
{
    lemma_addr_lt_irreflexive(a.user);
    if a.user != b.user {
        lemma_addr_lt_total(a.user, b.user);
    }
    if addr_lt(a.user, b.user) && addr_lt(b.user, c.user) {
        lemma_addr_lt_transitive(a.user, b.user, c.user);
    }
    if addr_lt(a.user, b.user) && addr_lt(b.user, a.user) {
        lemma_addr_lt_transitive(a.user, b.user, a.user);
    }
}

// ---------------------------------------------------------------------------
// PrizeAllocation
// ---------------------------------------------------------------------------

/// A winner's staged prize-pool allocation, recorded at finalization in
/// place of an immediate transfer and settled exactly once, by a claim or by
/// a clawback to treasury.
#[derive(Clone, Copy, Debug, PartialEq, Eq)]
pub struct PrizeAllocation {
    /// Address of the allocated winner
    pub winner: Address,
    /// Event identifier
    pub event_id: u64,
    /// XLM amount (in stroops) allocated to this winner
    pub amount: i128,
    /// `true` once settled, by a claim or by a clawback
    pub claimed: bool,
}

// ---------------------------------------------------------------------------
// ParticipantScore
// ---------------------------------------------------------------------------

/// A participant's accumulated weighted score for an event, with its
/// components.
#[derive(Clone, Copy, Debug, PartialEq, Eq)]
pub struct ParticipantScore {
    /// Address of the participant
    pub user: Address,
    /// Event identifier
    pub event_id: u64,
    /// Total weighted score, the sum of the three components
    pub weighted_score: u64,
    /// Sum of points × `WEIGHT_BASE_BPS` over correct predictions
    pub base_component: u64,
    /// Sum of early-prediction bonuses
    pub timing_component: u64,
    /// Sum of against-the-crowd bonuses
    pub underdog_component: u64,
    /// Number of predictions graded with a correct 1X2 result
    pub correct_count: u32,
    /// Timestamp at which the weighted score last increased (0 = never)
    pub achieved_at: u64,
}

/// The weighted score is the sum of its components.
pub open spec fn score_is_consistent(s: ParticipantScore) -> bool {
    s.weighted_score == s.base_component + s.timing_component + s.underdog_component
}

impl ParticipantScore {
    /// A zeroed score for a participant who has not scored yet.
    pub fn zero(user: Address, event_id: u64) -> (r: ParticipantScore)
        ensures
            r == (ParticipantScore {
                user,
                event_id,
                weighted_score: 0,
                base_component: 0,
                timing_component: 0,
                underdog_component: 0,
                correct_count: 0,
                achieved_at: 0,
            }),
            score_is_consistent(r),
    {
        ParticipantScore {
            user,
            event_id,
            weighted_score: 0,
            base_component: 0,
            timing_component: 0,
            underdog_component: 0,
            correct_count: 0,
            achieved_at: 0,
        }
    }
}

// ---------------------------------------------------------------------------
// StandingEntry
// ---------------------------------------------------------------------------

/// One row of an event's ranked weighted standings.
#[derive(Clone, Copy, Debug, PartialEq, Eq)]
pub struct StandingEntry {
    /// Address of the participant
    pub user: Address,
    /// Event identifier
    pub event_id: u64,
    /// Total weighted score (point-basis-point units)
    pub weighted_score: u64,
    /// Number of correct predictions
    pub correct_count: u32,
    /// Timestamp the participant last increased their score (0 = never)
    pub achieved_at: u64,
    /// 1-based rank after sorting (1 is the top-ranked participant)
    pub rank: u32,
}

/// `a` outranks `b`: higher weighted score; then more correct predictions;
/// then the earlier achievement; then the smaller address.
pub open spec fn standing_outranks(a: StandingEntry, b: StandingEntry) -> bool {
    if a.weighted_score != b.weighted_score {
        a.weighted_score > b.weighted_score
    } else if a.correct_count != b.correct_count {
        a.correct_count > b.correct_count
    } else if a.achieved_at != b.achieved_at {
        a.achieved_at < b.achieved_at
    } else {
        addr_lt(a.user, b.user)
    }
}

impl StandingEntry {
    /// `true` if this entry outranks `other`: higher `weighted_score`; on a
    /// tie more `correct_count`; then earlier `achieved_at`; then the smaller
    /// address.
    pub fn outranks(&self, other: &StandingEntry) -> (r: bool)
        ensures
            r == standing_outranks(*self, *other),
    {
        if self.weighted_score != other.weighted_score {
            return self.weighted_score > other.weighted_score;
        }
        if self.correct_count != other.correct_count {
            return self.correct_count > other.correct_count;
        }
        if self.achieved_at != other.achieved_at {
            return self.achieved_at < other.achieved_at;
        }
        self.user.lt(&other.user)
    }
}

/// The standings tie-breaks, each consulted only when all before it tie: a
/// higher weighted score wins whatever else; with equal scores, more correct
/// predictions wins whatever the achievement times and addresses; with both
/// equal, the earlier achievement wins whatever the addresses; with all
/// three equal, the smaller address wins.
pub proof fn lemma_standing_tiebreaks(a: StandingEntry, b: StandingEntry)
    ensures
        a.weighted_score > b.weighted_score ==> standing_outranks(a, b) && !standing_outranks(
            b,
            a,
        ),
        a.weighted_score == b.weighted_score && a.correct_count > b.correct_count
            ==> standing_outranks(a, b) && !standing_outranks(b, a),
        a.weighted_score == b.weighted_score && a.correct_count == b.correct_count && a.achieved_at
            < b.achieved_at ==> standing_outranks(a, b) && !standing_outranks(b, a),
        a.weighted_score == b.weighted_score && a.correct_count == b.correct_count && a.achieved_at
            == b.achieved_at ==> (standing_outranks(a, b) <==> addr_lt(a.user, b.user)),
{
}

/// The standings order is a strict total order on participants: no entry
/// outranks itself, it is transitive, and of two entries for different
/// users exactly one outranks the other.
pub proof fn lemma_standing_order(a: StandingEntry, b: StandingEntry, c: StandingEntry)
    ensures
        !standing_outranks(a, a),
        standing_outranks(a, b) && standing_outranks(b, c) ==> standing_outranks(a, c),
        a.user != b.user ==> (standing_outranks(a, b) || standing_outranks(b, a)),
        !(standing_outranks(a, b) && standing_outranks(b, a)),
{
    lemma_addr_lt_irreflexive(a.user);
    if a.user != b.user {
        lemma_addr_lt_total(a.user, b.user);
    }
    if addr_lt(a.user, b.user) && addr_lt(b.user, c.user) {
        lemma_addr_lt_transitive(a.user, b.user, c.user);
    }
    if addr_lt(a.user, b.user) && addr_lt(b.user, a.user) {
        lemma_addr_lt_transitive(a.user, b.user, a.user);
    }
}

} // verus!
