use vstd::prelude::*;

use crate::error::GameError;
use crate::player::{after_bet, bet_fits, correct_count, lemma_correct_count_le, Player};
use crate::ranking::{
    descending_from, descending_order, descending_positions, first_max_pos,
    lemma_descending_order_bounded, lemma_first_max_pos,
};

verus! {

/// Smallest amount a single betting action may move.
pub const MIN_ACTION_BET: i32 = 10;

/// Largest amount a single betting action may move.
pub const MAX_ACTION_BET: i32 = 50;

/// Questions asked in every round.
pub const QUESTIONS_PER_ROUND: i32 = 4;

/// The phases of a round, in the only order in which they occur.
#[derive(Debug, Clone, Copy, PartialEq, Eq, Structural)]
pub enum BettingPhase {
    /// Players write their answers.
    Initial,
    /// The forced initial bets are collected.
    CollectingBets,
    /// First betting round.
    FirstBetting,
    /// Answers are shown one by one.
    RevealingAnswers,
    /// Second betting round.
    SecondBetting,
    /// The winner is decided.
    DetermineWinner,
    /// The round is over.
    Completed,
}

/// One betting cycle.
#[derive(Debug, Clone)]
pub struct Round {
    pub round_number: i32,
    pub questions_count: i32,
    pub pot: i32,
    pub min_bet: i32,
    pub phase: BettingPhase,
    pub current_player_index: usize,
    pub dealer_index: usize,
    /// Question numbers currently shown to the audience.
    pub revealed_questions: Vec<i32>,
}

/// What a finished round hands back to the game.
#[derive(Debug, Clone)]
pub struct RoundResult {
    pub winner_id: String,
    pub winner_name: String,
    pub pot_amount: i32,
    pub correct_answers: i32,
    /// Each contender's id with the number of answers judged correct.
    pub player_scores: Vec<(String, i32)>,
}

/// The forced initial bet of a round: 10, 20 and 40 for the first three
/// rounds, 80 from then on.
pub open spec fn min_bet_for(round_number: i32) -> i32 {
    if round_number == 1 {
        10
    } else if round_number == 2 {
        20
    } else if round_number == 3 {
        40
    } else {
        80
    }
}

/// `rd` is a round just opened as round `n`.
pub open spec fn fresh_round(rd: Round, n: i32) -> bool {
    &&& rd.round_number == n
    &&& rd.questions_count == QUESTIONS_PER_ROUND
    &&& rd.pot == 0
    &&& rd.min_bet == min_bet_for(n)
    &&& rd.phase == BettingPhase::Initial
    &&& rd.current_player_index == 0
    &&& rd.dealer_index == 0
    &&& rd.revealed_questions@.len() == 0
}

/// The phase that follows `p`; `Completed` follows itself.
pub open spec fn next_phase(p: BettingPhase) -> BettingPhase {
    match p {
        BettingPhase::Initial => BettingPhase::CollectingBets,
        BettingPhase::CollectingBets => BettingPhase::FirstBetting,
        BettingPhase::FirstBetting => BettingPhase::RevealingAnswers,
        BettingPhase::RevealingAnswers => BettingPhase::SecondBetting,
        BettingPhase::SecondBetting => BettingPhase::DetermineWinner,
        BettingPhase::DetermineWinner => BettingPhase::Completed,
        BettingPhase::Completed => BettingPhase::Completed,
    }
}

/// The phase reached from `p` after `n` advances.
pub open spec fn advanced(p: BettingPhase, n: nat) -> BettingPhase
    decreases n,
{
    if n == 0 {
        p
    } else {
        advanced(next_phase(p), (n - 1) as nat)
    }
}

/// Once completed, a round stays completed however often it is advanced.
pub proof fn lemma_completed_stays_completed(n: nat)
    ensures
        advanced(BettingPhase::Completed, n) == BettingPhase::Completed,
    decreases n,
{
    if n > 0 {
        lemma_completed_stays_completed((n - 1) as nat);
    }
}

/// Owes the initial bet: active and not eliminated.
pub open spec fn owes_ante(p: Player) -> bool {
    p.is_active && p.balance > 0
}

/// Owes the initial bet of `min` and cannot pay it.
pub open spec fn cannot_ante(p: Player, min: i32) -> bool {
    owes_ante(p) && min > p.balance
}

/// The player after paying the initial bet of `min`, if owed.
pub open spec fn ante(p: Player, min: i32) -> Player {
    if owes_ante(p) {
        after_bet(p, min)
    } else {
        p
    }
}

/// The roster after the first `n` players have paid the initial bet.
pub open spec fn antes_until(players: Seq<Player>, min: i32, n: int) -> Seq<Player> {
    Seq::new(players.len(), |k: int| if k < n { ante(players[k], min) } else { players[k] })
}

/// The outcome of collecting the initial bets of round `rd` from `before`:
/// every owing player pays in roster order until one cannot, and the phase
/// becomes `CollectingBets` either way.
pub open spec fn bets_collected(
    rd: Round,
    before: Seq<Player>,
    r: Result<(), GameError>,
    rd2: Round,
    after: Seq<Player>,
) -> bool {
    &&& rd2 == (Round { phase: BettingPhase::CollectingBets, ..rd })
    &&& r is Ok <==> forall|k: int| 0 <= k < before.len() ==> !cannot_ante(#[trigger] before[k], rd.min_bet)
    &&& r is Ok ==> after == antes_until(before, rd.min_bet, before.len() as int)
    &&& r is Err ==> r == Err::<(), GameError>(GameError::InsufficientFunds) && exists|f: int|
        0 <= f < before.len() && cannot_ante(before[f], rd.min_bet) && (forall|k: int|
            0 <= k < f ==> !cannot_ante(#[trigger] before[k], rd.min_bet)) && after == antes_until(
            before,
            rd.min_bet,
            f,
        )
}

/// The outcome of a betting action of `amount` by player `p` in round `rd`:
/// refused outside [10, 50] or beyond the balance, leaving both unchanged;
/// otherwise the amount leaves the balance and goes straight to the pot.
pub open spec fn bet_processed(
    rd: Round,
    p: Player,
    amount: i32,
    r: Result<(), GameError>,
    rd2: Round,
    p2: Player,
) -> bool {
    &&& !(MIN_ACTION_BET <= amount <= MAX_ACTION_BET) ==> r == Err::<(), GameError>(GameError::InvalidBetAmount)
    &&& MIN_ACTION_BET <= amount <= MAX_ACTION_BET && amount > p.balance ==> r == Err::<(), GameError>(
        GameError::InsufficientFunds,
    )
    &&& r is Err ==> rd2 == rd && p2 == p
    &&& MIN_ACTION_BET <= amount <= MAX_ACTION_BET && amount <= p.balance ==> {
        &&& r is Ok
        &&& p2 == (Player { balance: (p.balance - amount) as i32, ..p })
        &&& rd2 == (Round { pot: (rd.pot + amount) as i32, ..rd })
    }
}

/// `i` is the first position of `s` holding `q`.
pub open spec fn first_at(s: Seq<i32>, q: i32, i: int) -> bool {
    &&& 0 <= i < s.len()
    &&& s[i] == q
    &&& forall|j: int| 0 <= j < i ==> s[j] != q
}

/// `s` with `q` taken out if it is there, added at the end if it is not.
pub open spec fn toggled(s: Seq<i32>, q: i32) -> Seq<i32> {
    if exists|i: int| first_at(s, q, i) {
        s.remove(choose|i: int| first_at(s, q, i))
    } else {
        s.push(q)
    }
}

/// Takes part in winner determination: active and not folded.
pub open spec fn eligible(p: Player) -> bool {
    p.is_active && !p.has_folded
}

/// Roster positions of the eligible players, in roster order.
pub open spec fn eligible_positions(players: Seq<Player>) -> Seq<usize>
    decreases players.len(),
{
    if players.len() == 0 {
        Seq::empty()
    } else {
        let e = eligible_positions(players.drop_last());
        if eligible(players.last()) {
            e.push((players.len() - 1) as usize)
        } else {
            e
        }
    }
}

/// Number of answers of `p` judged correct.
pub open spec fn score(p: Player) -> i32 {
    correct_count(p.answers@) as i32
}

/// The scores of the eligible players, in roster order.
pub open spec fn contender_scores(players: Seq<Player>) -> Seq<i32> {
    let e = eligible_positions(players);
    Seq::new(e.len(), |k: int| score(players[e[k] as int]))
}

/// Roster position of the round's winner: the first eligible player, in
/// roster order, among those with the most correct answers.
pub open spec fn winner_position(players: Seq<Player>) -> int {
    eligible_positions(players)[descending_order(contender_scores(players))[0] as int] as int
}

/// The eligible players' ids and scores, best first; equal scores in roster
/// order.
pub open spec fn scoreboard(players: Seq<Player>) -> Seq<(String, i32)> {
    let e = eligible_positions(players);
    let keys = contender_scores(players);
    descending_order(keys).map_values(|k: usize| (players[e[k as int] as int].id, keys[k as int]))
}

/// Every player's answers can be counted in an `i32`.
pub open spec fn answers_countable(players: Seq<Player>) -> bool {
    forall|k: int| 0 <= k < players.len() ==> (#[trigger] players[k]).answers@.len() <= i32::MAX
}

pub proof fn lemma_eligible_positions(players: Seq<Player>)
    requires
        players.len() <= usize::MAX,
    ensures
        eligible_positions(players).len() <= players.len(),
        forall|k: int|
            0 <= k < eligible_positions(players).len() ==> {
                &&& 0 <= #[trigger] eligible_positions(players)[k] < players.len()
                &&& eligible(players[eligible_positions(players)[k] as int])
            },
        forall|k: int, l: int|
            0 <= k < l < eligible_positions(players).len() ==> #[trigger] eligible_positions(
                players,
            )[k] < #[trigger] eligible_positions(players)[l],
        forall|j: int|
            0 <= j < players.len() && eligible(#[trigger] players[j]) ==> exists|k: int|
                0 <= k < eligible_positions(players).len() && eligible_positions(players)[k] == j,
    decreases players.len(),
{
    if players.len() > 0 {
        let s = players.drop_last();
        lemma_eligible_positions(s);
        let e = eligible_positions(s);
        assert forall|j: int| 0 <= j < s.len() implies #[trigger] players[j] == s[j] by {}
        assert forall|j: int| 0 <= j < players.len() && eligible(#[trigger] players[j]) implies exists|k: int|
            0 <= k < eligible_positions(players).len() && eligible_positions(players)[k] == j by {
            if j < s.len() {
                assert(eligible(s[j]));
                let k = choose|k: int| 0 <= k < e.len() && e[k] == j;
                assert(eligible_positions(players)[k] == j);
            } else {
                assert(j == players.len() - 1);
                assert(players.last() == players[j]);
                assert(eligible_positions(players) == e.push((players.len() - 1) as usize));
                assert(eligible_positions(players)[e.len() as int] == j);
            }
        }
    }
}

/// The winner is eligible, no eligible player has more correct answers, and
/// every eligible player before the winner in roster order has strictly fewer:
/// ties go to the earliest player, on every run.
pub proof fn lemma_winner_is_first_best(players: Seq<Player>)
    requires
        players.len() <= usize::MAX,
        eligible_positions(players).len() > 0,
    ensures
        0 <= winner_position(players) < players.len(),
        eligible(players[winner_position(players)]),
        forall|j: int|
            0 <= j < players.len() && eligible(#[trigger] players[j]) ==> score(players[j]) <= score(
                players[winner_position(players)],
            ),
        forall|j: int|
            0 <= j < winner_position(players) && eligible(#[trigger] players[j]) ==> score(players[j])
                < score(players[winner_position(players)]),
{
    let e = eligible_positions(players);
    let keys = contender_scores(players);
    let iden = Seq::new(keys.len(), |i: int| i as usize);
    lemma_eligible_positions(players);
    lemma_first_max_pos(keys, iden);
    let m = first_max_pos(keys, iden);
    assert(descending_order(keys) == descending_from(keys, iden));
    assert(descending_order(keys)[0] == iden[m]);
    assert(iden[m] == m);
    let w = winner_position(players);
    assert(w == e[m]);
    assert forall|j: int| 0 <= j < players.len() && eligible(#[trigger] players[j]) implies score(players[j])
        <= score(players[w]) && (j < w ==> score(players[j]) < score(players[w])) by {
        let k = choose|k: int| 0 <= k < e.len() && e[k] == j;
        assert(iden[k] == k);
        assert(keys[k] == score(players[j]));
        if j < w {
            if k >= m {
                if k > m {
                    assert(e[m] < e[k]);
                }
            }
            assert(k < m);
        }
    }
}

impl Round {
    pub fn new(round_number: i32) -> (r: Round)
        ensures
            fresh_round(r, round_number),
    {
        let min_bet = if round_number == 1 {
            10
        } else if round_number == 2 {
            20
        } else if round_number == 3 {
            40
        } else {
            80
        };
        Round {
            round_number,
            questions_count: QUESTIONS_PER_ROUND,
            pot: 0,
            min_bet,
            phase: BettingPhase::Initial,
            current_player_index: 0,
            dealer_index: 0,
            revealed_questions: Vec::new(),
        }
    }

    /// Takes the round's minimum bet from every active, non-eliminated player
    /// into their current bet (not yet into the pot), in roster order. Stops
    /// at the first such player who cannot pay, leaving the earlier players
    /// debited. The phase becomes `CollectingBets` either way.
    pub fn collect_initial_bets(&mut self, players: &mut Vec<Player>) -> (r: Result<(), GameError>)
        requires
            forall|k: int| 0 <= k < old(players)@.len() ==> bet_fits(#[trigger] old(players)@[k], old(self).min_bet),
        ensures
            bets_collected(*old(self), old(players)@, r, *final(self), final(players)@),
    {
        let min = self.min_bet;
        let mut i: usize = 0;
        while i < players.len()
            invariant
                min == self.min_bet,
                *self == *old(self),
                i <= players@.len() == old(players)@.len(),
                players@ == antes_until(old(players)@, min, i as int),
                forall|k: int| 0 <= k < old(players)@.len() ==> bet_fits(#[trigger] old(players)@[k], min),
                forall|k: int| 0 <= k < i ==> !cannot_ante(#[trigger] old(players)@[k], min),
            decreases players@.len() - i,
        {
            assert(players@[i as int] == old(players)@[i as int]);
            if players[i].is_active && !players[i].is_eliminated() {
                let paid = players[i].place_bet(min);
                if paid.is_err() {
                    self.phase = BettingPhase::CollectingBets;
                    assert(players@ =~= antes_until(old(players)@, min, i as int));
                    return Err(GameError::InsufficientFunds);
                }
            }
            i = i + 1;
            assert(players@ =~= antes_until(old(players)@, min, i as int));
        }
        self.phase = BettingPhase::CollectingBets;
        Ok(())
    }

    /// Shows question `question_number` if hidden, hides it if shown.
    pub fn toggle_revealed(&mut self, question_number: i32)
        ensures
            final(self).revealed_questions@ == toggled(old(self).revealed_questions@, question_number),
            *final(self) == (Round { revealed_questions: final(self).revealed_questions, ..*old(self) }),
    {
        let mut i: usize = 0;
        while i < self.revealed_questions.len()
            invariant
                i <= self.revealed_questions@.len(),
                *self == *old(self),
                forall|j: int| 0 <= j < i ==> self.revealed_questions@[j] != question_number,
            decreases self.revealed_questions@.len() - i,
        {
            if self.revealed_questions[i] == question_number {
                proof {
                    let s = self.revealed_questions@;
                    assert(first_at(s, question_number, i as int));
                    let k = choose|k: int| first_at(s, question_number, k);
                    if k < i {
                        assert(s[k] != question_number);
                    } else if i < k {
                        assert(s[i as int] != question_number);
                    }
                }
                self.revealed_questions.remove(i);
                return;
            }
            i = i + 1;
        }
        self.revealed_questions.push(question_number);
    }

    /// Moves exactly one phase forward; `Completed` stays `Completed`.
    pub fn advance_phase(&mut self)
        ensures
            *final(self) == (Round { phase: next_phase(old(self).phase), ..*old(self) }),
    {
        self.phase = match self.phase {
            BettingPhase::Initial => BettingPhase::CollectingBets,
            BettingPhase::CollectingBets => BettingPhase::FirstBetting,
            BettingPhase::FirstBetting => BettingPhase::RevealingAnswers,
            BettingPhase::RevealingAnswers => BettingPhase::SecondBetting,
            BettingPhase::SecondBetting => BettingPhase::DetermineWinner,
            BettingPhase::DetermineWinner => BettingPhase::Completed,
            BettingPhase::Completed => BettingPhase::Completed,
        };
    }

    pub fn add_to_pot(&mut self, amount: i32)
        requires
            i32::MIN <= old(self).pot + amount <= i32::MAX,
        ensures
            *final(self) == (Round { pot: (old(self).pot + amount) as i32, ..*old(self) }),
    {
        self.pot = self.pot + amount;
    }

    /// A betting action: `amount` must lie in [10, 50] and within the
    /// player's balance; it leaves the balance and goes straight to the pot.
    pub fn process_bet(&mut self, player: &mut Player, amount: i32) -> (r: Result<(), GameError>)
        requires
            MIN_ACTION_BET <= amount <= MAX_ACTION_BET && amount <= old(player).balance
                ==> old(self).pot + amount <= i32::MAX,
        ensures
            bet_processed(*old(self), *old(player), amount, r, *final(self), *final(player)),
    {
        if amount < MIN_ACTION_BET || amount > MAX_ACTION_BET {
            return Err(GameError::InvalidBetAmount);
        }
        if amount > player.balance {
            return Err(GameError::InsufficientFunds);
        }
        player.balance = player.balance - amount;
        self.pot = self.pot + amount;
        Ok(())
    }

    /// Picks the winner among the active, non-folded players: the most
    /// correct answers, ties to the earliest in roster order. `None` when no
    /// player is eligible.
    pub fn determine_winner(&self, players: &[Player]) -> (r: Option<RoundResult>)
        requires
            answers_countable(players@),
        ensures
            r is Some <==> eligible_positions(players@).len() > 0,
            r matches Some(res) ==> {
                &&& res.winner_id == players@[winner_position(players@)].id
                &&& res.winner_name == players@[winner_position(players@)].name
                &&& res.pot_amount == self.pot
                &&& res.correct_answers == score(players@[winner_position(players@)])
                &&& res.player_scores@ == scoreboard(players@)
            },
    {
        let mut chosen: Vec<usize> = Vec::new();
        let mut keys: Vec<i32> = Vec::new();
        let mut i: usize = 0;
        while i < players.len()
            invariant
                i <= players@.len(),
                answers_countable(players@),
                chosen@ == eligible_positions(players@.subrange(0, i as int)),
                keys@.len() == chosen@.len(),
                forall|k: int| 0 <= k < chosen@.len() ==> chosen@[k] < i,
                forall|k: int| 0 <= k < keys@.len() ==> #[trigger] keys@[k] == score(players@[chosen@[k] as int]),
            decreases players@.len() - i,
        {
            let ghost pre = players@.subrange(0, i as int);
            let ghost next = players@.subrange(0, i as int + 1);
            assert(next.drop_last() =~= pre);
            assert(next.last() == players@[i as int]);
            if players[i].is_active && !players[i].has_folded {
                proof {
                    lemma_correct_count_le(players@[i as int].answers@);
                }
                let c = players[i].count_correct_answers();
                chosen.push(i);
                keys.push(c);
            }
            i = i + 1;
        }
        assert(players@.subrange(0, i as int) =~= players@);
        assert(keys@ =~= contender_scores(players@));
        if chosen.len() == 0 {
            return None;
        }
        let order = descending_positions(&keys);
        proof {
            lemma_descending_order_bounded(keys@);
        }
        let w = chosen[order[0]];
        let mut player_scores: Vec<(String, i32)> = Vec::new();
        let mut t: usize = 0;
        while t < order.len()
            invariant
                t <= order@.len() == keys@.len() == chosen@.len(),
                order@ == descending_order(keys@),
                forall|k: int| 0 <= k < order@.len() ==> #[trigger] order@[k] < keys@.len(),
                forall|k: int| 0 <= k < chosen@.len() ==> chosen@[k] < players@.len(),
                player_scores@.len() == t,
                forall|k: int| 0 <= k < t ==> #[trigger] player_scores@[k] == (
                    players@[chosen@[order@[k] as int] as int].id,
                    keys@[order@[k] as int],
                ),
            decreases order@.len() - t,
        {
            let k = order[t];
            player_scores.push((players[chosen[k]].id.clone(), keys[k]));
            t = t + 1;
        }
        assert(player_scores@ =~= scoreboard(players@));
        Some(RoundResult {
            winner_id: players[w].id.clone(),
            winner_name: players[w].name.clone(),
            pot_amount: self.pot,
            correct_answers: keys[order[0]],
            player_scores,
        })
    }
}

} // verus!
