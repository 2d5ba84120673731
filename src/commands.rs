//! The operations the quizmaster's control surface invokes on the live game.

use vstd::prelude::*;

use crate::error::GameError;
use crate::clock::local_now_text;
use crate::player::{
    approved, bet_fits, fresh_player, lemma_correct_count_le, same_but_answers, submitted,
    without_question, Answer, Player, STARTING_BALANCE,
};
use crate::round::{
    answers_countable, bet_processed, bets_collected, eligible, eligible_positions, fresh_round,
    next_phase, score, scoreboard, toggled, winner_position, Round, RoundResult, MAX_ACTION_BET,
    MIN_ACTION_BET,
};
use crate::state::{
    completed, find_player, lemma_player_slot_found, player_id_text, player_slot, rejoined,
    GameState, LAST_ROUND,
};

verus! {

/// Sum of the players' current bets.
pub open spec fn bet_total(s: Seq<Player>) -> int
    decreases s.len(),
{
    if s.len() == 0 {
        0
    } else {
        bet_total(s.drop_last()) + s.last().current_bet
    }
}

/// Every running total of the current bets fits in an `i32`.
pub open spec fn bet_totals_fit(s: Seq<Player>) -> bool {
    forall|i: int| 0 <= i <= s.len() ==> i32::MIN <= #[trigger] bet_total(s.subrange(0, i)) <= i32::MAX
}

/// `g2` is `g` with only its roster and current round changed.
pub open spec fn same_but_table(g: GameState, g2: GameState) -> bool {
    g2 == GameState { players: g2.players, current_round: g2.current_round, ..g }
}

/// `g2` is `g` with only the player at `i` changed, to `p`.
pub open spec fn player_replaced(g: GameState, i: int, p: Player, g2: GameState) -> bool {
    &&& g2.players@ == g.players@.update(i, p)
    &&& g2 == GameState { players: g2.players, ..g }
}

/// The eligible players' ids and scores, in roster order.
pub open spec fn roster_scores(s: Seq<Player>) -> Seq<(String, i32)>
    decreases s.len(),
{
    if s.len() == 0 {
        Seq::empty()
    } else {
        let r = roster_scores(s.drop_last());
        if eligible(s.last()) {
            r.push((s.last().id, score(s.last())))
        } else {
            r
        }
    }
}

/// The pot of the current round fits on the balance of the player at `w`.
pub open spec fn pot_fits(g: GameState, w: int) -> bool {
    g.current_round matches Some(rd) ==> i32::MIN <= g.players@[w].balance + rd.pot <= i32::MAX
}

/// The eligible players' ids and scores, in roster order.
fn roster_scores_of(players: &Vec<Player>) -> (r: Vec<(String, i32)>)
    requires
        answers_countable(players@),
    ensures
        r@ == roster_scores(players@),
{
    let mut r: Vec<(String, i32)> = Vec::new();
    let mut i: usize = 0;
    while i < players.len()
        invariant
            i <= players@.len(),
            answers_countable(players@),
            r@ == roster_scores(players@.subrange(0, i as int)),
        decreases players@.len() - i,
    {
        proof {
            let next = players@.subrange(0, i as int + 1);
            assert(next.drop_last() =~= players@.subrange(0, i as int));
            lemma_correct_count_le(players@[i as int].answers@);
        }
        if players[i].is_active && !players[i].has_folded {
            let c = players[i].count_correct_answers();
            r.push((players[i].id.clone(), c));
        }
        i = i + 1;
    }
    assert(players@.subrange(0, i as int) =~= players@);
    r
}

/// The live game, or `NoActiveGame` when none has been started.
pub fn active_game(slot: &mut Option<GameState>) -> (r: Result<&mut GameState, GameError>)
    ensures
        *old(slot) is None ==> r == Err::<&mut GameState, GameError>(GameError::NoActiveGame),
        *old(slot) is None ==> *final(slot) == *old(slot),
        *old(slot) matches Some(g) ==> (r matches Ok(gr) && *gr == g && *final(slot) == Some(*final(gr))),
{
    match slot {
        Some(g) => Ok(g),
        None => Err(GameError::NoActiveGame),
    }
}

/// Starts a game with one player per name and opens round 1, without
/// collecting any bet.
pub fn start_new_game(player_names: Vec<String>) -> (g: GameState)
    ensures
        g.players@.len() == player_names@.len(),
        forall|k: int|
            0 <= k < player_names@.len() ==> fresh_player(
                player_id_text(k),
                player_names@[k]@,
                #[trigger] g.players@[k],
            ),
        g.round_number == 1,
        g.current_round matches Some(rd) && fresh_round(rd, 1),
        g.round_history@.len() == 0,
        !g.is_finished,
        !g.video_mode_active,
        g.writing_enabled,
{
    let ghost names = player_names@;
    let mut game = GameState::new(player_names);
    let ghost before = game.players@;
    let round = Round::new(1);
    game.start_new_round(round);
    proof {
        assert forall|k: int| 0 <= k < names.len() implies fresh_player(
            player_id_text(k),
            names[k]@,
            #[trigger] game.players@[k],
        ) by {
            assert(fresh_player(player_id_text(k), names[k]@, before[k]));
            assert(rejoined(before[k], game.players@[k]));
        }
    }
    game
}

impl GameState {
    /// Collects the initial bets of the current round; nothing happens when
    /// there is no round.
    pub fn collect_initial_bets(&mut self) -> (r: Result<(), GameError>)
        requires
            old(self).current_round matches Some(rd) ==> forall|k: int|
                0 <= k < old(self).players@.len() ==> bet_fits(#[trigger] old(self).players@[k], rd.min_bet),
        ensures
            old(self).current_round is None ==> r is Ok && *final(self) == *old(self),
            old(self).current_round matches Some(rd) ==> {
                &&& final(self).current_round matches Some(rd2) && bets_collected(
                    rd,
                    old(self).players@,
                    r,
                    rd2,
                    final(self).players@,
                )
                &&& same_but_table(*old(self), *final(self))
            },
    {
        match &mut self.current_round {
            Some(round) => round.collect_initial_bets(&mut self.players),
            None => Ok(()),
        }
    }

    /// Sweeps every player's current bet into the pot of the current round;
    /// nothing happens when there is no round.
    pub fn add_bets_to_pot(&mut self)
        requires
            old(self).current_round matches Some(rd) ==> {
                &&& bet_totals_fit(old(self).players@)
                &&& i32::MIN <= rd.pot + bet_total(old(self).players@) <= i32::MAX
            },
        ensures
            old(self).current_round is None ==> *final(self) == *old(self),
            old(self).current_round matches Some(rd) ==> {
                &&& final(self).current_round == Some(
                    Round { pot: (rd.pot + bet_total(old(self).players@)) as i32, ..rd },
                )
                &&& final(self).players@ == Seq::new(
                    old(self).players@.len(),
                    |k: int| Player { current_bet: 0, ..old(self).players@[k] },
                )
                &&& same_but_table(*old(self), *final(self))
            },
    {
        if self.current_round.is_none() {
            return;
        }
        let mut total: i32 = 0;
        let mut i: usize = 0;
        while i < self.players.len()
            invariant
                i <= self.players@.len(),
                bet_totals_fit(self.players@),
                total == bet_total(self.players@.subrange(0, i as int)),
            decreases self.players@.len() - i,
        {
            proof {
                let next = self.players@.subrange(0, i as int + 1);
                assert(next.drop_last() =~= self.players@.subrange(0, i as int));
                assert(i32::MIN <= bet_total(next) <= i32::MAX);
            }
            total = total + self.players[i].current_bet;
            i = i + 1;
        }
        assert(self.players@.subrange(0, i as int) =~= self.players@);
        if let Some(round) = &mut self.current_round {
            round.add_to_pot(total);
        }
        let mut j: usize = 0;
        while j < self.players.len()
            invariant
                j <= self.players@.len() == old(self).players@.len(),
                forall|k: int|
                    0 <= k < j ==> #[trigger] self.players@[k] == (Player { current_bet: 0, ..old(self).players@[k] }),
                forall|k: int| j <= k < self.players@.len() ==> #[trigger] self.players@[k] == old(self).players@[k],
                same_but_table(*old(self), *self),
                old(self).current_round matches Some(rd) && self.current_round == Some(
                    Round { pot: (rd.pot + bet_total(old(self).players@)) as i32, ..rd },
                ),
            decreases self.players@.len() - j,
        {
            self.players[j].current_bet = 0;
            j = j + 1;
        }
        assert(self.players@ =~= Seq::new(
            old(self).players@.len(),
            |k: int| Player { current_bet: 0, ..old(self).players@[k] },
        ));
    }

    /// A betting action of `amount` by the player with id `player_id` in the
    /// current round.
    pub fn place_bet(&mut self, player_id: &String, amount: i32) -> (r: Result<(), GameError>)
        requires
            player_slot(old(self).players@, player_id@) matches Some(i) ==> (old(
                self,
            ).current_round matches Some(rd) ==> (MIN_ACTION_BET <= amount <= MAX_ACTION_BET && amount
                <= old(self).players@[i].balance ==> rd.pot + amount <= i32::MAX)),
        ensures
            player_slot(old(self).players@, player_id@) is None ==> r == Err::<(), GameError>(
                GameError::PlayerNotFound,
            ) && *final(self) == *old(self),
            player_slot(old(self).players@, player_id@) is Some && old(self).current_round is None ==> r
                == Err::<(), GameError>(GameError::NoActiveRound) && *final(self) == *old(self),
            player_slot(old(self).players@, player_id@) matches Some(i) ==> (old(
                self,
            ).current_round matches Some(rd) ==> {
                &&& final(self).current_round matches Some(rd2) && bet_processed(
                    rd,
                    old(self).players@[i],
                    amount,
                    r,
                    rd2,
                    final(self).players@[i],
                )
                &&& final(self).players@ == old(self).players@.update(i, final(self).players@[i])
                &&& same_but_table(*old(self), *final(self))
            }),
    {
        let i = match find_player(&self.players, player_id) {
            Some(i) => i,
            None => {
                return Err(GameError::PlayerNotFound);
            },
        };
        match &mut self.current_round {
            Some(round) => round.process_bet(&mut self.players[i], amount),
            None => Err(GameError::NoActiveRound),
        }
    }

    /// The player with id `player_id` folds.
    pub fn player_fold(&mut self, player_id: &String) -> (r: Result<(), GameError>)
        ensures
            player_slot(old(self).players@, player_id@) is None ==> r == Err::<(), GameError>(
                GameError::PlayerNotFound,
            ) && *final(self) == *old(self),
            player_slot(old(self).players@, player_id@) matches Some(i) ==> r is Ok && player_replaced(
                *old(self),
                i,
                Player { has_folded: true, is_active: false, ..old(self).players@[i] },
                *final(self),
            ),
    {
        match find_player(&self.players, player_id) {
            Some(i) => {
                self.players[i].fold();
                Ok(())
            },
            None => Err(GameError::PlayerNotFound),
        }
    }

    /// The operator activates or deactivates the player with id `player_id`.
    pub fn toggle_player_active(&mut self, player_id: &String, is_active: bool) -> (r: Result<(), GameError>)
        ensures
            player_slot(old(self).players@, player_id@) is None ==> r == Err::<(), GameError>(
                GameError::PlayerNotFound,
            ) && *final(self) == *old(self),
            player_slot(old(self).players@, player_id@) matches Some(i) ==> r is Ok && player_replaced(
                *old(self),
                i,
                Player { is_active, ..old(self).players@[i] },
                *final(self),
            ),
    {
        match find_player(&self.players, player_id) {
            Some(i) => {
                self.players[i].is_active = is_active;
                Ok(())
            },
            None => Err(GameError::PlayerNotFound),
        }
    }

    /// Moves the current round one phase forward; nothing happens when there
    /// is no round.
    pub fn advance_phase(&mut self)
        ensures
            final(self).current_round == match old(self).current_round {
                Some(rd) => Some(Round { phase: next_phase(rd.phase), ..rd }),
                None => None,
            },
            *final(self) == (GameState { current_round: final(self).current_round, ..*old(self) }),
    {
        if let Some(round) = &mut self.current_round {
            round.advance_phase();
        }
    }

    /// Switches video mode; writing is turned off with it and back on
    /// without it.
    pub fn toggle_video_mode(&mut self)
        ensures
            *final(self) == (GameState {
                video_mode_active: !old(self).video_mode_active,
                writing_enabled: old(self).video_mode_active,
                ..*old(self)
            }),
    {
        self.video_mode_active = !self.video_mode_active;
        self.writing_enabled = !self.video_mode_active;
    }

    /// Allows or forbids writing; writing cannot be allowed in video mode.
    pub fn toggle_writing(&mut self, enabled: bool) -> (r: Result<(), GameError>)
        ensures
            enabled && old(self).video_mode_active ==> r == Err::<(), GameError>(
                GameError::OperationNotPermitted,
            ) && *final(self) == *old(self),
            !(enabled && old(self).video_mode_active) ==> r is Ok && *final(self) == (GameState {
                writing_enabled: enabled,
                ..*old(self)
            }),
    {
        if enabled && self.video_mode_active {
            return Err(GameError::OperationNotPermitted);
        }
        self.writing_enabled = enabled;
        Ok(())
    }

    /// Records an answer of the player with id `player_id`, stamped with the
    /// current time; refused while writing is disabled.
    pub fn update_answer(&mut self, player_id: &String, question_number: i32, image_data: String) -> (r: Result<(), GameError>)
        ensures
            !old(self).writing_enabled ==> r == Err::<(), GameError>(GameError::OperationNotPermitted)
                && *final(self) == *old(self),
            old(self).writing_enabled && player_slot(old(self).players@, player_id@) is None ==> r
                == Err::<(), GameError>(GameError::PlayerNotFound) && *final(self) == *old(self),
            old(self).writing_enabled ==> (player_slot(old(self).players@, player_id@) matches Some(i) ==> {
                &&& r is Ok
                &&& player_replaced(*old(self), i, final(self).players@[i], *final(self))
                &&& same_but_answers(old(self).players@[i], final(self).players@[i])
                &&& exists|ts: String|
                    final(self).players@[i].answers@ == submitted(
                        old(self).players@[i].answers@,
                        question_number,
                        image_data,
                        ts,
                    )
            }),
    {
        if !self.writing_enabled {
            return Err(GameError::OperationNotPermitted);
        }
        match find_player(&self.players, player_id) {
            Some(i) => {
                self.players[i].add_answer(question_number, image_data);
                Ok(())
            },
            None => Err(GameError::PlayerNotFound),
        }
    }

    /// Replaces every answer of the player with id `player_id` to
    /// `question_number` by a fresh, unjudged one stamped with the local time.
    /// This path applies no permission check. Tells whether the player was
    /// found.
    pub fn replace_answer(&mut self, player_id: &String, question_number: i32, image_data: String) -> (found: bool)
        ensures
            found == player_slot(old(self).players@, player_id@) is Some,
            !found ==> *final(self) == *old(self),
            player_slot(old(self).players@, player_id@) matches Some(i) ==> {
                &&& player_replaced(*old(self), i, final(self).players@[i], *final(self))
                &&& same_but_answers(old(self).players@[i], final(self).players@[i])
                &&& exists|ts: String|
                    final(self).players@[i].answers@ == without_question(
                        old(self).players@[i].answers@,
                        question_number,
                    ).push(Answer { question_number, image_data, is_correct: None, timestamp: ts })
            },
    {
        match find_player(&self.players, player_id) {
            Some(i) => {
                let timestamp = local_now_text();
                self.players[i].replace_answer(question_number, image_data, timestamp);
                true
            },
            None => false,
        }
    }

    /// Clears the answers of the player with id `player_id`.
    pub fn clear_player_answers(&mut self, player_id: &String) -> (r: Result<(), GameError>)
        ensures
            player_slot(old(self).players@, player_id@) is None ==> r == Err::<(), GameError>(
                GameError::PlayerNotFound,
            ) && *final(self) == *old(self),
            player_slot(old(self).players@, player_id@) matches Some(i) ==> {
                &&& r is Ok
                &&& player_replaced(*old(self), i, final(self).players@[i], *final(self))
                &&& same_but_answers(old(self).players@[i], final(self).players@[i])
                &&& final(self).players@[i].answers@.len() == 0
            },
    {
        match find_player(&self.players, player_id) {
            Some(i) => {
                self.players[i].clear_answers();
                Ok(())
            },
            None => Err(GameError::PlayerNotFound),
        }
    }

    /// Judges the answer of the player with id `player_id` to
    /// `question_number`.
    pub fn approve_answer(&mut self, player_id: &String, question_number: i32, is_correct: bool) -> (r: Result<(), GameError>)
        ensures
            player_slot(old(self).players@, player_id@) is None ==> r == Err::<(), GameError>(
                GameError::PlayerNotFound,
            ) && *final(self) == *old(self),
            player_slot(old(self).players@, player_id@) matches Some(i) ==> {
                &&& r is Ok
                &&& player_replaced(*old(self), i, final(self).players@[i], *final(self))
                &&& same_but_answers(old(self).players@[i], final(self).players@[i])
                &&& final(self).players@[i].answers@ == approved(
                    old(self).players@[i].answers@,
                    question_number,
                    is_correct,
                )
            },
    {
        match find_player(&self.players, player_id) {
            Some(i) => {
                self.players[i].approve_answer(question_number, is_correct);
                Ok(())
            },
            None => Err(GameError::PlayerNotFound),
        }
    }

    /// Shows question `question_number` if hidden, hides it if shown.
    pub fn reveal_question(&mut self, question_number: i32) -> (r: Result<(), GameError>)
        ensures
            old(self).current_round is None ==> r == Err::<(), GameError>(GameError::NoActiveRound)
                && *final(self) == *old(self),
            old(self).current_round matches Some(rd) ==> {
                &&& r is Ok
                &&& final(self).current_round matches Some(rd2) && rd2.revealed_questions@ == toggled(
                    rd.revealed_questions@,
                    question_number,
                ) && rd2 == (Round { revealed_questions: rd2.revealed_questions, ..rd })
                &&& *final(self) == (GameState { current_round: final(self).current_round, ..*old(self) })
            },
    {
        match &mut self.current_round {
            Some(round) => {
                round.toggle_revealed(question_number);
                Ok(())
            },
            None => Err(GameError::NoActiveRound),
        }
    }

    /// Puts every player back to the starting balance with no per-round
    /// state, active, and opens round 1 of a fresh game (without collecting
    /// bets).
    pub fn reset_game(&mut self)
        ensures
            final(self).players@.len() == old(self).players@.len(),
            forall|k: int|
                0 <= k < old(self).players@.len() ==> {
                    &&& (#[trigger] final(self).players@[k]).answers@.len() == 0
                    &&& final(self).players@[k] == Player {
                        balance: STARTING_BALANCE,
                        current_bet: 0,
                        has_folded: false,
                        is_active: true,
                        answers: final(self).players@[k].answers,
                        ..old(self).players@[k]
                    }
                },
            final(self).round_number == 1,
            final(self).current_round matches Some(rd) && fresh_round(rd, 1),
            *final(self) == (GameState {
                players: final(self).players,
                round_number: 1,
                current_round: final(self).current_round,
                is_finished: false,
                ..*old(self)
            }),
    {
        let mut i: usize = 0;
        while i < self.players.len()
            invariant
                i <= self.players@.len() == old(self).players@.len(),
                *self == (GameState { players: self.players, ..*old(self) }),
                forall|k: int|
                    0 <= k < i ==> {
                        &&& (#[trigger] self.players@[k]).answers@.len() == 0
                        &&& self.players@[k] == Player {
                            balance: STARTING_BALANCE,
                            current_bet: 0,
                            has_folded: false,
                            is_active: true,
                            answers: self.players@[k].answers,
                            ..old(self).players@[k]
                        }
                    },
                forall|k: int| i <= k < self.players@.len() ==> #[trigger] self.players@[k] == old(self).players@[k],
            decreases self.players@.len() - i,
        {
            self.players[i].balance = STARTING_BALANCE;
            self.players[i].current_bet = 0;
            self.players[i].has_folded = false;
            self.players[i].is_active = true;
            self.players[i].clear_answers();
            i = i + 1;
        }
        self.round_number = 0;
        self.is_finished = false;
        let ghost before = self.players@;
        self.start_new_round(Round::new(1));
        proof {
            assert forall|k: int| 0 <= k < old(self).players@.len() implies {
                &&& (#[trigger] self.players@[k]).answers@.len() == 0
                &&& self.players@[k] == Player {
                    balance: STARTING_BALANCE,
                    current_bet: 0,
                    has_folded: false,
                    is_active: true,
                    answers: self.players@[k].answers,
                    ..old(self).players@[k]
                }
            } by {
                assert(rejoined(before[k], self.players@[k]));
            }
        }
    }

    /// Completes the current round: with a winner id, the operator's choice
    /// wins; without one, the round's determined winner does. The outcome
    /// lists the eligible players' scores (in roster order for the operator's
    /// choice, best first otherwise). Nothing happens when there is no round.
    pub fn complete_current_round(&mut self, winner_id: Option<String>) -> (r: Result<(), GameError>)
        requires
            answers_countable(old(self).players@),
            winner_id matches Some(id) ==> (player_slot(old(self).players@, id@) matches Some(w)
                ==> pot_fits(*old(self), w)),
            winner_id is None && eligible_positions(old(self).players@).len() > 0 ==> (player_slot(
                old(self).players@,
                old(self).players@[winner_position(old(self).players@)].id@,
            ) matches Some(w) ==> pot_fits(*old(self), w)),
        ensures
            old(self).current_round is None ==> r is Ok && *final(self) == *old(self),
            old(self).current_round matches Some(rd) ==> match winner_id {
                Some(id) => match player_slot(old(self).players@, id@) {
                    None => r == Err::<(), GameError>(GameError::PlayerNotFound) && *final(self) == *old(
                        self,
                    ),
                    Some(w) => {
                        let res = final(self).round_history@.last();
                        &&& r is Ok
                        &&& completed(*old(self), w, res, *final(self))
                        &&& res.winner_id == old(self).players@[w].id
                        &&& res.winner_name == old(self).players@[w].name
                        &&& res.pot_amount == rd.pot
                        &&& res.correct_answers == score(old(self).players@[w])
                        &&& res.player_scores@ == roster_scores(old(self).players@)
                    },
                },
                None => if eligible_positions(old(self).players@).len() == 0 {
                    r == Err::<(), GameError>(GameError::WinnerNotDeterminable) && *final(self) == *old(
                        self,
                    )
                } else {
                    let res = final(self).round_history@.last();
                    let wp = winner_position(old(self).players@);
                    &&& r is Ok
                    &&& player_slot(old(self).players@, res.winner_id@) matches Some(w) && completed(
                        *old(self),
                        w,
                        res,
                        *final(self),
                    )
                    &&& res.winner_id == old(self).players@[wp].id
                    &&& res.winner_name == old(self).players@[wp].name
                    &&& res.pot_amount == rd.pot
                    &&& res.correct_answers == score(old(self).players@[wp])
                    &&& res.player_scores@ == scoreboard(old(self).players@)
                },
            },
    {
        let pot = match &self.current_round {
            Some(rd) => rd.pot,
            None => {
                return Ok(());
            },
        };
        let result = match winner_id {
            Some(id) => {
                let w = match find_player(&self.players, &id) {
                    Some(w) => w,
                    None => {
                        return Err(GameError::PlayerNotFound);
                    },
                };
                proof {
                    lemma_correct_count_le(self.players@[w as int].answers@);
                }
                let correct = self.players[w].count_correct_answers();
                let player_scores = roster_scores_of(&self.players);
                RoundResult {
                    winner_id: self.players[w].id.clone(),
                    winner_name: self.players[w].name.clone(),
                    pot_amount: pot,
                    correct_answers: correct,
                    player_scores,
                }
            },
            None => {
                let found = match &self.current_round {
                    Some(rd) => rd.determine_winner(self.players.as_slice()),
                    None => None,
                };
                match found {
                    Some(res) => {
                        proof {
                            assert(self.players@.len() == self.players.len());
                            crate::round::lemma_winner_is_first_best(self.players@);
                            lemma_player_slot_found(
                                self.players@,
                                res.winner_id@,
                                winner_position(self.players@),
                            );
                        }
                        res
                    },
                    None => {
                        return Err(GameError::WinnerNotDeterminable);
                    },
                }
            },
        };
        self.complete_round(result)
    }

    /// Opens the next round, without collecting bets. Refused once the game
    /// is finished or all rounds have been played.
    pub fn start_next_round(&mut self) -> (r: Result<(), GameError>)
        ensures
            old(self).is_finished ==> r == Err::<(), GameError>(GameError::GameFinished) && *final(self)
                == *old(self),
            !old(self).is_finished && old(self).round_number >= LAST_ROUND ==> r == Err::<(), GameError>(
                GameError::RoundLimitReached,
            ) && *final(self) == *old(self),
            !old(self).is_finished && old(self).round_number < LAST_ROUND ==> {
                &&& r is Ok
                &&& final(self).round_number == old(self).round_number + 1
                &&& final(self).current_round matches Some(rd) && fresh_round(rd, final(self).round_number)
                &&& final(self).players@.len() == old(self).players@.len()
                &&& forall|k: int|
                    0 <= k < old(self).players@.len() ==> rejoined(
                        #[trigger] old(self).players@[k],
                        final(self).players@[k],
                    )
                &&& *final(self) == (GameState {
                    round_number: final(self).round_number,
                    current_round: final(self).current_round,
                    players: final(self).players,
                    ..*old(self)
                })
            },
    {
        if self.is_finished {
            return Err(GameError::GameFinished);
        }
        if self.round_number >= LAST_ROUND {
            return Err(GameError::RoundLimitReached);
        }
        let round = Round::new(self.round_number + 1);
        self.start_new_round(round);
        Ok(())
    }
}

} // verus!
