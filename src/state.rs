use vstd::prelude::*;

use crate::clock::{utc_now_rfc3339, utc_now_timestamp};
use crate::error::GameError;
use crate::player::{fresh_player, Player};
use crate::ranking::{descending_order, descending_positions, lemma_descending_order_bounded};
use crate::round::{Round, RoundResult};
use crate::text::{int_text, numbered};

verus! {

/// Rounds in a full game.
pub const LAST_ROUND: i32 = 7;

/// The round after which the field is narrowed to two.
pub const NARROWING_ROUND: i32 = 4;

/// The whole state of one game.
#[derive(Debug, Clone)]
pub struct GameState {
    pub game_id: String,
    /// Fixed membership for the lifetime of the game.
    pub players: Vec<Player>,
    pub current_round: Option<Round>,
    /// Number of rounds started.
    pub round_number: i32,
    /// Outcomes of the completed rounds, oldest first.
    pub round_history: Vec<RoundResult>,
    pub created_at: String,
    pub is_finished: bool,
    pub video_mode_active: bool,
    pub video_device_id: Option<String>,
    /// Whether players may currently write answers.
    pub writing_enabled: bool,
}

/// The id of the player at roster position `idx`.
pub open spec fn player_id_text(idx: int) -> Seq<char> {
    "player_"@ + int_text(idx)
}

/// `i` is the first roster position holding a player with id `id`.
pub open spec fn first_id(players: Seq<Player>, id: Seq<char>, i: int) -> bool {
    &&& 0 <= i < players.len()
    &&& players[i].id@ == id
    &&& forall|j: int| 0 <= j < i ==> players[j].id@ != id
}

/// Where the player with id `id` stands in the roster, if anywhere.
pub open spec fn player_slot(players: Seq<Player>, id: Seq<char>) -> Option<int> {
    if exists|i: int| first_id(players, id, i) {
        Some(choose|i: int| first_id(players, id, i))
    } else {
        None
    }
}

/// Still in contention: active with a positive balance.
pub open spec fn in_contention(p: Player) -> bool {
    p.is_active && p.balance > 0
}

/// Number of players in contention.
pub open spec fn contention_count(s: Seq<Player>) -> nat
    decreases s.len(),
{
    if s.len() == 0 {
        0
    } else {
        contention_count(s.drop_last()) + if in_contention(s.last()) { 1nat } else { 0nat }
    }
}

/// Number of players that are not eliminated (positive balance).
pub open spec fn survivor_count(s: Seq<Player>) -> nat
    decreases s.len(),
{
    if s.len() == 0 {
        0
    } else {
        survivor_count(s.drop_last()) + if s.last().balance > 0 { 1nat } else { 0nat }
    }
}

/// The lowest balance among the players in contention (`i32::MAX` if none is).
pub open spec fn lowest_balance(s: Seq<Player>) -> i32
    decreases s.len(),
{
    if s.len() == 0 {
        i32::MAX
    } else {
        let m = lowest_balance(s.drop_last());
        if in_contention(s.last()) && s.last().balance < m {
            s.last().balance
        } else {
            m
        }
    }
}

/// `i` is the first active player whose balance is `m`.
pub open spec fn first_at_balance(s: Seq<Player>, m: i32, i: int) -> bool {
    &&& 0 <= i < s.len()
    &&& s[i].is_active && s[i].balance == m
    &&& forall|j: int| 0 <= j < i ==> !(s[j].is_active && s[j].balance == m)
}

/// The player deactivated.
pub open spec fn deactivated(p: Player) -> Player {
    Player { is_active: false, ..p }
}

/// With more than two players in contention, the first active player with the
/// lowest balance is deactivated.
pub open spec fn narrowed(s: Seq<Player>) -> Seq<Player> {
    let m = lowest_balance(s);
    if contention_count(s) > 2 && exists|i: int| first_at_balance(s, m, i) {
        let i = choose|i: int| first_at_balance(s, m, i);
        s.update(i, deactivated(s[i]))
    } else {
        s
    }
}

/// The roster after the player at `w` won `pot` and every player without a
/// positive balance was deactivated.
pub open spec fn settled(s: Seq<Player>, w: int, pot: i32) -> Seq<Player> {
    Seq::new(
        s.len(),
        |k: int|
            {
                let p = if k == w {
                    Player { balance: (s[k].balance + pot) as i32, ..s[k] }
                } else {
                    s[k]
                };
                Player { is_active: p.is_active && p.balance > 0, ..p }
            },
    )
}

/// `g2` is `g` after completing its round with `result`, won by the player at
/// roster position `w`.
pub open spec fn completed(g: GameState, w: int, result: RoundResult, g2: GameState) -> bool {
    let s = settled(g.players@, w, result.pot_amount);
    &&& g2.players@ == if g.round_number == NARROWING_ROUND {
        narrowed(s)
    } else {
        s
    }
    &&& g2.round_history@ == g.round_history@.push(result)
    &&& g2.is_finished == (g.is_finished || g.round_number >= LAST_ROUND || survivor_count(g2.players@) <= 1)
    &&& g2 == (GameState {
        players: g2.players,
        round_history: g2.round_history,
        current_round: None,
        is_finished: g2.is_finished,
        ..g
    })
}

/// No player in contention has a balance below the lowest one, and when any
/// player is in contention, one of them has exactly that balance.
pub proof fn lemma_lowest_balance(s: Seq<Player>)
    ensures
        forall|j: int|
            0 <= j < s.len() && in_contention(#[trigger] s[j]) ==> lowest_balance(s) <= s[j].balance,
        contention_count(s) == 0 ==> lowest_balance(s) == i32::MAX,
        contention_count(s) > 0 ==> exists|i: int|
            0 <= i < s.len() && in_contention(s[i]) && s[i].balance == lowest_balance(s),
    decreases s.len(),
{
    if s.len() > 0 {
        let t = s.drop_last();
        let n = s.len() - 1;
        lemma_lowest_balance(t);
        assert forall|j: int| 0 <= j < t.len() implies #[trigger] s[j] == t[j] by {}
        assert(s.last() == s[n]);
        if in_contention(s[n]) && s[n].balance < lowest_balance(t) {
            assert(in_contention(s[n]) && s[n].balance == lowest_balance(s));
        } else if contention_count(t) > 0 {
            let i = choose|i: int| 0 <= i < t.len() && in_contention(t[i]) && t[i].balance == lowest_balance(t);
            assert(in_contention(s[i]) && s[i].balance == lowest_balance(s));
        } else if in_contention(s[n]) {
            assert(in_contention(s[n]) && s[n].balance == lowest_balance(s));
        }
    }
}

/// An active player with balance `m` makes a first one known.
pub proof fn lemma_first_at_balance_found(s: Seq<Player>, m: i32, i: int)
    requires
        0 <= i < s.len(),
        s[i].is_active && s[i].balance == m,
    ensures
        exists|f: int| first_at_balance(s, m, f),
    decreases i,
{
    if forall|j: int| 0 <= j < i ==> !(s[j].is_active && s[j].balance == m) {
        assert(first_at_balance(s, m, i));
    } else {
        let j = choose|j: int| 0 <= j < i && s[j].is_active && s[j].balance == m;
        lemma_first_at_balance_found(s, m, j);
    }
}

/// With more than two players in contention, narrowing deactivates exactly
/// one of them: the first in roster order among those with the lowest
/// balance. Everyone else is left as they were.
pub proof fn lemma_narrowing_removes_lowest(s: Seq<Player>)
    requires
        contention_count(s) > 2,
    ensures
        exists|f: int|
            0 <= f < s.len() && in_contention(s[f]) && narrowed(s) == s.update(f, deactivated(s[f]))
                && (forall|j: int|
                0 <= j < s.len() && in_contention(#[trigger] s[j]) ==> s[f].balance <= s[j].balance)
                && (forall|j: int|
                0 <= j < f && in_contention(#[trigger] s[j]) ==> s[f].balance < s[j].balance),
{
    lemma_lowest_balance(s);
    let m = lowest_balance(s);
    let i = choose|i: int| 0 <= i < s.len() && in_contention(s[i]) && s[i].balance == m;
    lemma_first_at_balance_found(s, m, i);
    let f = choose|f: int| first_at_balance(s, m, f);
    assert(in_contention(s[f]));
    assert forall|j: int| 0 <= j < f && in_contention(#[trigger] s[j]) implies s[f].balance < s[j].balance by {
        assert(!(s[j].is_active && s[j].balance == m));
    }
}

/// Completing the last round ends the game, whatever the balances.
pub proof fn lemma_last_round_finishes(g: GameState, w: int, result: RoundResult, g2: GameState)
    requires
        completed(g, w, result, g2),
        g.round_number >= LAST_ROUND,
    ensures
        g2.is_finished,
{
}

/// The player at the start of a new round: per-round state cleared, and
/// deactivated when the balance is not positive.
pub open spec fn rejoined(p: Player, q: Player) -> bool {
    &&& q.answers@.len() == 0
    &&& q == Player {
        is_active: p.is_active && p.balance > 0,
        current_bet: 0,
        has_folded: false,
        answers: q.answers,
        ..p
    }
}

/// The players' balances, in roster order.
pub open spec fn balances(s: Seq<Player>) -> Seq<i32> {
    Seq::new(s.len(), |k: int| s[k].balance)
}

pub proof fn lemma_first_id_unique(players: Seq<Player>, id: Seq<char>, i: int, j: int)
    requires
        first_id(players, id, i),
        first_id(players, id, j),
    ensures
        i == j,
{
    if i < j {
        assert(players[i].id@ != id);
    } else if j < i {
        assert(players[j].id@ != id);
    }
}

/// A player carrying `id` makes its slot known.
pub proof fn lemma_player_slot_found(players: Seq<Player>, id: Seq<char>, i: int)
    requires
        0 <= i < players.len(),
        players[i].id@ == id,
    ensures
        player_slot(players, id) is Some,
    decreases i,
{
    if forall|j: int| 0 <= j < i ==> players[j].id@ != id {
        assert(first_id(players, id, i));
    } else {
        let j = choose|j: int| 0 <= j < i && players[j].id@ == id;
        lemma_player_slot_found(players, id, j);
    }
}

pub proof fn lemma_first_at_balance_unique(s: Seq<Player>, m: i32, i: int, j: int)
    requires
        first_at_balance(s, m, i),
        first_at_balance(s, m, j),
    ensures
        i == j,
{
    if i < j {
        assert(!(s[i].is_active && s[i].balance == m));
    } else if j < i {
        assert(!(s[j].is_active && s[j].balance == m));
    }
}

/// Roster position of the player with id `id`, if any.
pub fn find_player(players: &Vec<Player>, id: &String) -> (r: Option<usize>)
    ensures
        r matches Some(i) ==> player_slot(players@, id@) == Some(i as int),
        r is None ==> player_slot(players@, id@) is None,
{
    let mut i: usize = 0;
    while i < players.len()
        invariant
            i <= players@.len(),
            forall|j: int| 0 <= j < i ==> players@[j].id@ != id@,
        decreases players@.len() - i,
    {
        if players[i].id == *id {
            proof {
                assert(first_id(players@, id@, i as int));
                let k = choose|k: int| first_id(players@, id@, k);
                lemma_first_id_unique(players@, id@, i as int, k);
            }
            return Some(i);
        }
        i = i + 1;
    }
    None
}

/// Deactivates the first active player with the lowest balance when more than
/// two players are in contention.
fn narrow_field(players: &mut Vec<Player>)
    ensures
        final(players)@ == narrowed(old(players)@),
{
    let mut count: usize = 0;
    let mut lowest: i32 = i32::MAX;
    let mut i: usize = 0;
    while i < players.len()
        invariant
            i <= players@.len(),
            count <= i,
            count == contention_count(players@.subrange(0, i as int)),
            lowest == lowest_balance(players@.subrange(0, i as int)),
        decreases players@.len() - i,
    {
        proof {
            let next = players@.subrange(0, i as int + 1);
            assert(next.drop_last() =~= players@.subrange(0, i as int));
        }
        if players[i].is_active && players[i].balance > 0 {
            count = count + 1;
            if players[i].balance < lowest {
                lowest = players[i].balance;
            }
        }
        i = i + 1;
    }
    assert(players@.subrange(0, i as int) =~= players@);
    if count > 2 {
        let mut j: usize = 0;
        while j < players.len()
            invariant
                j <= players@.len(),
                players@ == old(players)@,
                lowest == lowest_balance(players@),
                contention_count(players@) > 2,
                forall|k: int| 0 <= k < j ==> !(players@[k].is_active && players@[k].balance == lowest),
            decreases players@.len() - j,
        {
            if players[j].is_active && players[j].balance == lowest {
                proof {
                    assert(first_at_balance(players@, lowest, j as int));
                    let k = choose|k: int| first_at_balance(players@, lowest, k);
                    lemma_first_at_balance_unique(players@, lowest, j as int, k);
                }
                players[j].is_active = false;
                return;
            }
            j = j + 1;
        }
    }
}

/// Number of players with a positive balance.
fn count_survivors(players: &Vec<Player>) -> (n: usize)
    ensures
        n == survivor_count(players@),
{
    let mut n: usize = 0;
    let mut i: usize = 0;
    while i < players.len()
        invariant
            i <= players@.len(),
            n <= i,
            n == survivor_count(players@.subrange(0, i as int)),
        decreases players@.len() - i,
    {
        proof {
            let next = players@.subrange(0, i as int + 1);
            assert(next.drop_last() =~= players@.subrange(0, i as int));
        }
        if players[i].balance > 0 {
            n = n + 1;
        }
        i = i + 1;
    }
    assert(players@.subrange(0, i as int) =~= players@);
    n
}

impl GameState {
    /// A new game with one player per name, stamped with the current time.
    pub fn new(player_names: Vec<String>) -> (g: GameState)
        ensures
            g.players@.len() == player_names@.len(),
            forall|k: int|
                0 <= k < player_names@.len() ==> fresh_player(
                    player_id_text(k),
                    player_names@[k]@,
                    #[trigger] g.players@[k],
                ),
            exists|t: i64| g.game_id@ == "game_"@ + int_text(t as int),
            g.current_round is None,
            g.round_number == 0,
            g.round_history@.len() == 0,
            !g.is_finished,
            !g.video_mode_active,
            g.video_device_id is None,
            g.writing_enabled,
    {
        let timestamp = utc_now_timestamp();
        let created_at = utc_now_rfc3339();
        GameState::with_clock(player_names, timestamp, created_at)
    }

    /// A new game with one player per name, created at the given time.
    pub fn with_clock(player_names: Vec<String>, timestamp: i64, created_at: String) -> (g: GameState)
        ensures
            g.players@.len() == player_names@.len(),
            forall|k: int|
                0 <= k < player_names@.len() ==> fresh_player(
                    player_id_text(k),
                    player_names@[k]@,
                    #[trigger] g.players@[k],
                ),
            g.game_id@ == "game_"@ + int_text(timestamp as int),
            g.created_at == created_at,
            g.current_round is None,
            g.round_number == 0,
            g.round_history@.len() == 0,
            !g.is_finished,
            !g.video_mode_active,
            g.video_device_id is None,
            g.writing_enabled,
    {
        let mut players: Vec<Player> = Vec::new();
        let mut i: usize = 0;
        while i < player_names.len()
            invariant
                i <= player_names@.len(),
                players@.len() == i,
                forall|k: int|
                    0 <= k < i ==> fresh_player(
                        player_id_text(k),
                        player_names@[k]@,
                        #[trigger] players@[k],
                    ),
            decreases player_names@.len() - i,
        {
            let id = numbered("player_", i as i128);
            let name = player_names[i].clone();
            players.push(Player::new(id, name));
            i = i + 1;
        }
        GameState {
            game_id: numbered("game_", timestamp as i128),
            players,
            current_round: None,
            round_number: 0,
            round_history: Vec::new(),
            created_at,
            is_finished: false,
            video_mode_active: false,
            video_device_id: None,
            writing_enabled: true,
        }
    }

    /// Counts a new round and installs it; every player's per-round state is
    /// cleared, and players without a positive balance are deactivated.
    pub fn start_new_round(&mut self, round: Round)
        requires
            old(self).round_number < i32::MAX,
        ensures
            final(self).round_number == old(self).round_number + 1,
            final(self).current_round == Some(round),
            final(self).players@.len() == old(self).players@.len(),
            forall|k: int|
                0 <= k < old(self).players@.len() ==> rejoined(
                    #[trigger] old(self).players@[k],
                    final(self).players@[k],
                ),
            *final(self) == (GameState {
                round_number: final(self).round_number,
                current_round: final(self).current_round,
                players: final(self).players,
                ..*old(self)
            }),
    {
        self.round_number = self.round_number + 1;
        let mut i: usize = 0;
        while i < self.players.len()
            invariant
                i <= self.players@.len() == old(self).players@.len(),
                self.round_number == old(self).round_number + 1,
                *self == (GameState {
                    round_number: self.round_number,
                    players: self.players,
                    ..*old(self)
                }),
                forall|k: int| 0 <= k < i ==> rejoined(#[trigger] old(self).players@[k], self.players@[k]),
                forall|k: int| i <= k < self.players@.len() ==> #[trigger] self.players@[k] == old(self).players@[k],
            decreases self.players@.len() - i,
        {
            if self.players[i].balance <= 0 {
                self.players[i].is_active = false;
            }
            self.players[i].reset_for_round();
            i = i + 1;
        }
        self.current_round = Some(round);
    }

    /// Pays the pot to the winner, records the outcome and closes the round.
    /// Then players without a positive balance are deactivated; after the
    /// fourth round the field is narrowed; the game ends after the seventh
    /// round or when at most one player has a positive balance. A winner id
    /// that no player carries is refused and changes nothing.
    pub fn complete_round(&mut self, result: RoundResult) -> (r: Result<(), GameError>)
        requires
            player_slot(old(self).players@, result.winner_id@) matches Some(w)
                ==> i32::MIN <= old(self).players@[w].balance + result.pot_amount <= i32::MAX,
        ensures
            player_slot(old(self).players@, result.winner_id@) is None ==> r == Err::<(), GameError>(
                GameError::PlayerNotFound,
            ) && *final(self) == *old(self),
            player_slot(old(self).players@, result.winner_id@) matches Some(w) ==> r is Ok && completed(
                *old(self),
                w,
                result,
                *final(self),
            ),
    {
        let w = match find_player(&self.players, &result.winner_id) {
            Some(w) => w,
            None => {
                return Err(GameError::PlayerNotFound);
            },
        };
        let pot = result.pot_amount;
        self.players[w].win_pot(pot);
        self.round_history.push(result);
        self.current_round = None;
        let ghost won = self.players@;
        let mut i: usize = 0;
        while i < self.players.len()
            invariant
                i <= self.players@.len() == old(self).players@.len(),
                w < old(self).players@.len(),
                won.len() == old(self).players@.len(),
                forall|k: int|
                    0 <= k < won.len() ==> #[trigger] won[k] == if k == w {
                        Player { balance: (old(self).players@[k].balance + pot) as i32, ..old(self).players@[k] }
                    } else {
                        old(self).players@[k]
                    },
                forall|k: int|
                    0 <= k < i ==> #[trigger] self.players@[k] == settled(old(self).players@, w as int, pot)[k],
                forall|k: int| i <= k < self.players@.len() ==> #[trigger] self.players@[k] == won[k],
                *self == (GameState { players: self.players, round_history: self.round_history, current_round: None, ..*old(self) }),
                self.round_history@ == old(self).round_history@.push(result),
            decreases self.players@.len() - i,
        {
            if self.players[i].balance <= 0 && self.players[i].is_active {
                self.players[i].is_active = false;
            }
            i = i + 1;
        }
        assert(self.players@ =~= settled(old(self).players@, w as int, pot));
        if self.round_number == NARROWING_ROUND {
            narrow_field(&mut self.players);
        }
        let survivors = count_survivors(&self.players);
        if self.round_number >= LAST_ROUND || survivors <= 1 {
            self.is_finished = true;
        }
        Ok(())
    }

    /// The players with their balances, richest first; equal balances keep
    /// roster order.
    pub fn get_leaderboard(&self) -> (r: Vec<(&Player, i32)>)
        ensures
            r@.len() == self.players@.len(),
            forall|t: int|
                0 <= t < r@.len() ==> {
                    let k = descending_order(balances(self.players@))[t] as int;
                    &&& *(#[trigger] r@[t]).0 == self.players@[k]
                    &&& r@[t].1 == self.players@[k].balance
                },
    {
        let mut keys: Vec<i32> = Vec::new();
        let mut i: usize = 0;
        while i < self.players.len()
            invariant
                i <= self.players@.len(),
                keys@ =~= balances(self.players@.subrange(0, i as int)),
            decreases self.players@.len() - i,
        {
            keys.push(self.players[i].balance);
            i = i + 1;
        }
        assert(self.players@.subrange(0, i as int) =~= self.players@);
        let order = descending_positions(&keys);
        proof {
            lemma_descending_order_bounded(keys@);
        }
        let mut board: Vec<(&Player, i32)> = Vec::new();
        let mut t: usize = 0;
        while t < order.len()
            invariant
                t <= order@.len() == keys@.len() == self.players@.len(),
                keys@ == balances(self.players@),
                order@ == descending_order(keys@),
                forall|k: int| 0 <= k < order@.len() ==> #[trigger] order@[k] < keys@.len(),
                board@.len() == t,
                forall|s: int|
                    0 <= s < t ==> {
                        &&& *(#[trigger] board@[s]).0 == self.players@[order@[s] as int]
                        &&& board@[s].1 == self.players@[order@[s] as int].balance
                    },
            decreases order@.len() - t,
        {
            let k = order[t];
            board.push((&self.players[k], self.players[k].balance));
            t = t + 1;
        }
        board
    }
}

} // verus!
