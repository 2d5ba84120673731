use vstd::prelude::*;

use crate::clock::utc_now_rfc3339;
use crate::error::GameError;

verus! {

/// Balance every player starts a game with.
pub const STARTING_BALANCE: i32 = 750;

/// A submitted answer to one question of the round.
#[derive(Debug, Clone)]
pub struct Answer {
    pub question_number: i32,
    /// Base64-encoded drawing of the answer.
    pub image_data: String,
    /// `None` until the quizmaster has judged the answer.
    pub is_correct: Option<bool>,
    pub timestamp: String,
}

/// One contestant.
#[derive(Debug, Clone)]
pub struct Player {
    pub id: String,
    pub name: String,
    pub balance: i32,
    /// Amount wagered and not yet moved to the pot.
    pub current_bet: i32,
    /// One answer per question number, as the operations that add answers
    /// keep it.
    pub answers: Vec<Answer>,
    /// Still in the game (cleared by folding, elimination or the operator).
    pub is_active: bool,
    /// Out of the current round's winner determination.
    pub has_folded: bool,
}

/// A freshly created player with the given identity.
pub open spec fn fresh_player(id: Seq<char>, name: Seq<char>, p: Player) -> bool {
    &&& p.id@ == id
    &&& p.name@ == name
    &&& p.balance == STARTING_BALANCE
    &&& p.current_bet == 0
    &&& p.answers@.len() == 0
    &&& p.is_active
    &&& !p.has_folded
}

/// The machine limits that a bet of `amount` must respect when it succeeds.
pub open spec fn bet_fits(p: Player, amount: i32) -> bool {
    amount <= p.balance ==> {
        &&& p.balance - amount <= i32::MAX
        &&& i32::MIN <= p.current_bet + amount <= i32::MAX
    }
}

/// The player after moving `amount` from the balance to the current bet.
pub open spec fn after_bet(p: Player, amount: i32) -> Player {
    Player { balance: (p.balance - amount) as i32, current_bet: (p.current_bet + amount) as i32, ..p }
}

/// `i` is the first position of `s` that holds an answer to question `q`.
pub open spec fn first_with(s: Seq<Answer>, q: i32, i: int) -> bool {
    &&& 0 <= i < s.len()
    &&& s[i].question_number == q
    &&& forall|j: int| 0 <= j < i ==> s[j].question_number != q
}

/// Where the answer to question `q` is held, if there is one.
pub open spec fn answer_slot(s: Seq<Answer>, q: i32) -> Option<int> {
    if exists|i: int| first_with(s, q, i) {
        Some(choose|i: int| first_with(s, q, i))
    } else {
        None
    }
}

/// The answers after submitting `image` for question `q` at time `ts`: an
/// existing answer gets the new payload and time and keeps its judgment; a new
/// one starts unjudged at the end.
pub open spec fn submitted(s: Seq<Answer>, q: i32, image: String, ts: String) -> Seq<Answer> {
    match answer_slot(s, q) {
        Some(i) => s.update(i, Answer { image_data: image, timestamp: ts, ..s[i] }),
        None => s.push(Answer { question_number: q, image_data: image, is_correct: None, timestamp: ts }),
    }
}

/// The answers after judging the answer to question `q`; unchanged when there
/// is none.
pub open spec fn approved(s: Seq<Answer>, q: i32, is_correct: bool) -> Seq<Answer> {
    match answer_slot(s, q) {
        Some(i) => s.update(i, Answer { is_correct: Some(is_correct), ..s[i] }),
        None => s,
    }
}

/// Number of answers judged correct.
pub open spec fn correct_count(s: Seq<Answer>) -> nat
    decreases s.len(),
{
    if s.len() == 0 {
        0
    } else {
        correct_count(s.drop_last()) + if s.last().is_correct == Some(true) { 1nat } else { 0nat }
    }
}

/// The answers without those to question `q`.
pub open spec fn without_question(s: Seq<Answer>, q: i32) -> Seq<Answer>
    decreases s.len(),
{
    if s.len() == 0 {
        Seq::empty()
    } else {
        let r = without_question(s.drop_last(), q);
        if s.last().question_number != q {
            r.push(s.last())
        } else {
            r
        }
    }
}

/// `b` is `a` with, at most, other answers.
pub open spec fn same_but_answers(a: Player, b: Player) -> bool {
    b == Player { answers: b.answers, ..a }
}

pub proof fn lemma_first_with_unique(s: Seq<Answer>, q: i32, i: int, j: int)
    requires
        first_with(s, q, i),
        first_with(s, q, j),
    ensures
        i == j,
{
    if i < j {
        assert(s[i].question_number != q);
    } else if j < i {
        assert(s[j].question_number != q);
    }
}

pub proof fn lemma_correct_count_le(s: Seq<Answer>)
    ensures
        correct_count(s) <= s.len(),
    decreases s.len(),
{
    if s.len() > 0 {
        lemma_correct_count_le(s.drop_last());
    }
}

/// Position of the answer to question `q`, if there is one.
fn answer_position(answers: &Vec<Answer>, q: i32) -> (r: Option<usize>)
    ensures
        r matches Some(i) ==> answer_slot(answers@, q) == Some(i as int),
        r is None ==> answer_slot(answers@, q) is None,
{
    let mut i: usize = 0;
    while i < answers.len()
        invariant
            i <= answers@.len(),
            forall|j: int| 0 <= j < i ==> answers@[j].question_number != q,
        decreases answers@.len() - i,
    {
        if answers[i].question_number == q {
            proof {
                assert(first_with(answers@, q, i as int));
                let k = choose|k: int| first_with(answers@, q, k);
                lemma_first_with_unique(answers@, q, i as int, k);
            }
            return Some(i);
        }
        i = i + 1;
    }
    None
}

impl Player {
    pub fn new(id: String, name: String) -> (p: Player)
        ensures
            fresh_player(id@, name@, p),
            p.id == id,
            p.name == name,
    {
        Player {
            id,
            name,
            balance: STARTING_BALANCE,
            current_bet: 0,
            answers: Vec::new(),
            is_active: true,
            has_folded: false,
        }
    }

    /// Moves `amount` from the balance into the current bet; refuses a bet
    /// larger than the balance and then changes nothing.
    pub fn place_bet(&mut self, amount: i32) -> (r: Result<(), GameError>)
        requires
            bet_fits(*old(self), amount),
        ensures
            amount > old(self).balance ==> r == Err::<(), GameError>(GameError::InsufficientFunds)
                && *final(self) == *old(self),
            amount <= old(self).balance ==> r is Ok && *final(self) == after_bet(*old(self), amount),
            r is Ok ==> final(self).balance >= 0,
    {
        if amount > self.balance {
            return Err(GameError::InsufficientFunds);
        }
        self.balance = self.balance - amount;
        self.current_bet = self.current_bet + amount;
        Ok(())
    }

    /// Leaves the round and, with it, the game until reactivated.
    pub fn fold(&mut self)
        ensures
            *final(self) == (Player { has_folded: true, is_active: false, ..*old(self) }),
    {
        self.has_folded = true;
        self.is_active = false;
    }

    /// Credits the balance with the won pot.
    pub fn win_pot(&mut self, pot_amount: i32)
        requires
            i32::MIN <= old(self).balance + pot_amount <= i32::MAX,
        ensures
            *final(self) == (Player { balance: (old(self).balance + pot_amount) as i32, ..*old(self) }),
    {
        self.balance = self.balance + pot_amount;
    }

    /// Records an answer to `question_number` stamped with the current time.
    pub fn add_answer(&mut self, question_number: i32, image_data: String)
        ensures
            same_but_answers(*old(self), *final(self)),
            exists|ts: String| final(self).answers@ == submitted(old(self).answers@, question_number, image_data, ts),
    {
        let timestamp = utc_now_rfc3339();
        self.add_answer_at(question_number, image_data, timestamp);
    }

    /// Records an answer to `question_number` stamped with `timestamp`.
    pub fn add_answer_at(&mut self, question_number: i32, image_data: String, timestamp: String)
        ensures
            same_but_answers(*old(self), *final(self)),
            final(self).answers@ == submitted(old(self).answers@, question_number, image_data, timestamp),
    {
        match answer_position(&self.answers, question_number) {
            Some(i) => {
                self.answers[i].image_data = image_data;
                self.answers[i].timestamp = timestamp;
            },
            None => {
                self.answers.push(Answer { question_number, image_data, is_correct: None, timestamp });
            },
        }
    }

    /// Drops every answer to `question_number` and appends a fresh, unjudged
    /// one stamped with `timestamp`.
    pub fn replace_answer(&mut self, question_number: i32, image_data: String, timestamp: String)
        ensures
            same_but_answers(*old(self), *final(self)),
            final(self).answers@ == without_question(old(self).answers@, question_number).push(
                Answer { question_number, image_data, is_correct: None, timestamp },
            ),
    {
        let ghost start = self.answers@;
        let mut i: usize = 0;
        let ghost mut k: int = 0;
        while i < self.answers.len()
            invariant
                0 <= i <= k <= start.len(),
                self.answers@.len() == i + (start.len() - k),
                self.answers@.subrange(0, i as int) == without_question(start.subrange(0, k), question_number),
                self.answers@.subrange(i as int, self.answers@.len() as int) == start.subrange(k, start.len() as int),
                same_but_answers(*old(self), *self),
                start == old(self).answers@,
            decreases self.answers@.len() - i,
        {
            proof {
                let next = start.subrange(0, k + 1);
                assert(next.drop_last() =~= start.subrange(0, k));
                assert(self.answers@[i as int] == self.answers@.subrange(i as int, self.answers@.len() as int)[0]);
            }
            if self.answers[i].question_number == question_number {
                let ghost before = self.answers@;
                self.answers.remove(i);
                proof {
                    assert(self.answers@.subrange(0, i as int) =~= before.subrange(0, i as int));
                    assert(self.answers@.subrange(i as int, self.answers@.len() as int) =~= before.subrange(
                        i as int + 1,
                        before.len() as int,
                    ));
                    assert(start.subrange(k + 1, start.len() as int) =~= start.subrange(k, start.len() as int).drop_first());
                    assert(before.subrange(i as int + 1, before.len() as int) =~= before.subrange(i as int, before.len() as int).drop_first());
                    k = k + 1;
                }
            } else {
                let ghost before = self.answers@;
                i = i + 1;
                proof {
                    assert(self.answers@.subrange(0, i as int) =~= before.subrange(0, i as int - 1).push(before[i as int - 1]));
                    assert(start.subrange(k + 1, start.len() as int) =~= start.subrange(k, start.len() as int).drop_first());
                    assert(self.answers@.subrange(i as int, self.answers@.len() as int) =~= before.subrange(i as int - 1, before.len() as int).drop_first());
                    k = k + 1;
                }
            }
        }
        proof {
            assert(start.subrange(0, k) =~= start);
            assert(self.answers@.subrange(0, i as int) =~= self.answers@);
        }
        self.answers.push(Answer { question_number, image_data, is_correct: None, timestamp });
    }

    pub fn clear_answers(&mut self)
        ensures
            same_but_answers(*old(self), *final(self)),
            final(self).answers@.len() == 0,
    {
        self.answers.clear();
    }

    /// Judges the answer to `question_number`; no effect when there is none.
    pub fn approve_answer(&mut self, question_number: i32, is_correct: bool)
        ensures
            same_but_answers(*old(self), *final(self)),
            final(self).answers@ == approved(old(self).answers@, question_number, is_correct),
    {
        if let Some(i) = answer_position(&self.answers, question_number) {
            self.answers[i].is_correct = Some(is_correct);
        }
    }

    pub fn count_correct_answers(&self) -> (r: i32)
        requires
            self.answers@.len() <= i32::MAX,
        ensures
            r == correct_count(self.answers@),
    {
        let mut n: i32 = 0;
        let mut i: usize = 0;
        while i < self.answers.len()
            invariant
                i <= self.answers@.len() <= i32::MAX,
                n == correct_count(self.answers@.subrange(0, i as int)),
            decreases self.answers@.len() - i,
        {
            proof {
                let s = self.answers@.subrange(0, i as int + 1);
                assert(s.drop_last() =~= self.answers@.subrange(0, i as int));
                lemma_correct_count_le(self.answers@.subrange(0, i as int));
            }
            if self.answers[i].is_correct == Some(true) {
                n = n + 1;
            }
            i = i + 1;
        }
        assert(self.answers@.subrange(0, i as int) =~= self.answers@);
        n
    }

    /// Clears the per-round state; whether the player is active is kept.
    pub fn reset_for_round(&mut self)
        ensures
            final(self).answers@.len() == 0,
            *final(self) == (Player { current_bet: 0, has_folded: false, answers: final(self).answers, ..*old(self) }),
    {
        self.current_bet = 0;
        self.answers.clear();
        self.has_folded = false;
    }

    pub fn is_eliminated(&self) -> (r: bool)
        ensures
            r == (self.balance <= 0),
    {
        self.balance <= 0
    }
}

} // verus!
