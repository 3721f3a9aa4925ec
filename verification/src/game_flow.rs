//! Game flow: who plays when, how a finished round is scored, and when the
//! game is over.
//!
//! All mutable game state lives in one [`GameSession`] value.  Its methods
//! are the phase transitions: the surrounding application owns pacing and
//! input and calls them in the order the [`crate::state::TurnState`]
//! machine dictates.

use vstd::prelude::*;

use crate::deck::{Deck, cards_max_score, lemma_max_value_sum_bounds, max_value_sum, spec_min};
use crate::state::TurnState;
use crate::war::{BattleOutcome, Card, WordOfPower};

verus! {

/// Most cards a session will ever hold across decks, hands, sleeve and
/// piles; keeps every score below `i32` limits.
pub const MAX_CARDS: usize = 1000000;

/// One of the two sides of the duel.
#[derive(Clone, Copy, Debug, PartialEq, Eq, Structural)]
pub enum Participant {
    Player,
    Oppo,
}

impl Participant {
    /// Display name of the side.
    pub fn name(&self) -> (r: &'static str)
        ensures
            *self is Player ==> r@ == "Player"@,
            *self is Oppo ==> r@ == "Oppo"@,
    {
        match self {
            Participant::Player => "Player",
            Participant::Oppo => "Oppo",
        }
    }

    /// The other side.
    pub open spec fn spec_other(self) -> Participant {
        match self {
            Participant::Player => Participant::Oppo,
            Participant::Oppo => Participant::Player,
        }
    }
}

/// What triggered the game over.
#[derive(Clone, Copy, Debug, PartialEq, Eq, Structural)]
pub enum EndReason {
    Victory,
    Loss,
    CaughtCheating,
}

/// Event that ends the game, carrying its reason.
#[derive(Clone, Copy, Debug, PartialEq, Eq, Structural)]
pub struct GameOver(pub EndReason);

/// Who plays a card first in the current round.
#[derive(Clone, Copy, Debug, PartialEq, Eq, Structural)]
pub struct Initiative(pub Participant);

impl Initiative {
    /// Hand the initiative to the other side.
    pub fn swap(&mut self)
        ensures
            final(self).0 == old(self).0.spec_other(),
    {
        match self.0 {
            Participant::Oppo => self.0 = Participant::Player,
            Participant::Player => self.0 = Participant::Oppo,
        }
    }
}

/// How often the initiative changes hands: at every new turn, or only at
/// every other one, so that the same side opens twice in a row.
#[derive(Clone, Copy, Debug, PartialEq, Eq, Structural)]
pub enum InitiativePolicy {
    EveryTurn,
    EveryOtherTurn,
}

/// Extra points earned from card words; regular points are the cards in
/// each side's pile.
#[derive(Clone, Copy, Debug, PartialEq, Eq, Structural)]
pub struct ScoreBonuses {
    pub player: i32,
    pub oppo: i32,
}

/// How many seeds the player holds.
#[derive(Clone, Copy, Debug, PartialEq, Eq, Structural)]
pub struct SeedCount(pub usize);

impl SeedCount {
    /// The number of seeds at hand.
    pub fn count(&self) -> (r: usize)
        ensures
            r == self.0,
    {
        self.0
    }

    /// Spend one seed; true exactly when one was there to spend.
    pub fn consume(&mut self) -> (r: bool)
        ensures
            r == (old(self).0 != 0),
            old(self).0 != 0 ==> final(self).0 == old(self).0 - 1,
            old(self).0 == 0 ==> final(self).0 == 0,
    {
        if self.0 != 0 {
            self.0 = self.0 - 1;
            true
        } else {
            false
        }
    }
}

/// Sum of face values over a sequence of cards.
pub open spec fn value_sum(cards: Seq<Card>) -> int
    decreases cards.len(),
{
    if cards.len() == 0 {
        0
    } else {
        value_sum(cards.drop_last()) + cards.last().value.as_int()
    }
}

/// Face values lie between 0 and 9, so the sum over a sequence is bounded
/// by 9 times its length.
pub proof fn lemma_value_sum_bounds(cards: Seq<Card>)
    ensures
        0 <= value_sum(cards) <= 9 * cards.len(),
    decreases cards.len(),
{
    if cards.len() > 0 {
        lemma_value_sum_bounds(cards.drop_last());
    }
}

/// The sum of face values over a set of cards.
pub fn pile_score(cards: &Vec<Card>) -> (r: i32)
    requires
        value_sum(cards@) <= i32::MAX,
    ensures
        r == value_sum(cards@),
{
    let mut total: i32 = 0;
    let mut i: usize = 0;
    while i < cards.len()
        invariant
            i <= cards@.len(),
            total == value_sum(cards@.take(i as int)),
            value_sum(cards@) <= i32::MAX,
        decreases cards@.len() - i,
    {
        proof {
            assert(cards@.take(i as int + 1).drop_last() =~= cards@.take(i as int));
            lemma_value_sum_bounds(cards@.take(i as int + 1));
            lemma_value_sum_split(cards@, i as int + 1);
            lemma_value_sum_bounds(cards@.skip(i as int + 1));
        }
        let value = cards[i].value_i32();
        total = total + value;
        i = i + 1;
    }
    proof {
        assert(cards@.take(cards@.len() as int) =~= cards@);
    }
    total
}

/// Splitting a sequence anywhere splits its value sum.
pub proof fn lemma_value_sum_split(cards: Seq<Card>, at: int)
    requires
        0 <= at <= cards.len(),
    ensures
        value_sum(cards) == value_sum(cards.take(at)) + value_sum(cards.skip(at)),
    decreases cards.len() - at,
{
    if at == cards.len() {
        assert(cards.take(at) =~= cards);
        assert(value_sum(cards.skip(at)) == 0);
    } else {
        lemma_value_sum_split(cards, at + 1);
        assert(cards.take(at + 1).drop_last() =~= cards.take(at));
        assert(cards.skip(at).drop_first() =~= cards.skip(at + 1));
        lemma_value_sum_first(cards.skip(at));
    }
}

/// Peeling the first card off a non-empty sequence peels its value off the
/// sum.
pub proof fn lemma_value_sum_first(cards: Seq<Card>)
    requires
        cards.len() > 0,
    ensures
        value_sum(cards) == cards.first().value.as_int() + value_sum(cards.drop_first()),
    decreases cards.len(),
{
    if cards.len() == 1 {
        assert(cards.drop_first() =~= Seq::<Card>::empty());
        assert(cards.drop_last() =~= Seq::<Card>::empty());
    } else {
        lemma_value_sum_first(cards.drop_last());
        assert(cards.drop_last().drop_first() =~= cards.drop_first().drop_last());
        assert(cards.drop_last().first() == cards.first());
        assert(cards.drop_first().last() == cards.last());
    }
}

/// Abstract state of a whole game session: every card location, the
/// ledgers, and the turn machinery, as mathematical values.
#[verifier::ext_equal]
pub struct SessionView {
    pub player_deck: Seq<Card>,
    pub oppo_deck: Seq<Card>,
    pub player_hand: Seq<Card>,
    pub oppo_hand: Seq<Card>,
    pub sleeve: Seq<Card>,
    pub war_pile: Seq<(Participant, Card)>,
    pub player_pile: Seq<Card>,
    pub oppo_pile: Seq<Card>,
    pub bonus_player: int,
    pub bonus_oppo: int,
    pub seed_count: nat,
    pub turn_count: nat,
    pub initiative: Participant,
    pub policy: InitiativePolicy,
    pub turn_state: TurnState,
    pub game_over: Option<EndReason>,
}

impl SessionView {
    /// Cards played so far this game: still on the table or already in a
    /// participant's pile.
    pub open spec fn plays(self) -> int {
        self.war_pile.len() + self.player_pile.len() + self.oppo_pile.len() as int
    }

    /// Every card of the session, wherever it lies.
    pub open spec fn total_cards(self) -> int {
        self.player_deck.len() + self.oppo_deck.len() + self.player_hand.len()
            + self.oppo_hand.len() + self.sleeve.len() + self.plays()
    }

    /// Well-formedness every transition preserves: the war pile holds at
    /// most one card per side, the sleeve at most three cards, the bonus
    /// ledgers stay within what resolved rounds can have paid, and all
    /// counters stay small enough for machine arithmetic.
    pub open spec fn wf(self) -> bool {
        &&& self.war_pile.len() <= 2
        &&& self.war_pile.len() == 2 ==> self.war_pile[0].0 != self.war_pile[1].0
        &&& self.sleeve.len() <= 3
        &&& 0 <= self.bonus_player <= 90 * self.player_pile.len()
        &&& 0 <= self.bonus_oppo <= 90 * self.oppo_pile.len()
        &&& self.total_cards() <= MAX_CARDS
        &&& self.turn_count <= self.plays()
        &&& (self.turn_state is CardPlayed || self.turn_state is New) ==> self.turn_count
            < self.plays()
        &&& self.seed_count <= self.plays()
    }

    /// A side's score: face values resolved into its pile plus its bonus
    /// ledger.
    pub open spec fn spec_player_score(self) -> int {
        value_sum(self.player_pile) + self.bonus_player
    }

    /// See [`Self::spec_player_score`].
    pub open spec fn spec_oppo_score(self) -> int {
        value_sum(self.oppo_pile) + self.bonus_oppo
    }

    /// Optimistic bound on every point either side could still win: both
    /// decks, both hands and the sleeve, each card at its best value.
    pub open spec fn spec_remaining_score(self) -> int {
        max_value_sum(self.player_deck) + max_value_sum(self.oppo_deck) + max_value_sum(
            self.player_hand,
        ) + max_value_sum(self.oppo_hand) + max_value_sum(self.sleeve)
    }
}

/// What is left of a deck after drawing `n` cards from its tail.
pub open spec fn deck_after_draw(deck: Seq<Card>, n: int) -> Seq<Card> {
    deck.take(deck.len() - spec_min(n, deck.len() as int))
}

/// The cards handed out when drawing `n` cards from a deck's tail.
pub open spec fn drawn_cards(deck: Seq<Card>, n: int) -> Seq<Card> {
    deck.skip(deck.len() - spec_min(n, deck.len() as int))
}

/// The card the player has on the table, given a full war pile.
pub open spec fn player_war_card(war: Seq<(Participant, Card)>) -> Card
    recommends
        war.len() == 2,
{
    if war[0].0 is Player {
        war[0].1
    } else {
        war[1].1
    }
}

/// The card the opposition has on the table, given a full war pile.
pub open spec fn oppo_war_card(war: Seq<(Participant, Card)>) -> Card
    recommends
        war.len() == 2,
{
    if war[0].0 is Player {
        war[1].1
    } else {
        war[0].1
    }
}

/// The turn state in which `who` plays a card.
pub open spec fn turn_for(who: Participant) -> TurnState {
    match who {
        Participant::Player => TurnState::Player,
        Participant::Oppo => TurnState::Oppo,
    }
}

/// Whether the initiative changes hands on the turn numbered `turn_count`.
pub open spec fn swaps_initiative(policy: InitiativePolicy, turn_count: nat) -> bool {
    match policy {
        InitiativePolicy::EveryTurn => true,
        InitiativePolicy::EveryOtherTurn => turn_count % 2 == 1,
    }
}

/// All mutable state of one game, owned in a single value.  The methods
/// below are the phase transitions of the turn state machine; the
/// application calls them on its tick and routes the returned game-over
/// events.
pub struct GameSession {
    pub player_deck: Deck,
    pub oppo_deck: Deck,
    pub player_hand: Vec<Card>,
    pub oppo_hand: Vec<Card>,
    pub sleeve: Vec<Card>,
    pub war_pile: Vec<(Participant, Card)>,
    pub player_pile: Vec<Card>,
    pub oppo_pile: Vec<Card>,
    pub score_bonuses: ScoreBonuses,
    pub seed_count: SeedCount,
    pub turn_count: usize,
    pub initiative: Initiative,
    pub policy: InitiativePolicy,
    pub turn_state: TurnState,
    pub game_over: Option<EndReason>,
}

impl View for GameSession {
    type V = SessionView;

    open spec fn view(&self) -> SessionView {
        SessionView {
            player_deck: self.player_deck@,
            oppo_deck: self.oppo_deck@,
            player_hand: self.player_hand@,
            oppo_hand: self.oppo_hand@,
            sleeve: self.sleeve@,
            war_pile: self.war_pile@,
            player_pile: self.player_pile@,
            oppo_pile: self.oppo_pile@,
            bonus_player: self.score_bonuses.player as int,
            bonus_oppo: self.score_bonuses.oppo as int,
            seed_count: self.seed_count.0 as nat,
            turn_count: self.turn_count as nat,
            initiative: self.initiative.0,
            policy: self.policy,
            turn_state: self.turn_state,
            game_over: self.game_over,
        }
    }
}

impl GameSession {
    /// A fresh session on the two given decks: empty table, zeroed
    /// ledgers, the player holding the initiative, the game not started.
    pub fn new_game(player_deck: Deck, oppo_deck: Deck, policy: InitiativePolicy) -> (s:
        GameSession)
        requires
            player_deck@.len() + oppo_deck@.len() <= MAX_CARDS,
        ensures
            s@.wf(),
            s@ == (SessionView {
                player_deck: player_deck@,
                oppo_deck: oppo_deck@,
                player_hand: Seq::empty(),
                oppo_hand: Seq::empty(),
                sleeve: Seq::empty(),
                war_pile: Seq::empty(),
                player_pile: Seq::empty(),
                oppo_pile: Seq::empty(),
                bonus_player: 0,
                bonus_oppo: 0,
                seed_count: 0,
                turn_count: 0,
                initiative: Participant::Player,
                policy,
                turn_state: TurnState::Starting,
                game_over: None,
            }),
    {
        let s = GameSession {
            player_deck,
            oppo_deck,
            player_hand: Vec::new(),
            oppo_hand: Vec::new(),
            sleeve: Vec::new(),
            war_pile: Vec::new(),
            player_pile: Vec::new(),
            oppo_pile: Vec::new(),
            score_bonuses: ScoreBonuses { player: 0, oppo: 0 },
            seed_count: SeedCount(0),
            turn_count: 0,
            initiative: Initiative(Participant::Player),
            policy,
            turn_state: TurnState::Starting,
            game_over: None,
        };
        proof {
            assert(s@ =~= (SessionView {
                player_deck: player_deck@,
                oppo_deck: oppo_deck@,
                player_hand: Seq::empty(),
                oppo_hand: Seq::empty(),
                sleeve: Seq::empty(),
                war_pile: Seq::empty(),
                player_pile: Seq::empty(),
                oppo_pile: Seq::empty(),
                bonus_player: 0,
                bonus_oppo: 0,
                seed_count: 0,
                turn_count: 0,
                initiative: Participant::Player,
                policy,
                turn_state: TurnState::Starting,
                game_over: None,
            }));
        }
        s
    }

    /// Enter the opening draw phase of a freshly started game.
    pub fn first_draw(&mut self)
        requires
            old(self)@.wf(),
            old(self)@.turn_state is Starting,
            old(self)@.game_over is None,
        ensures
            final(self)@.wf(),
            final(self)@ == (SessionView { turn_state: TurnState::Draw, ..old(self)@ }),
    {
        self.turn_state = TurnState::Draw;
        proof {
            assert(self@ =~= (SessionView { turn_state: TurnState::Draw, ..old(self)@ }));
        }
    }

    /// A side's current score.
    pub fn player_score(&self) -> (r: i32)
        requires
            self@.wf(),
        ensures
            r == self@.spec_player_score(),
    {
        proof {
            lemma_value_sum_bounds(self@.player_pile);
        }
        let pile = pile_score(&self.player_pile);
        pile + self.score_bonuses.player
    }

    /// See [`Self::player_score`].
    pub fn oppo_score(&self) -> (r: i32)
        requires
            self@.wf(),
        ensures
            r == self@.spec_oppo_score(),
    {
        proof {
            lemma_value_sum_bounds(self@.oppo_pile);
        }
        let pile = pile_score(&self.oppo_pile);
        pile + self.score_bonuses.oppo
    }

    /// Optimistic bound on the points not yet settled, used by the early
    /// termination check.
    pub fn remaining_score(&self) -> (r: i32)
        requires
            self@.wf(),
        ensures
            r == self@.spec_remaining_score(),
    {
        proof {
            lemma_max_value_sum_bounds(self@.player_deck);
            lemma_max_value_sum_bounds(self@.oppo_deck);
            lemma_max_value_sum_bounds(self@.player_hand);
            lemma_max_value_sum_bounds(self@.oppo_hand);
            lemma_max_value_sum_bounds(self@.sleeve);
        }
        let decks = self.player_deck.score() + self.oppo_deck.score();
        let hands = cards_max_score(&self.player_hand) + cards_max_score(&self.oppo_hand);
        let sleeve = cards_max_score(&self.sleeve);
        decks + hands + sleeve
    }

    /// Spend one seed; true exactly when one was there to spend.
    pub fn use_seed(&mut self) -> (r: bool)
        requires
            old(self)@.wf(),
        ensures
            final(self)@.wf(),
            r == (old(self)@.seed_count != 0),
            final(self)@ == (SessionView {
                seed_count: if old(self)@.seed_count == 0 {
                    0
                } else {
                    (old(self)@.seed_count - 1) as nat
                },
                ..old(self)@
            }),
    {
        let r = self.seed_count.consume();
        proof {
            assert(self@ =~= (SessionView {
                seed_count: if old(self)@.seed_count == 0 {
                    0
                } else {
                    (old(self)@.seed_count - 1) as nat
                },
                ..old(self)@
            }));
        }
        r
    }

    /// Reset every per-game value, emptying the table and both decks; the
    /// initiative policy is configuration and stays.
    pub fn cleanup(&mut self)
        ensures
            final(self)@.wf(),
            final(self)@ == (SessionView {
                player_deck: Seq::empty(),
                oppo_deck: Seq::empty(),
                player_hand: Seq::empty(),
                oppo_hand: Seq::empty(),
                sleeve: Seq::empty(),
                war_pile: Seq::empty(),
                player_pile: Seq::empty(),
                oppo_pile: Seq::empty(),
                bonus_player: 0,
                bonus_oppo: 0,
                seed_count: 0,
                turn_count: 0,
                initiative: Participant::Player,
                policy: old(self)@.policy,
                turn_state: TurnState::Starting,
                game_over: None,
            }),
    {
        self.player_deck = Deck::new(Vec::new());
        self.oppo_deck = Deck::new(Vec::new());
        self.player_hand = Vec::new();
        self.oppo_hand = Vec::new();
        self.sleeve = Vec::new();
        self.war_pile = Vec::new();
        self.player_pile = Vec::new();
        self.oppo_pile = Vec::new();
        self.score_bonuses = ScoreBonuses { player: 0, oppo: 0 };
        self.seed_count = SeedCount(0);
        self.turn_count = 0;
        self.initiative = Initiative(Participant::Player);
        self.turn_state = TurnState::Starting;
        self.game_over = None;
        proof {
            assert(Seq::<Card>::empty().reverse() =~= Seq::<Card>::empty());
            assert(self@ =~= (SessionView {
                player_deck: Seq::empty(),
                oppo_deck: Seq::empty(),
                player_hand: Seq::empty(),
                oppo_hand: Seq::empty(),
                sleeve: Seq::empty(),
                war_pile: Seq::empty(),
                player_pile: Seq::empty(),
                oppo_pile: Seq::empty(),
                bonus_player: 0,
                bonus_oppo: 0,
                seed_count: 0,
                turn_count: 0,
                initiative: Participant::Player,
                policy: old(self)@.policy,
                turn_state: TurnState::Starting,
                game_over: None,
            }));
        }
    }

    /// Refill both hands while holding in the draw state: the opposition
    /// draws up to three cards, the player draws up to a full hand counting
    /// the sleeve, and the sleeved cards return to the hand.
    pub fn draw_phase(&mut self)
        requires
            old(self)@.wf(),
            old(self)@.turn_state is Draw,
            old(self)@.game_over is None,
        ensures
            final(self)@.wf(),
            final(self)@ == (SessionView {
                oppo_deck: deck_after_draw(old(self)@.oppo_deck, 3),
                oppo_hand: old(self)@.oppo_hand + drawn_cards(old(self)@.oppo_deck, 3),
                player_deck: deck_after_draw(
                    old(self)@.player_deck,
                    3 - old(self)@.sleeve.len(),
                ),
                player_hand: old(self)@.player_hand + drawn_cards(
                    old(self)@.player_deck,
                    3 - old(self)@.sleeve.len(),
                ) + old(self)@.sleeve,
                sleeve: Seq::empty(),
                ..old(self)@
            }),
    {
        let mut drawn_oppo = self.oppo_deck.draw(3);
        self.oppo_hand.append(&mut drawn_oppo);
        let count = 3 - self.sleeve.len();
        let mut drawn_player = self.player_deck.draw(count);
        self.player_hand.append(&mut drawn_player);
        self.player_hand.append(&mut self.sleeve);
        proof {
            assert(self@ =~= (SessionView {
                oppo_deck: deck_after_draw(old(self)@.oppo_deck, 3),
                oppo_hand: old(self)@.oppo_hand + drawn_cards(old(self)@.oppo_deck, 3),
                player_deck: deck_after_draw(
                    old(self)@.player_deck,
                    3 - old(self)@.sleeve.len(),
                ),
                player_hand: old(self)@.player_hand + drawn_cards(
                    old(self)@.player_deck,
                    3 - old(self)@.sleeve.len(),
                ) + old(self)@.sleeve,
                sleeve: Seq::empty(),
                ..old(self)@
            }));
        }
    }

    /// Leave the draw state for the opening side's turn once both hands
    /// are full; do nothing while cards are still missing.
    pub fn complete_draw(&mut self)
        requires
            old(self)@.wf(),
            old(self)@.turn_state is Draw,
            old(self)@.game_over is None,
        ensures
            final(self)@.wf(),
            old(self)@.player_hand.len() + old(self)@.oppo_hand.len() >= 6 ==> final(self)@
                == (SessionView { turn_state: turn_for(old(self)@.initiative), ..old(self)@ }),
            old(self)@.player_hand.len() + old(self)@.oppo_hand.len() < 6 ==> final(self)@ == old(
                self,
            )@,
    {
        proof {
            assert(old(self)@.player_hand.len() + old(self)@.oppo_hand.len() <= MAX_CARDS);
        }
        if self.player_hand.len() + self.oppo_hand.len() >= 6 {
            self.turn_state = match self.initiative.0 {
                Participant::Oppo => TurnState::Oppo,
                Participant::Player => TurnState::Player,
            };
            proof {
                assert(self@ =~= (SessionView {
                    turn_state: turn_for(old(self)@.initiative),
                    ..old(self)@
                }));
            }
        } else {
            proof {
                assert(self@ =~= old(self)@);
            }
        }
    }

    /// Play the card at `index` of `who`'s hand: it moves to the war pile,
    /// a seed is granted if it carries `Egeq`, and the turn enters the
    /// played pause.  The caller is trusted to submit only the current
    /// turn-holder's card, at most once per turn.
    pub fn play_card(&mut self, who: Participant, index: usize)
        requires
            old(self)@.wf(),
            old(self)@.game_over is None,
            old(self)@.turn_state == turn_for(who),
            who is Player ==> index < old(self)@.player_hand.len(),
            who is Oppo ==> index < old(self)@.oppo_hand.len(),
            old(self)@.war_pile.len() < 2,
            forall|k: int| 0 <= k < old(self)@.war_pile.len() ==> old(self)@.war_pile[k].0 != who,
        ensures
            final(self)@.wf(),
            ({
                let card = if who is Player {
                    old(self)@.player_hand[index as int]
                } else {
                    old(self)@.oppo_hand[index as int]
                };
                final(self)@ == (SessionView {
                    player_hand: if who is Player {
                        old(self)@.player_hand.remove(index as int)
                    } else {
                        old(self)@.player_hand
                    },
                    oppo_hand: if who is Oppo {
                        old(self)@.oppo_hand.remove(index as int)
                    } else {
                        old(self)@.oppo_hand
                    },
                    war_pile: old(self)@.war_pile.push((who, card)),
                    seed_count: old(self)@.seed_count + (if card.has_word(WordOfPower::Egeq) {
                        1nat
                    } else {
                        0nat
                    }),
                    turn_state: TurnState::CardPlayed,
                    ..old(self)@
                })
            }),
    {
        let card = match who {
            Participant::Player => self.player_hand.remove(index),
            Participant::Oppo => self.oppo_hand.remove(index),
        };
        if matches!(card.word, Some(WordOfPower::Egeq)) {
            self.seed_count.0 = self.seed_count.0 + 1;
        }
        self.war_pile.push((who, card));
        self.turn_state = TurnState::CardPlayed;
        proof {
            let card = if who is Player {
                old(self)@.player_hand[index as int]
            } else {
                old(self)@.oppo_hand[index as int]
            };
            assert(self@ =~= (SessionView {
                player_hand: if who is Player {
                    old(self)@.player_hand.remove(index as int)
                } else {
                    old(self)@.player_hand
                },
                oppo_hand: if who is Oppo {
                    old(self)@.oppo_hand.remove(index as int)
                } else {
                    old(self)@.oppo_hand
                },
                war_pile: old(self)@.war_pile.push((who, card)),
                seed_count: old(self)@.seed_count + (if card.has_word(WordOfPower::Egeq) {
                    1nat
                } else {
                    0nat
                }),
                turn_state: TurnState::CardPlayed,
                ..old(self)@
            }));
        }
    }

    /// Leave the played pause.  With both cards on the table the round is
    /// resolved: on a win or a loss both cards move to the winner's pile and
    /// the winner's ledger is credited with both bonus amounts; on a tie
    /// each side takes its own card and bonus back.  With one card the
    /// state machine just moves on and waits for the other side.
    pub fn handle_turn_end(&mut self)
        requires
            old(self)@.wf(),
            old(self)@.turn_state is CardPlayed,
            old(self)@.game_over is None,
        ensures
            final(self)@.wf(),
            old(self)@.war_pile.len() < 2 ==> final(self)@ == (SessionView {
                turn_state: TurnState::New,
                ..old(self)@
            }),
            old(self)@.war_pile.len() == 2 ==> ({
                let pc = player_war_card(old(self)@.war_pile);
                let oc = oppo_war_card(old(self)@.war_pile);
                let pb = pc.spec_bonus_for(oc);
                let ob = oc.spec_bonus_for(pc);
                match pc.spec_beats(oc) {
                    BattleOutcome::Tie => final(self)@ == (SessionView {
                        war_pile: Seq::empty(),
                        player_pile: old(self)@.player_pile.push(pc),
                        oppo_pile: old(self)@.oppo_pile.push(oc),
                        bonus_player: old(self)@.bonus_player + pb,
                        bonus_oppo: old(self)@.bonus_oppo + ob,
                        turn_state: TurnState::New,
                        ..old(self)@
                    }),
                    BattleOutcome::Loss => final(self)@ == (SessionView {
                        war_pile: Seq::empty(),
                        oppo_pile: old(self)@.oppo_pile.push(pc).push(oc),
                        bonus_oppo: old(self)@.bonus_oppo + pb + ob,
                        turn_state: TurnState::New,
                        ..old(self)@
                    }),
                    BattleOutcome::Win => final(self)@ == (SessionView {
                        war_pile: Seq::empty(),
                        player_pile: old(self)@.player_pile.push(pc).push(oc),
                        bonus_player: old(self)@.bonus_player + pb + ob,
                        turn_state: TurnState::New,
                        ..old(self)@
                    }),
                }
            }),
    {
        if self.war_pile.len() == 2 {
            let entry0 = self.war_pile[0];
            let entry1 = self.war_pile[1];
            let (player_card, oppo_card) = if matches!(entry0.0, Participant::Player) {
                (entry0.1, entry1.1)
            } else {
                (entry1.1, entry0.1)
            };
            let bonuses = player_card.bonus_points(&oppo_card);
            self.war_pile.clear();
            match player_card.beats(&oppo_card) {
                BattleOutcome::Tie => {
                    self.player_pile.push(player_card);
                    self.score_bonuses.player = self.score_bonuses.player + bonuses.0;
                    self.oppo_pile.push(oppo_card);
                    self.score_bonuses.oppo = self.score_bonuses.oppo + bonuses.1;
                },
                BattleOutcome::Loss => {
                    self.oppo_pile.push(player_card);
                    self.oppo_pile.push(oppo_card);
                    self.score_bonuses.oppo = self.score_bonuses.oppo + bonuses.0 + bonuses.1;
                },
                BattleOutcome::Win => {
                    self.player_pile.push(player_card);
                    self.player_pile.push(oppo_card);
                    self.score_bonuses.player = self.score_bonuses.player + bonuses.0 + bonuses.1;
                },
            }
        }
        self.turn_state = TurnState::New;
        proof {
            if old(self)@.war_pile.len() < 2 {
                assert(self@ =~= (SessionView { turn_state: TurnState::New, ..old(self)@ }));
            } else {
                let pc = player_war_card(old(self)@.war_pile);
                let oc = oppo_war_card(old(self)@.war_pile);
                let pb = pc.spec_bonus_for(oc);
                let ob = oc.spec_bonus_for(pc);
                match pc.spec_beats(oc) {
                    BattleOutcome::Tie => {
                        assert(self@ =~= (SessionView {
                            war_pile: Seq::empty(),
                            player_pile: old(self)@.player_pile.push(pc),
                            oppo_pile: old(self)@.oppo_pile.push(oc),
                            bonus_player: old(self)@.bonus_player + pb,
                            bonus_oppo: old(self)@.bonus_oppo + ob,
                            turn_state: TurnState::New,
                            ..old(self)@
                        }));
                    },
                    BattleOutcome::Loss => {
                        assert(self@ =~= (SessionView {
                            war_pile: Seq::empty(),
                            oppo_pile: old(self)@.oppo_pile.push(pc).push(oc),
                            bonus_oppo: old(self)@.bonus_oppo + pb + ob,
                            turn_state: TurnState::New,
                            ..old(self)@
                        }));
                    },
                    BattleOutcome::Win => {
                        assert(self@ =~= (SessionView {
                            war_pile: Seq::empty(),
                            player_pile: old(self)@.player_pile.push(pc).push(oc),
                            bonus_player: old(self)@.bonus_player + pb + ob,
                            turn_state: TurnState::New,
                            ..old(self)@
                        }));
                    },
                }
            }
        }
    }

    /// Open a new turn.  If either side's lead already exceeds every point
    /// still in play the game ends here with the matching reason and
    /// nothing else changes.  Otherwise the turn counter advances, the
    /// initiative moves as the policy dictates, and play continues in the
    /// draw state when both hands are empty, else with the side holding
    /// the initiative.
    pub fn handle_new_turn(&mut self) -> (r: Option<GameOver>)
        requires
            old(self)@.wf(),
            old(self)@.turn_state is New,
            old(self)@.game_over is None,
        ensures
            final(self)@.wf(),
            ({
                let ps = old(self)@.spec_player_score();
                let os = old(self)@.spec_oppo_score();
                let rem = old(self)@.spec_remaining_score();
                if ps - os > rem {
                    &&& r == Some(GameOver(EndReason::Victory))
                    &&& final(self)@ == (SessionView {
                        game_over: Some(EndReason::Victory),
                        ..old(self)@
                    })
                } else if os - ps > rem {
                    &&& r == Some(GameOver(EndReason::Loss))
                    &&& final(self)@ == (SessionView {
                        game_over: Some(EndReason::Loss),
                        ..old(self)@
                    })
                } else {
                    let tc = old(self)@.turn_count + 1;
                    let init = if swaps_initiative(old(self)@.policy, tc as nat) {
                        old(self)@.initiative.spec_other()
                    } else {
                        old(self)@.initiative
                    };
                    &&& r is None
                    &&& final(self)@ == (SessionView {
                        turn_count: tc as nat,
                        initiative: init,
                        turn_state: if old(self)@.player_hand.len() + old(self)@.oppo_hand.len()
                            == 0 {
                            TurnState::Draw
                        } else {
                            turn_for(init)
                        },
                        ..old(self)@
                    })
                }
            }),
    {
        proof {
            lemma_value_sum_bounds(self@.player_pile);
            lemma_value_sum_bounds(self@.oppo_pile);
        }
        let player_score = self.player_score();
        let oppo_score = self.oppo_score();
        let remaining_scores = self.remaining_score();
        if player_score - oppo_score > remaining_scores {
            self.game_over = Some(EndReason::Victory);
            proof {
                assert(self@ =~= (SessionView {
                    game_over: Some(EndReason::Victory),
                    ..old(self)@
                }));
            }
            return Some(GameOver(EndReason::Victory));
        } else if oppo_score - player_score > remaining_scores {
            self.game_over = Some(EndReason::Loss);
            proof {
                assert(self@ =~= (SessionView { game_over: Some(EndReason::Loss), ..old(self)@ }));
            }
            return Some(GameOver(EndReason::Loss));
        }
        self.turn_count = self.turn_count + 1;
        let swap_now = match self.policy {
            InitiativePolicy::EveryTurn => true,
            InitiativePolicy::EveryOtherTurn => self.turn_count % 2 == 1,
        };
        if swap_now {
            self.initiative.swap();
        }
        proof {
            assert(old(self)@.player_hand.len() + old(self)@.oppo_hand.len() <= MAX_CARDS);
        }
        if self.player_hand.len() + self.oppo_hand.len() == 0 {
            self.turn_state = TurnState::Draw;
        } else {
            self.turn_state = match self.initiative.0 {
                Participant::Oppo => TurnState::Oppo,
                Participant::Player => TurnState::Player,
            };
        }
        proof {
            let tc = old(self)@.turn_count + 1;
            let init = if swaps_initiative(old(self)@.policy, tc as nat) {
                old(self)@.initiative.spec_other()
            } else {
                old(self)@.initiative
            };
            assert(self@ =~= (SessionView {
                turn_count: tc as nat,
                initiative: init,
                turn_state: if old(self)@.player_hand.len() + old(self)@.oppo_hand.len() == 0 {
                    TurnState::Draw
                } else {
                    turn_for(init)
                },
                ..old(self)@
            }));
        }
        None
    }

    /// Hide the card at `index` of the player's hand in the sleeve and draw
    /// a replacement.  The caller says whether the table is being watched:
    /// when it is, the attempt ends the game as caught cheating, and the
    /// card never reaches the sleeve but keeps counting with the hand.
    /// Only allowed with room in the sleeve and cards left to draw.
    pub fn stash_card(&mut self, index: usize, watched: bool) -> (r: Option<GameOver>)
        requires
            old(self)@.wf(),
            old(self)@.game_over is None,
            old(self)@.turn_state is Player,
            index < old(self)@.player_hand.len(),
            old(self)@.sleeve.len() < 3,
            old(self)@.player_deck.len() > 0,
        ensures
            final(self)@.wf(),
            ({
                let deck = old(self)@.player_deck;
                if watched {
                    &&& r == Some(GameOver(EndReason::CaughtCheating))
                    &&& final(self)@ == (SessionView {
                        player_deck: deck.take(deck.len() - 1),
                        player_hand: old(self)@.player_hand + deck.skip(deck.len() - 1),
                        game_over: Some(EndReason::CaughtCheating),
                        ..old(self)@
                    })
                } else {
                    &&& r is None
                    &&& final(self)@ == (SessionView {
                        player_deck: deck.take(deck.len() - 1),
                        player_hand: old(self)@.player_hand.remove(index as int) + deck.skip(
                            deck.len() - 1,
                        ),
                        sleeve: old(self)@.sleeve.push(old(self)@.player_hand[index as int]),
                        ..old(self)@
                    })
                }
            }),
    {
        let result = if watched {
            self.game_over = Some(EndReason::CaughtCheating);
            Some(GameOver(EndReason::CaughtCheating))
        } else {
            let card = self.player_hand.remove(index);
            self.sleeve.push(card);
            None
        };
        let mut replacement = self.player_deck.draw(1);
        self.player_hand.append(&mut replacement);
        proof {
            let deck = old(self)@.player_deck;
            if watched {
                assert(self@ =~= (SessionView {
                    player_deck: deck.take(deck.len() - 1),
                    player_hand: old(self)@.player_hand + deck.skip(deck.len() - 1),
                    game_over: Some(EndReason::CaughtCheating),
                    ..old(self)@
                }));
            } else {
                assert(self@ =~= (SessionView {
                    player_deck: deck.take(deck.len() - 1),
                    player_hand: old(self)@.player_hand.remove(index as int) + deck.skip(
                        deck.len() - 1,
                    ),
                    sleeve: old(self)@.sleeve.push(old(self)@.player_hand[index as int]),
                    ..old(self)@
                }));
            }
        }
        result
    }
}

} // verus!
