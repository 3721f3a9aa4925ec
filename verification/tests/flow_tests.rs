use warlocks_gambit::deck::Deck;
use warlocks_gambit::game_flow::{
    EndReason, GameOver, GameSession, InitiativePolicy, Participant,
};
use warlocks_gambit::state::TurnState;
use warlocks_gambit::war::Card;

fn card(s: &str) -> Card {
    Card::from_str(s).unwrap()
}

fn deck(s: &str) -> Deck {
    Deck::from_str(s).unwrap()
}

fn started(player: &str, oppo: &str, policy: InitiativePolicy) -> GameSession {
    let mut session = GameSession::new_game(deck(player), deck(oppo), policy);
    session.first_draw();
    session.draw_phase();
    session.complete_draw();
    session
}

#[test]
fn a_won_round_moves_both_cards_to_one_pile() {
    let mut s = started("2_ 3_ 5_", "1_ 4_ 6_", InitiativePolicy::EveryOtherTurn);
    assert_eq!(s.turn_state, TurnState::Player);
    assert_eq!(s.player_hand, vec![card("5_"), card("3_"), card("2_")]);
    s.play_card(Participant::Player, 2); // the player opens with 2
    assert_eq!(s.turn_state, TurnState::CardPlayed);
    assert_eq!(s.war_pile.len(), 1);
    s.handle_turn_end(); // only one card on the table: nothing to resolve
    assert_eq!(s.turn_state, TurnState::New);
    assert!(s.handle_new_turn().is_none());
    assert_eq!(s.turn_state, TurnState::Oppo);
    s.play_card(Participant::Oppo, 2); // the opposition answers with 1
    assert_eq!(s.war_pile.len(), 2);
    s.handle_turn_end(); // 2 beats 1: both cards go to the player
    assert_eq!(s.war_pile.len(), 0);
    assert_eq!(s.player_pile, vec![card("2_"), card("1_")]);
    assert!(s.oppo_pile.is_empty());
    assert_eq!(s.player_score(), 3);
    assert_eq!(s.oppo_score(), 0);
}

#[test]
fn a_tied_round_returns_each_card_to_its_owner() {
    let mut s = started("5_ 1_ 2_", "5d 3_ 4_", InitiativePolicy::EveryOtherTurn);
    s.play_card(Participant::Player, 2);
    s.handle_turn_end();
    assert!(s.handle_new_turn().is_none());
    s.play_card(Participant::Oppo, 2);
    s.handle_turn_end();
    assert_eq!(s.player_pile, vec![card("5_")]);
    assert_eq!(s.oppo_pile, vec![card("5d")]);
    // the doubling word pays each side its face value as bonus
    assert_eq!(s.player_score(), 5 + 5);
    assert_eq!(s.oppo_score(), 5 + 5);
}

#[test]
fn a_swapped_loss_gives_both_cards_away() {
    let mut s = started("9w 1_ 2_", "3_ 4_ 5_", InitiativePolicy::EveryOtherTurn);
    s.play_card(Participant::Player, 2); // 9 with the swap word loses to 3
    s.handle_turn_end();
    assert!(s.handle_new_turn().is_none());
    s.play_card(Participant::Oppo, 2);
    s.handle_turn_end();
    assert!(s.player_pile.is_empty());
    assert_eq!(s.oppo_pile, vec![card("9w"), card("3_")]);
    assert_eq!(s.oppo_score(), 12);
}

#[test]
fn early_termination_fires_with_the_right_reason() {
    // a lead no remaining card can answer ends the game at once
    let mut s = GameSession::new_game(deck(""), deck(""), InitiativePolicy::EveryTurn);
    s.player_pile.push(card("9_"));
    s.turn_state = TurnState::New;
    assert_eq!(s.handle_new_turn(), Some(GameOver(EndReason::Victory)));
    assert_eq!(s.game_over, Some(EndReason::Victory));

    let mut s = GameSession::new_game(deck(""), deck(""), InitiativePolicy::EveryTurn);
    s.oppo_pile.push(card("9_"));
    s.turn_state = TurnState::New;
    assert_eq!(s.handle_new_turn(), Some(GameOver(EndReason::Loss)));
    assert_eq!(s.game_over, Some(EndReason::Loss));
}

#[test]
fn no_termination_while_the_trailing_side_can_catch_up() {
    // the lead is 9 but a deck still holds an answer worth up to 27
    let mut s = GameSession::new_game(deck(""), deck("9d"), InitiativePolicy::EveryTurn);
    s.player_pile.push(card("9_"));
    s.turn_count = 1;
    s.turn_state = TurnState::New;
    assert!(s.handle_new_turn().is_none());
    assert_eq!(s.game_over, None);
    assert_eq!(s.turn_state, TurnState::Draw);
}

#[test]
fn seeds_are_granted_and_consumed() {
    let mut s = started("0s 1_ 2_", "3_ 4_ 5_", InitiativePolicy::EveryOtherTurn);
    assert_eq!(s.seed_count.count(), 0);
    assert!(!s.use_seed());
    s.play_card(Participant::Player, 2); // the seed word pays one seed
    assert_eq!(s.seed_count.count(), 1);
    assert!(s.use_seed());
    assert_eq!(s.seed_count.count(), 0);
}

#[test]
fn stashing_unwatched_moves_the_card_to_the_sleeve() {
    let mut s = started("1_ 2_ 3_ 4_", "5_ 6_ 7_", InitiativePolicy::EveryOtherTurn);
    assert_eq!(s.player_hand, vec![card("3_"), card("2_"), card("1_")]);
    let r = s.stash_card(0, false);
    assert!(r.is_none());
    assert_eq!(s.sleeve, vec![card("3_")]);
    assert_eq!(s.player_hand, vec![card("2_"), card("1_"), card("4_")]);
    assert_eq!(s.game_over, None);
}

#[test]
fn stashing_while_watched_is_caught() {
    let mut s = started("1_ 2_ 3_ 4_", "5_ 6_ 7_", InitiativePolicy::EveryOtherTurn);
    let r = s.stash_card(0, true);
    assert_eq!(r, Some(GameOver(EndReason::CaughtCheating)));
    assert_eq!(s.game_over, Some(EndReason::CaughtCheating));
    assert!(s.sleeve.is_empty());
}

#[test]
fn sleeved_cards_return_to_the_hand_on_the_next_draw() {
    let mut s = started("1_ 2_ 3_ 4_", "5_ 6_ 7_", InitiativePolicy::EveryOtherTurn);
    s.stash_card(1, false);
    assert_eq!(s.sleeve, vec![card("2_")]);
    s.player_hand.clear();
    s.oppo_hand.clear();
    s.turn_state = TurnState::Draw;
    s.draw_phase(); // the deck is empty: only the sleeve refills the hand
    assert!(s.sleeve.is_empty());
    assert_eq!(s.player_hand, vec![card("2_")]);
}

#[test]
fn initiative_follows_the_policy() {
    // swapping every turn: the second turn goes to the opposition
    let mut s = started("1_ 2_ 3_", "4_ 5_ 6_", InitiativePolicy::EveryTurn);
    assert_eq!(s.initiative.0, Participant::Player);
    s.play_card(Participant::Player, 0);
    s.handle_turn_end();
    s.handle_new_turn();
    assert_eq!(s.initiative.0, Participant::Oppo);
    assert_eq!(s.turn_state, TurnState::Oppo);
    s.turn_state = TurnState::New;
    s.handle_new_turn();
    assert_eq!(s.initiative.0, Participant::Player);

    // swapping every other turn: turns one and two go to different sides,
    // turns two and three to the same one
    let mut s = started("1_ 2_ 3_", "4_ 5_ 6_", InitiativePolicy::EveryOtherTurn);
    s.play_card(Participant::Player, 0);
    s.handle_turn_end();
    s.handle_new_turn();
    assert_eq!(s.initiative.0, Participant::Oppo);
    s.turn_state = TurnState::New;
    s.handle_new_turn();
    assert_eq!(s.initiative.0, Participant::Oppo);
    s.turn_state = TurnState::New;
    s.handle_new_turn();
    assert_eq!(s.initiative.0, Participant::Player);
}

#[test]
fn cleanup_resets_every_per_game_value() {
    let mut s = started("0s 2_ 3_", "4_ 5_ 6_", InitiativePolicy::EveryTurn);
    s.play_card(Participant::Player, 0);
    s.handle_turn_end();
    s.cleanup();
    assert_eq!(s.turn_state, TurnState::Starting);
    assert_eq!(s.turn_count, 0);
    assert_eq!(s.seed_count.count(), 0);
    assert_eq!(s.initiative.0, Participant::Player);
    assert_eq!(s.game_over, None);
    assert!(s.player_hand.is_empty());
    assert!(s.oppo_hand.is_empty());
    assert!(s.war_pile.is_empty());
    assert!(s.player_pile.is_empty());
    assert!(s.oppo_pile.is_empty());
    assert_eq!(s.player_deck.remaining(), 0);
    assert_eq!(s.oppo_deck.remaining(), 0);
    assert_eq!(s.player_score(), 0);
    assert_eq!(s.oppo_score(), 0);
    assert_eq!(s.remaining_score(), 0);
}

#[test]
fn participant_names() {
    assert_eq!(Participant::Player.name(), "Player");
    assert_eq!(Participant::Oppo.name(), "Oppo");
}
