use warlocks_gambit::deck::Deck;
use warlocks_gambit::war::{Card, ParseError, Value, WordOfPower};

fn card(s: &str) -> Card {
    Card::from_str(s).unwrap()
}

#[test]
fn single_draws_follow_source_order_batches_come_stacked() {
    let mut deck = Deck::from_str("0z 1_ 2d").unwrap();
    assert_eq!(deck.remaining(), 3);
    // one-card draws hand the cards out in source order
    let first = deck.draw(1);
    assert_eq!(first, vec![card("0z")]);
    // a batch is the tail of the reversed stack, so it lists the
    // source-latest of the drawn cards first
    let rest = deck.draw(2);
    assert_eq!(rest, vec![card("2d"), card("1_")]);
    assert_eq!(deck.remaining(), 0);
}

#[test]
fn draw_shrinks_remaining_by_at_most_the_ask() {
    let mut deck = Deck::from_str("0_ 1_ 2_ 3_ 4_").unwrap();
    let before = deck.remaining();
    let drawn = deck.draw(3);
    assert_eq!(drawn.len(), 3);
    assert_eq!(deck.remaining(), before - 3);
    // drawing more than remain returns only what remains, never errors
    let drawn = deck.draw(10);
    assert_eq!(drawn.len(), 2);
    assert_eq!(deck.remaining(), 0);
    let drawn = deck.draw(1);
    assert_eq!(drawn.len(), 0);
    assert_eq!(deck.remaining(), 0);
}

#[test]
fn deck_score_sums_optimistic_values() {
    let deck = Deck::from_str("9d 0z 4_").unwrap();
    // 9 doubled against a best-case nine is 27, a zero with its word 12
    assert_eq!(deck.score(), 27 + 12 + 4);
    let empty = Deck::from_str("").unwrap();
    assert_eq!(empty.score(), 0);
    assert_eq!(empty.remaining(), 0);
}

#[test]
fn deck_parsing_accepts_any_whitespace() {
    let mut deck = Deck::from_str("  0z\n\t1seed \r\n 2____  ").unwrap();
    assert_eq!(deck.remaining(), 3);
    let drawn = deck.draw(3);
    assert_eq!(
        drawn,
        vec![
            Card { word: None, value: Value::Two },
            Card { word: Some(WordOfPower::Egeq), value: Value::One },
            card("0z"),
        ]
    );
}

#[test]
fn deck_parsing_reports_the_first_bad_token() {
    assert_eq!(
        Deck::from_str("0z x_ 3_").err(),
        Some(ParseError::BadValue("x".to_string()))
    );
    assert_eq!(
        Deck::from_str("0z 3q x_").err(),
        Some(ParseError::BadWord("q".to_string()))
    );
    assert_eq!(
        Deck::from_str("7").err(),
        Some(ParseError::BadWord("".to_string()))
    );
}
