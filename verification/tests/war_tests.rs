use warlocks_gambit::war::{BattleOutcome, Card, ParseError, Value, WordOfPower};

fn card(s: &str) -> Card {
    Card::from_str(s).unwrap()
}

fn bonus_for(left: &str, right: &str) -> (i32, i32) {
    card(left).bonus_points(&card(right))
}

#[test]
fn bonus_point_test() {
    assert_eq!((0, 0), bonus_for("9_", "9_"));
    assert_eq!((12, 0), bonus_for("0z", "9_"));
    assert_eq!((12, 0), bonus_for("0_", "9z"));
    assert_eq!((24, 0), bonus_for("0z", "9z"));
    assert_eq!((24, 9), bonus_for("0z", "9d"));
    assert_eq!((24, 9), bonus_for("0d", "9z"));
    assert_eq!((0, 2), bonus_for("0d", "1d"));
    assert_eq!((1, 1), bonus_for("1d", "1_"));
    assert_eq!((2, 2), bonus_for("1d", "1d"));
}

#[test]
fn bonus_points_symmetric() {
    let pairs = [("0z", "9d"), ("1d", "3_"), ("0_", "0z"), ("5w", "5s")];
    for (a, b) in pairs {
        let (l, r) = card(a).bonus_points(&card(b));
        let (rl, rr) = card(b).bonus_points(&card(a));
        assert_eq!((l, r), (rr, rl));
    }
}

#[test]
fn every_value_ties_itself() {
    let values = [
        Value::Zero,
        Value::One,
        Value::Two,
        Value::Three,
        Value::Four,
        Value::Five,
        Value::Six,
        Value::Seven,
        Value::Eight,
        Value::Nine,
    ];
    for v in values {
        assert!(matches!(v.beats(&v), BattleOutcome::Tie));
    }
}

#[test]
fn zero_nine_is_the_sole_inversion() {
    let values = [
        Value::Zero,
        Value::One,
        Value::Two,
        Value::Three,
        Value::Four,
        Value::Five,
        Value::Six,
        Value::Seven,
        Value::Eight,
        Value::Nine,
    ];
    assert!(matches!(Value::Zero.beats(&Value::Nine), BattleOutcome::Win));
    assert!(matches!(Value::Nine.beats(&Value::Zero), BattleOutcome::Loss));
    for (i, a) in values.iter().enumerate() {
        for (j, b) in values.iter().enumerate() {
            if i == j || (i == 0 && j == 9) || (i == 9 && j == 0) {
                continue;
            }
            let expected = if i > j {
                BattleOutcome::Win
            } else {
                BattleOutcome::Loss
            };
            assert_eq!(a.beats(b) == BattleOutcome::Win, expected == BattleOutcome::Win);
        }
    }
}

#[test]
fn one_swap_inverts_two_cancel() {
    // one swap word inverts a non-tie outcome
    assert!(matches!(card("2w").beats(&card("5_")), BattleOutcome::Win));
    assert!(matches!(card("5_").beats(&card("2w")), BattleOutcome::Loss));
    // both swap words cancel
    assert!(matches!(card("5w").beats(&card("2w")), BattleOutcome::Win));
    // ties are never inverted
    assert!(matches!(card("5w").beats(&card("5_")), BattleOutcome::Tie));
    assert!(matches!(card("5w").beats(&card("5w")), BattleOutcome::Tie));
    // the zero-nine inversion swaps too
    assert!(matches!(card("9w").beats(&card("0_")), BattleOutcome::Win));
}

#[test]
fn max_value_counts_the_best_case() {
    assert_eq!(card("9_").max_value(), 9);
    assert_eq!(card("0z").max_value(), 12);
    assert_eq!(card("3z").max_value(), 15);
    assert_eq!(card("9d").max_value(), 27);
    assert_eq!(card("0d").max_value(), 9);
    assert_eq!(card("4s").max_value(), 4);
}

#[test]
fn card_parsing_happy_paths() {
    assert_eq!(card("5_"), Card { word: None, value: Value::Five });
    assert_eq!(card("0z"), Card { word: Some(WordOfPower::Geh), value: Value::Zero });
    assert_eq!(card("9seed"), Card { word: Some(WordOfPower::Egeq), value: Value::Nine });
    assert_eq!(card("1doub"), Card { word: Some(WordOfPower::Qube), value: Value::One });
    assert_eq!(card("2swap"), Card { word: Some(WordOfPower::Zihbm), value: Value::Two });
    assert_eq!(card("3zero"), Card { word: Some(WordOfPower::Geh), value: Value::Three });
    assert_eq!(card("4____"), Card { word: None, value: Value::Four });
    assert_eq!(card("7het"), Card { word: Some(WordOfPower::Het), value: Value::Seven });
    assert_eq!(card("8meb"), Card { word: Some(WordOfPower::Meb), value: Value::Eight });
}

#[test]
fn card_parsing_errors() {
    assert_eq!(Card::from_str("x_"), Err(ParseError::BadValue("x".to_string())));
    assert_eq!(Card::from_str("5q"), Err(ParseError::BadWord("q".to_string())));
    assert_eq!(Card::from_str("5"), Err(ParseError::BadWord("".to_string())));
    assert_eq!(Card::from_str("5sword"), Err(ParseError::BadWord("sword".to_string())));
    assert_eq!(Value::from_str("7"), Ok(Value::Seven));
    assert_eq!(Value::from_str("a"), Err(ParseError::BadValue("a".to_string())));
    assert_eq!(Value::from_str("10"), Err(ParseError::BadValue("10".to_string())));
    assert_eq!(WordOfPower::from_str("_"), Err(ParseError::EmptyWord));
    assert_eq!(WordOfPower::from_str("____"), Err(ParseError::EmptyWord));
    assert_eq!(WordOfPower::from_str("w"), Ok(WordOfPower::Zihbm));
    assert_eq!(WordOfPower::from_str("zzz"), Err(ParseError::BadWord("zzz".to_string())));
}

#[test]
fn flavor_text_names_each_effect() {
    assert_eq!(WordOfPower::Egeq.flavor_text(), "Gain a seed");
    assert_eq!(WordOfPower::Qube.flavor_text(), "Double points");
    assert_eq!(WordOfPower::Zihbm.flavor_text(), "Swap winners");
    assert_eq!(WordOfPower::Geh.flavor_text(), "Zero earns 12");
    assert_eq!(WordOfPower::Het.flavor_text(), "Unimplemented");
    assert_eq!(WordOfPower::Meb.flavor_text(), "Unimplemented");
}
