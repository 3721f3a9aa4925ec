use warlocks_gambit::oppo_hand::chose_card;
use warlocks_gambit::war::Card;

fn card(s: &str) -> Card {
    Card::from_str(s).unwrap()
}

fn hand(specs: &[&str]) -> Vec<Card> {
    specs.iter().map(|s| card(s)).collect()
}

fn check(war: &str, in_hand: &[&str], expected: &str, msg: &str) {
    let war = card(war);
    let in_hand = hand(in_hand);
    let actual = chose_card(Some(&war), &in_hand);
    assert_eq!(in_hand[actual], card(expected), "{}", msg);
}

#[test]
fn chose_card_test() {
    check("1_", &["2_", "3_", "5_"], "2_", "lowest winning");
    // Note: it could be wishable that oppo prioritizes playing high value swap
    check("1w", &["2w", "3_", "5_"], "2w", "lowest winning with potential swap");
    check("1w", &["2_", "3_", "5_"], "2_", "lowest loosing with swap");
    check("5w", &["1w", "3_", "6_"], "3_", "do not pick lowest swap if already swap");
    check("5w", &["6_", "3_"], "3_", "select lower when oppo is swap");
    check("5w", &["5_", "6_"], "5_", "prefer tie to loosing when swap");
    check("5w", &["5_", "6w"], "6w", "select swap if wins");
    check("9_", &["0_", "9_"], "0_", "chose 0 when oppo has 9");
    check("9z", &["0w", "3_"], "3_", "prefer 3 to 0 when +12 and losing");
    check("9z", &["0_", "3_"], "0_", "chose 0 even if +12 if wins");
    check("9w", &["0_", "1_"], "1_", "do not lose when swap 0/9w");
    check("9_", &["0w", "1_"], "0w", "chose lowest even in losing 0/9");
    check("5_", &["5_", "3_"], "5_", "prefer tie to loss");
}

#[test]
fn a_winning_zero_is_not_cheap_under_zero_bonus() {
    // both cards beat a 9 that carries the zero-bonus word; the bare 0 is
    // worth 12 in that round, so the swapped 1 is the cheaper win
    check("9z", &["0_", "1w"], "1w", "fold the zero bonus into the cost of a win");
}

#[test]
fn random_pick_is_a_hand_member() {
    let in_hand = hand(&["2_", "3_", "5_"]);
    for _ in 0..64 {
        let picked = chose_card(None, &in_hand);
        assert!(picked < in_hand.len());
    }
}

#[test]
fn single_card_hand_is_forced() {
    let in_hand = hand(&["4_"]);
    assert_eq!(chose_card(None, &in_hand), 0);
    assert_eq!(chose_card(Some(&card("9_")), &in_hand), 0);
}
