//! The opposition's card choice: win cheaply, else tie, else lose cheaply,
//! and play at random when there is nothing to react to.

use vstd::prelude::*;

use crate::war::{BattleOutcome, Card, Value, WordOfPower};

verus! {

/// Relies on fastrand::usize: a number drawn uniformly from `0..len`.
/// Nothing is assumed beyond the range of the result.
#[verifier::external_body]
fn random_index(len: usize) -> (r: usize)
    requires
        len > 0,
    ensures
        r < len,
{
    fastrand::usize(..len)
}

/// The value a candidate card is worth to the chooser: its face value,
/// except that a zero-valued card counts as 12 when either it or the
/// played card carries `Geh`.
pub open spec fn effective_value(c: Card, played: Card) -> int {
    c.value.as_int() + if c.value is Zero && (c.has_word(WordOfPower::Geh) || played.has_word(
        WordOfPower::Geh,
    )) {
        12int
    } else {
        0int
    }
}

/// Equal effective values force equal raw values: the fold only lifts a
/// zero to 12, which no other rank reaches, so the choice rule's raw-value
/// tie-break never has to separate two candidates.
pub proof fn lemma_equal_effective_equal_raw(a: Card, b: Card, played: Card)
    requires
        effective_value(a, played) == effective_value(b, played),
    ensures
        a.value.as_int() == b.value.as_int(),
{
}

/// True when `hand[r]` is the card [`chose_card`] must pick against
/// `played`: the first winner of least effective value if any card wins,
/// else the first tie, else the first card of least effective value.
pub open spec fn is_chosen_index(played: Card, hand: Seq<Card>, r: int) -> bool {
    if exists|i: int| 0 <= i < hand.len() && hand[i].spec_beats(played) is Win {
        &&& hand[r].spec_beats(played) is Win
        &&& forall|i: int|
            0 <= i < hand.len() && hand[i].spec_beats(played) is Win ==> effective_value(
                hand[r],
                played,
            ) <= effective_value(hand[i], played)
        &&& forall|i: int|
            0 <= i < r && hand[i].spec_beats(played) is Win ==> effective_value(hand[i], played)
                > effective_value(hand[r], played)
    } else if exists|i: int| 0 <= i < hand.len() && hand[i].spec_beats(played) is Tie {
        &&& hand[r].spec_beats(played) is Tie
        &&& forall|i: int| 0 <= i < r ==> !(hand[i].spec_beats(played) is Tie)
    } else {
        &&& forall|i: int|
            0 <= i < hand.len() ==> effective_value(hand[r], played) <= effective_value(
                hand[i],
                played,
            )
        &&& forall|i: int|
            0 <= i < r ==> effective_value(hand[i], played) > effective_value(hand[r], played)
    }
}

/// The effective value of a candidate against the played card.
fn card_effective_value(c: &Card, played: &Card) -> (r: i32)
    ensures
        r == effective_value(*c, *played),
{
    let zero_bonus = matches!(c.word, Some(WordOfPower::Geh)) || matches!(
        played.word,
        Some(WordOfPower::Geh),
    );
    c.value_i32() + if matches!(c.value, Value::Zero) && zero_bonus {
        12
    } else {
        0
    }
}

/// Choose which card of `in_hand` to play against `played`.
///
/// With nothing played yet the pick is random; otherwise the preference
/// order is: the cheapest winning card, else a tying card, else the card
/// that loses the least.  Cheapness is effective value, so a zero-valued
/// winner is not mistaken for cheap while the zero-bonus word is in play;
/// ties on effective value break on raw value, which by
/// [`lemma_equal_effective_equal_raw`] never separates two candidates, so
/// the earliest such card is taken.
pub fn chose_card(played: Option<&Card>, in_hand: &Vec<Card>) -> (r: usize)
    requires
        in_hand@.len() > 0,
    ensures
        r < in_hand@.len(),
        played matches Some(p) ==> is_chosen_index(*p, in_hand@, r as int),
{
    let p = match played {
        Some(p) => p,
        None => {
            return random_index(in_hand.len());
        },
    };
    let mut best_win: Option<usize> = None;
    let mut first_tie: Option<usize> = None;
    let mut best_low: usize = 0;
    let mut i: usize = 0;
    while i < in_hand.len()
        invariant
            in_hand@.len() > 0,
            i <= in_hand@.len(),
            i > 0 ==> best_low < i,
            i == 0 ==> best_low == 0,
            match best_win {
                Some(j) => {
                    &&& j < i
                    &&& in_hand@[j as int].spec_beats(*p) is Win
                    &&& forall|k: int|
                        0 <= k < i && in_hand@[k].spec_beats(*p) is Win ==> effective_value(
                            in_hand@[j as int],
                            *p,
                        ) <= effective_value(in_hand@[k], *p)
                    &&& forall|k: int|
                        0 <= k < j && in_hand@[k].spec_beats(*p) is Win ==> effective_value(
                            in_hand@[k],
                            *p,
                        ) > effective_value(in_hand@[j as int], *p)
                },
                None => forall|k: int| 0 <= k < i ==> !(in_hand@[k].spec_beats(*p) is Win),
            },
            match first_tie {
                Some(j) => {
                    &&& j < i
                    &&& in_hand@[j as int].spec_beats(*p) is Tie
                    &&& forall|k: int| 0 <= k < j ==> !(in_hand@[k].spec_beats(*p) is Tie)
                },
                None => forall|k: int| 0 <= k < i ==> !(in_hand@[k].spec_beats(*p) is Tie),
            },
            i > 0 ==> forall|k: int|
                0 <= k < i ==> effective_value(in_hand@[best_low as int], *p) <= effective_value(
                    in_hand@[k],
                    *p,
                ),
            i > 0 ==> forall|k: int|
                0 <= k < best_low ==> effective_value(in_hand@[k], *p) > effective_value(
                    in_hand@[best_low as int],
                    *p,
                ),
        decreases in_hand@.len() - i,
    {
        let card = &in_hand[i];
        let outcome = card.beats(p);
        let eff = card_effective_value(card, p);
        if matches!(outcome, BattleOutcome::Win) {
            let better = match best_win {
                Some(j) => eff < card_effective_value(&in_hand[j], p),
                None => true,
            };
            if better {
                best_win = Some(i);
            }
        } else if matches!(outcome, BattleOutcome::Tie) {
            if first_tie.is_none() {
                first_tie = Some(i);
            }
        }
        if i == 0 || eff < card_effective_value(&in_hand[best_low], p) {
            best_low = i;
        }
        i = i + 1;
    }
    match best_win {
        Some(j) => j,
        None => match first_tie {
            Some(j) => j,
            None => best_low,
        },
    }
}

} // verus!
