//! The rules of a single battle: which card beats which, and the bonus
//! points the words on the played cards are worth.
//!
//! * The card with the higher value wins, except that `Zero` beats `Nine`
//!   (the one inversion) — and `Zihbm` swaps the round's winner.
//! * Swap words cancel pairwise: the comparison combines the two played
//!   cards' swap flags at resolution time, with no per-round accumulator,
//!   so two `Zihbm` cards in one round leave the outcome unchanged.
//! * If both cards have the same value each side keeps its card and the
//!   round is a tie.
//!
//! The module also defines how a [`Card`] is read from text, so that decks
//! can be loaded from files.

use vstd::prelude::*;

verus! {

use vstd::string::StrSliceExecFns;

/// Error produced while reading a card from text.
#[derive(Clone, Debug, PartialEq)]
pub enum ParseError {
    /// The value part is not a single digit.
    BadValue(String),
    /// The word part matches no known word code.
    BadWord(String),
    /// The word part is the explicit "no word" marker; not a failure when
    /// reading a whole card, only when reading a word alone.
    EmptyWord,
}

/// Outcome of one battle, seen from the side that asks.
#[derive(Clone, Copy, Debug, PartialEq, Eq, Structural)]
pub enum BattleOutcome {
    Loss,
    Tie,
    Win,
}

impl BattleOutcome {
    /// The same outcome with winner and loser exchanged; a tie stays a tie.
    pub open spec fn spec_invert(self) -> BattleOutcome {
        match self {
            BattleOutcome::Loss => BattleOutcome::Win,
            BattleOutcome::Tie => BattleOutcome::Tie,
            BattleOutcome::Win => BattleOutcome::Loss,
        }
    }
}

/// Card point value, an ordinal rank from zero to nine.
#[derive(Clone, Copy, Debug, PartialEq, Eq, Structural)]
pub enum Value {
    Zero,
    One,
    Two,
    Three,
    Four,
    Five,
    Six,
    Seven,
    Eight,
    Nine,
}

impl Value {
    /// The rank as a mathematical integer.
    pub open spec fn as_int(self) -> int {
        match self {
            Value::Zero => 0,
            Value::One => 1,
            Value::Two => 2,
            Value::Three => 3,
            Value::Four => 4,
            Value::Five => 5,
            Value::Six => 6,
            Value::Seven => 7,
            Value::Eight => 8,
            Value::Nine => 9,
        }
    }

    /// The rank as an executable number.
    pub fn points(&self) -> (r: i32)
        ensures
            r == self.as_int(),
    {
        match self {
            Value::Zero => 0,
            Value::One => 1,
            Value::Two => 2,
            Value::Three => 3,
            Value::Four => 4,
            Value::Five => 5,
            Value::Six => 6,
            Value::Seven => 7,
            Value::Eight => 8,
            Value::Nine => 9,
        }
    }

    /// Who wins on raw values: equal values tie, `Zero` beats `Nine`,
    /// `Nine` loses to `Zero`, and otherwise the higher value wins.
    pub open spec fn spec_beats(self, other: Value) -> BattleOutcome {
        if self == other {
            BattleOutcome::Tie
        } else if self is Zero && other is Nine {
            BattleOutcome::Win
        } else if self is Nine && other is Zero {
            BattleOutcome::Loss
        } else if self.as_int() > other.as_int() {
            BattleOutcome::Win
        } else {
            BattleOutcome::Loss
        }
    }

    /// Compare two values under the battle rules.  The zero-over-nine
    /// inversion is the single hard-coded exception to the ordinary order.
    pub fn beats(&self, other: &Self) -> (r: BattleOutcome)
        ensures
            r == self.spec_beats(*other),
    {
        proof {
            lemma_value_points_injective(*self, *other);
        }
        let a = self.points();
        let b = other.points();
        if a == b {
            BattleOutcome::Tie
        } else if a == 0 && b == 9 {
            BattleOutcome::Win
        } else if a == 9 && b == 0 {
            BattleOutcome::Loss
        } else if a > b {
            BattleOutcome::Win
        } else {
            BattleOutcome::Loss
        }
    }
}

/// Two distinct values have two distinct ranks.
proof fn lemma_value_points_injective(a: Value, b: Value)
    ensures
        a.as_int() == b.as_int() ==> a == b,
{
}

/// Additional effect a card may carry.
///
/// * `Egeq`: gives the player an extra seed.
/// * `Qube`: doubles the round's points.
/// * `Geh`: a card of value zero earns 12 points this round.
/// * `Zihbm`: the round's winner is swapped.
/// * `Het`, `Meb`: reserved, with no effect.
#[derive(Clone, Copy, Debug, PartialEq, Eq, Structural)]
pub enum WordOfPower {
    Egeq,
    Qube,
    Zihbm,
    Geh,
    Het,
    Meb,
}

impl WordOfPower {
    /// One-line description of the word's effect.
    pub fn flavor_text(&self) -> (r: &'static str)
        ensures
            *self is Egeq ==> r@ == "Gain a seed"@,
            *self is Qube ==> r@ == "Double points"@,
            *self is Zihbm ==> r@ == "Swap winners"@,
            *self is Geh ==> r@ == "Zero earns 12"@,
            *self is Het || *self is Meb ==> r@ == "Unimplemented"@,
    {
        match self {
            WordOfPower::Egeq => "Gain a seed",
            WordOfPower::Qube => "Double points",
            WordOfPower::Zihbm => "Swap winners",
            WordOfPower::Geh => "Zero earns 12",
            _ => "Unimplemented",
        }
    }
}

/// One playing card: a value and an optional word of power.
#[derive(Clone, Copy, Debug)]
pub struct Card {
    pub word: Option<WordOfPower>,
    pub value: Value,
}

impl PartialEq for Card {
    fn eq(&self, other: &Self) -> (r: bool) {
        let words_eq = match (self.word, other.word) {
            (Some(a), Some(b)) => a == b,
            (None, None) => true,
            _ => false,
        };
        words_eq && self.value == other.value
    }
}

impl vstd::std_specs::cmp::PartialEqSpecImpl for Card {
    open spec fn obeys_eq_spec() -> bool {
        true
    }

    open spec fn eq_spec(&self, other: &Card) -> bool {
        self.word == other.word && self.value == other.value
    }
}

impl Card {
    /// True when the card carries exactly this word.
    pub open spec fn has_word(self, w: WordOfPower) -> bool {
        self.word == Some(w)
    }

    /// True when the card swaps the round's winner.
    pub open spec fn spec_swaps(self) -> bool {
        self.has_word(WordOfPower::Zihbm)
    }

    /// Outcome of this card against `other`: the raw value comparison,
    /// inverted when exactly one of the two cards carries `Zihbm`.
    pub open spec fn spec_beats(self, other: Card) -> BattleOutcome {
        if self.spec_swaps() != other.spec_swaps() {
            self.value.spec_beats(other.value).spec_invert()
        } else {
            self.value.spec_beats(other.value)
        }
    }

    /// Compare two played cards, folding in their swap words.
    pub fn beats(&self, other: &Self) -> (r: BattleOutcome)
        ensures
            r == self.spec_beats(*other),
    {
        let swaps_self = matches!(self.word, Some(WordOfPower::Zihbm));
        let swaps_other = matches!(other.word, Some(WordOfPower::Zihbm));
        match (self.value.beats(&other.value), swaps_self != swaps_other) {
            (BattleOutcome::Loss, false) | (BattleOutcome::Win, true) => BattleOutcome::Loss,
            (BattleOutcome::Loss, true) | (BattleOutcome::Win, false) => BattleOutcome::Win,
            (BattleOutcome::Tie, _) => BattleOutcome::Tie,
        }
    }

    /// Highest score the card could still contribute: its face value plus
    /// the best case of its word (`Geh` pays 12; `Qube` doubles both face
    /// values, at best its own plus an opposing nine).
    pub open spec fn spec_max_value(self) -> int {
        self.value.as_int() + match self.word {
            Some(WordOfPower::Geh) => 12,
            Some(WordOfPower::Qube) => self.value.as_int() + 9,
            _ => 0,
        }
    }

    /// Optimistic bound on the card's contribution, for the remaining-score
    /// estimate; never used for actual scoring.
    pub fn max_value(&self) -> (r: i32)
        ensures
            r == self.spec_max_value(),
            0 <= r <= 27,
    {
        let value = self.value.points();
        let word_max_bonus: i32 = match self.word {
            Some(WordOfPower::Geh) => 12,
            Some(WordOfPower::Qube) => value + 9,
            _ => 0,
        };
        word_max_bonus + value
    }

    /// The card's face value as an executable number.
    pub fn value_i32(&self) -> (r: i32)
        ensures
            r == self.value.as_int(),
    {
        self.value.points()
    }

    /// Bonus points one side earns from the words in play, independent of
    /// who wins.  With `Geh` in play a zero-valued card is worth a flat 12
    /// instead of 0 (doubled to 24 when both cards carry `Geh`); each `Qube`
    /// in play pays every face value out once more through the bonus ledger.
    pub open spec fn spec_bonus_for(self, other: Card) -> int {
        let qube = Self::count_word(self, other, WordOfPower::Qube);
        let zero_amount = 12 * Self::count_word(self, other, WordOfPower::Geh);
        let zero_bonus = if self.value is Zero {
            zero_amount
        } else {
            0
        };
        zero_bonus * (qube + 1) + self.value.as_int() * qube
    }

    /// How many of the two cards carry the word `w`.
    pub open spec fn count_word(a: Card, b: Card, w: WordOfPower) -> int {
        (if a.has_word(w) {
            1int
        } else {
            0int
        }) + (if b.has_word(w) {
            1int
        } else {
            0int
        })
    }

    /// The pair of bonus amounts for a round, this card's side first.
    pub open spec fn spec_bonus_points(self, other: Card) -> (int, int) {
        (self.spec_bonus_for(other), other.spec_bonus_for(self))
    }

    /// Bonus points for both sides of a round, this card's side first.
    pub fn bonus_points(&self, other: &Self) -> (r: (i32, i32))
        ensures
            r.0 == self.spec_bonus_for(*other),
            r.1 == other.spec_bonus_for(*self),
            0 <= r.0 <= 90,
            0 <= r.1 <= 90,
    {
        let is_qube_self: i32 = if matches!(self.word, Some(WordOfPower::Qube)) {
            1
        } else {
            0
        };
        let is_qube_other: i32 = if matches!(other.word, Some(WordOfPower::Qube)) {
            1
        } else {
            0
        };
        let is_geh_self: i32 = if matches!(self.word, Some(WordOfPower::Geh)) {
            1
        } else {
            0
        };
        let is_geh_other: i32 = if matches!(other.word, Some(WordOfPower::Geh)) {
            1
        } else {
            0
        };
        let mul_bonus = is_qube_self + is_qube_other;
        let zero_amount = 12 * (is_geh_self + is_geh_other);
        let zero_self: i32 = if matches!(self.value, Value::Zero) {
            zero_amount
        } else {
            0
        };
        let zero_other: i32 = if matches!(other.value, Value::Zero) {
            zero_amount
        } else {
            0
        };
        proof {
            assert(0 <= zero_self * (mul_bonus + 1) <= 72) by (nonlinear_arith)
                requires
                    0 <= zero_self <= 24,
                    0 <= mul_bonus <= 2,
            ;
            assert(0 <= zero_other * (mul_bonus + 1) <= 72) by (nonlinear_arith)
                requires
                    0 <= zero_other <= 24,
                    0 <= mul_bonus <= 2,
            ;
            assert(0 <= self.value.as_int() * mul_bonus <= 18) by (nonlinear_arith)
                requires
                    0 <= self.value.as_int() <= 9,
                    0 <= mul_bonus <= 2,
            ;
            assert(0 <= other.value.as_int() * mul_bonus <= 18) by (nonlinear_arith)
                requires
                    0 <= other.value.as_int() <= 9,
                    0 <= mul_bonus <= 2,
            ;
        }
        (
            zero_self * (mul_bonus + 1) + self.value_i32() * mul_bonus,
            zero_other * (mul_bonus + 1) + other.value_i32() * mul_bonus,
        )
    }
}

/// The value a single digit character denotes.
pub open spec fn char_value(c: char) -> Option<Value> {
    if c == '0' {
        Some(Value::Zero)
    } else if c == '1' {
        Some(Value::One)
    } else if c == '2' {
        Some(Value::Two)
    } else if c == '3' {
        Some(Value::Three)
    } else if c == '4' {
        Some(Value::Four)
    } else if c == '5' {
        Some(Value::Five)
    } else if c == '6' {
        Some(Value::Six)
    } else if c == '7' {
        Some(Value::Seven)
    } else if c == '8' {
        Some(Value::Eight)
    } else if c == '9' {
        Some(Value::Nine)
    } else {
        None
    }
}

/// The word of power a code names, long or short form.
pub open spec fn word_token(s: Seq<char>) -> Option<WordOfPower> {
    if s == seq!['s', 'e', 'e', 'd'] || s == seq!['s'] {
        Some(WordOfPower::Egeq)
    } else if s == seq!['d', 'o', 'u', 'b'] || s == seq!['d'] {
        Some(WordOfPower::Qube)
    } else if s == seq!['s', 'w', 'a', 'p'] || s == seq!['w'] {
        Some(WordOfPower::Zihbm)
    } else if s == seq!['z', 'e', 'r', 'o'] || s == seq!['z'] {
        Some(WordOfPower::Geh)
    } else if s == seq!['h', 'e', 't'] {
        Some(WordOfPower::Het)
    } else if s == seq!['m', 'e', 'b'] {
        Some(WordOfPower::Meb)
    } else {
        None
    }
}

/// The marker that spells out the absence of a word on a card.
pub open spec fn empty_word_marker(s: Seq<char>) -> bool {
    s == seq!['_'] || s == seq!['_', '_', '_', '_']
}

/// The no-word marker is not itself a word code.
pub proof fn lemma_marker_not_word(s: Seq<char>)
    requires
        empty_word_marker(s),
    ensures
        word_token(s) is None,
{
    if s == seq!['_'] {
        assert(s.len() == 1);
        assert(s[0] == '_');
    } else {
        assert(s == seq!['_', '_', '_', '_']);
        assert(s.len() == 4);
        assert(s[0] == '_' && s[1] == '_' && s[2] == '_' && s[3] == '_');
    }
}

/// The card a whole token denotes: its first character is the value digit,
/// the rest a word code or the no-word marker.
pub open spec fn token_card(t: Seq<char>) -> Option<Card> {
    if t.len() == 0 {
        None
    } else {
        match char_value(t[0]) {
            Some(value) => match word_token(t.skip(1)) {
                Some(word) => Some(Card { word: Some(word), value }),
                None => if empty_word_marker(t.skip(1)) {
                    Some(Card { word: None, value })
                } else {
                    None
                },
            },
            None => None,
        }
    }
}

impl Value {
    /// The value a digit character denotes, if any.
    pub fn from_char(c: char) -> (r: Option<Value>)
        ensures
            r == char_value(c),
    {
        if c == '0' {
            Some(Value::Zero)
        } else if c == '1' {
            Some(Value::One)
        } else if c == '2' {
            Some(Value::Two)
        } else if c == '3' {
            Some(Value::Three)
        } else if c == '4' {
            Some(Value::Four)
        } else if c == '5' {
            Some(Value::Five)
        } else if c == '6' {
            Some(Value::Six)
        } else if c == '7' {
            Some(Value::Seven)
        } else if c == '8' {
            Some(Value::Eight)
        } else if c == '9' {
            Some(Value::Nine)
        } else {
            None
        }
    }

    /// Read a value from text: a single digit character.
    pub fn from_str(s: &str) -> (r: Result<Value, ParseError>)
        ensures
            match r {
                Ok(v) => s@.len() == 1 && char_value(s@[0]) == Some(v),
                Err(ParseError::BadValue(m)) => (s@.len() != 1 || char_value(s@[0]) is None) && m@
                    == s@,
                Err(_) => false,
            },
    {
        if s.unicode_len() == 1 {
            if let Some(v) = Value::from_char(s.get_char(0)) {
                return Ok(v);
            }
        }
        Err(ParseError::BadValue(s.to_owned()))
    }
}

impl WordOfPower {
    /// Read a word of power from text: one of the word codes, long or
    /// short.  The no-word marker is reported as [`ParseError::EmptyWord`].
    pub fn from_str(s: &str) -> (r: Result<WordOfPower, ParseError>)
        ensures
            match r {
                Ok(w) => word_token(s@) == Some(w),
                Err(ParseError::EmptyWord) => empty_word_marker(s@),
                Err(ParseError::BadWord(m)) => word_token(s@) is None && !empty_word_marker(s@)
                    && m@ == s@,
                Err(ParseError::BadValue(_)) => false,
            },
    {
        let n = s.unicode_len();
        if n == 1 {
            let c = s.get_char(0);
            proof {
                assert(c == s@[0]);
                assert(s@ =~= seq![s@[0]]);
            }
            if c == 's' {
                return Ok(WordOfPower::Egeq);
            } else if c == 'd' {
                return Ok(WordOfPower::Qube);
            } else if c == 'w' {
                return Ok(WordOfPower::Zihbm);
            } else if c == 'z' {
                return Ok(WordOfPower::Geh);
            } else if c == '_' {
                return Err(ParseError::EmptyWord);
            }
        } else if n == 3 {
            let c0 = s.get_char(0);
            let c1 = s.get_char(1);
            let c2 = s.get_char(2);
            proof {
                assert(s@ =~= seq![s@[0], s@[1], s@[2]]);
            }
            if c0 == 'h' && c1 == 'e' && c2 == 't' {
                return Ok(WordOfPower::Het);
            } else if c0 == 'm' && c1 == 'e' && c2 == 'b' {
                return Ok(WordOfPower::Meb);
            }
        } else if n == 4 {
            let c0 = s.get_char(0);
            let c1 = s.get_char(1);
            let c2 = s.get_char(2);
            let c3 = s.get_char(3);
            proof {
                assert(s@ =~= seq![s@[0], s@[1], s@[2], s@[3]]);
            }
            if c0 == 's' && c1 == 'e' && c2 == 'e' && c3 == 'd' {
                return Ok(WordOfPower::Egeq);
            } else if c0 == 'd' && c1 == 'o' && c2 == 'u' && c3 == 'b' {
                return Ok(WordOfPower::Qube);
            } else if c0 == 's' && c1 == 'w' && c2 == 'a' && c3 == 'p' {
                return Ok(WordOfPower::Zihbm);
            } else if c0 == 'z' && c1 == 'e' && c2 == 'r' && c3 == 'o' {
                return Ok(WordOfPower::Geh);
            } else if c0 == '_' && c1 == '_' && c2 == '_' && c3 == '_' {
                return Err(ParseError::EmptyWord);
            }
        }
        Err(ParseError::BadWord(s.to_owned()))
    }
}

impl Card {
    /// Read a card from text: a value digit followed by a word code or the
    /// no-word marker.  A bad digit is reported before a bad word.
    pub fn from_str(s: &str) -> (r: Result<Card, ParseError>)
        requires
            s@.len() >= 1,
        ensures
            match r {
                Ok(c) => token_card(s@) == Some(c),
                Err(ParseError::BadValue(m)) => char_value(s@[0]) is None && m@ == s@.take(1),
                Err(ParseError::BadWord(m)) => char_value(s@[0]) is Some && word_token(s@.skip(1))
                    is None && !empty_word_marker(s@.skip(1)) && m@ == s@.skip(1),
                Err(ParseError::EmptyWord) => false,
            },
    {
        let n = s.unicode_len();
        let value = match Value::from_char(s.get_char(0)) {
            Some(v) => v,
            None => {
                let m = s.substring_char(0, 1).to_owned();
                proof {
                    assert(m@ =~= s@.take(1));
                }
                return Err(ParseError::BadValue(m));
            },
        };
        let word_part = s.substring_char(1, n);
        proof {
            assert(word_part@ =~= s@.skip(1));
        }
        match WordOfPower::from_str(word_part) {
            Ok(word) => Ok(Card { word: Some(word), value }),
            Err(e) => {
                if matches!(e, ParseError::EmptyWord) {
                    proof {
                        lemma_marker_not_word(s@.skip(1));
                    }
                    Ok(Card { word: None, value })
                } else {
                    Err(e)
                }
            },
        }
    }
}

/// Every value ties against itself.
pub proof fn lemma_value_beats_itself(v: Value)
    ensures
        v.spec_beats(v) == BattleOutcome::Tie,
{
}

/// `Zero` beats `Nine` and `Nine` loses to `Zero` — the sole inversion —
/// and every other pair of distinct values goes to the higher value.
pub proof fn lemma_value_beats_table(a: Value, b: Value)
    ensures
        Value::Zero.spec_beats(Value::Nine) == BattleOutcome::Win,
        Value::Nine.spec_beats(Value::Zero) == BattleOutcome::Loss,
        a != b && !(a is Zero && b is Nine) && !(a is Nine && b is Zero) ==> a.spec_beats(b)
            == if a.as_int() > b.as_int() {
            BattleOutcome::Win
        } else {
            BattleOutcome::Loss
        },
{
}

/// Exactly one swap word across the two cards inverts a non-tie outcome;
/// with both or neither the raw outcome stands; a tie is never affected.
pub proof fn lemma_swap_inverts(a: Card, b: Card)
    ensures
        a.spec_swaps() != b.spec_swaps() ==> a.spec_beats(b) == a.value.spec_beats(
            b.value,
        ).spec_invert(),
        a.spec_swaps() == b.spec_swaps() ==> a.spec_beats(b) == a.value.spec_beats(b.value),
        a.value.spec_beats(b.value) is Tie ==> a.spec_beats(b) is Tie,
{
}

/// Bonus points are symmetric: swapping the arguments swaps the pair.
pub proof fn lemma_bonus_points_symmetric(a: Card, b: Card)
    ensures
        a.spec_bonus_points(b) == (b.spec_bonus_points(a).1, b.spec_bonus_points(a).0),
{
}

} // verus!
