//! The draw deck: an ordered stack of cards, drawn from the tail.

use vstd::prelude::*;

use crate::war::{Card, ParseError, char_value, token_card};

verus! {

use vstd::string::StrSliceExecFns;

/// An ordered stack of cards.  The sequence handed to [`Deck::new`] is
/// reversed once at construction, so drawing from the tail hands cards out
/// in the source order.
pub struct Deck {
    cards: Vec<Card>,
}

impl View for Deck {
    type V = Seq<Card>;

    closed spec fn view(&self) -> Seq<Card> {
        self.cards@
    }
}

/// Sum of [`Card::spec_max_value`] over a sequence of cards.
pub open spec fn max_value_sum(cards: Seq<Card>) -> int
    decreases cards.len(),
{
    if cards.len() == 0 {
        0
    } else {
        max_value_sum(cards.drop_last()) + cards.last().spec_max_value()
    }
}

/// Every card's optimistic value lies between 0 and 27, so the sum over a
/// sequence is bounded by 27 times its length.
pub proof fn lemma_max_value_sum_bounds(cards: Seq<Card>)
    ensures
        0 <= max_value_sum(cards) <= 27 * cards.len(),
    decreases cards.len(),
{
    if cards.len() > 0 {
        lemma_max_value_sum_bounds(cards.drop_last());
    }
}

/// The sum over a concatenation is the sum of the two sums.
pub proof fn lemma_max_value_sum_concat(a: Seq<Card>, b: Seq<Card>)
    ensures
        max_value_sum(a + b) == max_value_sum(a) + max_value_sum(b),
    decreases b.len(),
{
    if b.len() == 0 {
        assert(a + b =~= a);
    } else {
        assert((a + b).drop_last() =~= a + b.drop_last());
        lemma_max_value_sum_concat(a, b.drop_last());
    }
}

impl Deck {
    /// Build a deck from cards in source order; the first card of `cards`
    /// ends at the bottom of the reversed stack and is drawn first.
    pub fn new(cards: Vec<Card>) -> (d: Deck)
        ensures
            d@ == cards@.reverse(),
    {
        let mut stack: Vec<Card> = Vec::new();
        let mut i = cards.len();
        while i > 0
            invariant
                i <= cards.len(),
                stack@.len() == cards@.len() - i,
                forall|j: int| 0 <= j < stack@.len() ==> stack@[j] == cards@[cards@.len() - 1 - j],
            decreases i,
        {
            i = i - 1;
            let card = cards[i].clone();
            stack.push(card);
        }
        proof {
            assert(stack@ =~= cards@.reverse());
        }
        Deck { cards: stack }
    }

    /// Remove up to `count` cards from the tail of the stack and hand them
    /// out in stack order.  Drawing more than remain returns only what
    /// remains; the deck keeps the untouched prefix.
    pub fn draw(&mut self, count: usize) -> (drawn: Vec<Card>)
        ensures
            final(self)@ == old(self)@.take(old(self)@.len() - spec_min(count as int, old(self)@.len() as int)),
            drawn@ == old(self)@.skip(old(self)@.len() - spec_min(count as int, old(self)@.len() as int)),
            final(self)@.len() == old(self)@.len() - spec_min(count as int, old(self)@.len() as int),
    {
        let len = self.cards.len();
        let take_count = if count < len {
            count
        } else {
            len
        };
        let index = len - take_count;
        let drawn = self.cards.split_off(index);
        proof {
            assert(self.cards@ =~= old(self)@.take(index as int));
            assert(drawn@ =~= old(self)@.skip(index as int));
        }
        drawn
    }

    /// How many cards have not been drawn yet.
    pub fn remaining(&self) -> (r: usize)
        ensures
            r == self@.len(),
    {
        self.cards.len()
    }

    /// The highest score the undrawn cards could still contribute.
    pub fn score(&self) -> (r: i32)
        requires
            max_value_sum(self@) <= i32::MAX,
        ensures
            r == max_value_sum(self@),
    {
        cards_max_score(&self.cards)
    }
}

/// The highest score a set of cards could still contribute: the sum of
/// every card's optimistic value.
pub fn cards_max_score(cards: &Vec<Card>) -> (r: i32)
    requires
        max_value_sum(cards@) <= i32::MAX,
    ensures
        r == max_value_sum(cards@),
{
    let mut total: i32 = 0;
    let mut i: usize = 0;
    while i < cards.len()
        invariant
            i <= cards@.len(),
            total == max_value_sum(cards@.take(i as int)),
            max_value_sum(cards@) <= i32::MAX,
        decreases cards@.len() - i,
    {
        proof {
            assert(cards@.take(i as int + 1).drop_last() =~= cards@.take(i as int));
            lemma_max_value_sum_bounds(cards@.take(i as int + 1));
            lemma_max_value_sum_concat(cards@.take(i as int + 1), cards@.skip(i as int + 1));
            assert(cards@.take(i as int + 1) + cards@.skip(i as int + 1) =~= cards@);
            lemma_max_value_sum_bounds(cards@.skip(i as int + 1));
        }
        let value = cards[i].max_value();
        total = total + value;
        i = i + 1;
    }
    proof {
        assert(cards@.take(cards@.len() as int) =~= cards@);
    }
    total
}

/// The smaller of two integers.
pub open spec fn spec_min(a: int, b: int) -> int {
    if a < b {
        a
    } else {
        b
    }
}

/// The characters deck text is split on.
pub open spec fn is_deck_space(c: char) -> bool {
    c == ' ' || c == '\t' || c == '\n' || c == '\x0c' || c == '\r'
}

/// The whitespace-separated tokens of `s`, with `cur` the token begun just
/// before `s`.
pub open spec fn split_tokens(s: Seq<char>, cur: Seq<char>) -> Seq<Seq<char>>
    decreases s.len(),
{
    if s.len() == 0 {
        if cur.len() == 0 {
            Seq::empty()
        } else {
            seq![cur]
        }
    } else if is_deck_space(s.first()) {
        if cur.len() == 0 {
            split_tokens(s.drop_first(), Seq::empty())
        } else {
            seq![cur] + split_tokens(s.drop_first(), Seq::empty())
        }
    } else {
        split_tokens(s.drop_first(), cur.push(s.first()))
    }
}

/// The whitespace-separated tokens of a deck text.
pub open spec fn deck_tokens(s: Seq<char>) -> Seq<Seq<char>> {
    split_tokens(s, Seq::empty())
}

/// The cards the tokens denote, in text order; nothing when any token is
/// no card.
pub open spec fn parse_tokens(toks: Seq<Seq<char>>) -> Option<Seq<Card>>
    decreases toks.len(),
{
    if toks.len() == 0 {
        Some(Seq::empty())
    } else {
        match token_card(toks.first()) {
            Some(card) => match parse_tokens(toks.drop_first()) {
                Some(rest) => Some(seq![card] + rest),
                None => None,
            },
            None => None,
        }
    }
}

/// The first token that is no card, in a token list that has one.
pub open spec fn first_bad_token(toks: Seq<Seq<char>>) -> Seq<char>
    recommends
        parse_tokens(toks) is None,
    decreases toks.len(),
{
    if toks.len() == 0 {
        Seq::empty()
    } else if token_card(toks.first()) is None {
        toks.first()
    } else {
        first_bad_token(toks.drop_first())
    }
}

/// The parse error a bad token is reported as: its first character when
/// that is no digit, else its word part.
pub open spec fn token_error_matches(t: Seq<char>, e: ParseError) -> bool {
    if t.len() == 0 {
        false
    } else if char_value(t[0]) is None {
        e matches ParseError::BadValue(m) && m@ == t.take(1)
    } else {
        e matches ParseError::BadWord(m) && m@ == t.skip(1)
    }
}

/// Appending one valid token appends its card.
pub proof fn lemma_parse_tokens_snoc(toks: Seq<Seq<char>>, t: Seq<char>, cards: Seq<Card>, c: Card)
    requires
        parse_tokens(toks) == Some(cards),
        token_card(t) == Some(c),
    ensures
        parse_tokens(toks.push(t)) == Some(cards.push(c)),
    decreases toks.len(),
{
    let pushed = toks.push(t);
    assert(pushed.len() == toks.len() + 1);
    if toks.len() == 0 {
        assert(pushed.first() == t);
        assert(pushed.drop_first() =~= Seq::<Seq<char>>::empty());
        assert(parse_tokens(pushed.drop_first()) == Some(Seq::<Card>::empty()));
        assert(parse_tokens(pushed) == Some(seq![c] + Seq::<Card>::empty()));
        assert(cards =~= Seq::<Card>::empty());
        assert(seq![c] + Seq::<Card>::empty() =~= cards.push(c));
    } else {
        let head = token_card(toks.first())->Some_0;
        let rest = parse_tokens(toks.drop_first())->Some_0;
        assert(cards == seq![head] + rest);
        lemma_parse_tokens_snoc(toks.drop_first(), t, rest, c);
        assert(pushed.first() == toks.first());
        assert(pushed.drop_first() =~= toks.drop_first().push(t));
        assert(parse_tokens(pushed.drop_first()) == Some(rest.push(c)));
        assert(parse_tokens(pushed) == Some(seq![head] + rest.push(c)));
        assert(seq![head] + rest.push(c) =~= (seq![head] + rest).push(c));
    }
}

/// A bad suffix after valid tokens keeps the whole list bad, and keeps its
/// own first bad token.
pub proof fn lemma_parse_tokens_bad_suffix(toks: Seq<Seq<char>>, bad: Seq<Seq<char>>)
    requires
        parse_tokens(toks) is Some,
        parse_tokens(bad) is None,
    ensures
        parse_tokens(toks + bad) is None,
        first_bad_token(toks + bad) == first_bad_token(bad),
    decreases toks.len(),
{
    if toks.len() == 0 {
        assert(toks + bad =~= bad);
    } else {
        assert((toks + bad).first() == toks.first());
        assert((toks + bad).drop_first() =~= toks.drop_first() + bad);
        lemma_parse_tokens_bad_suffix(toks.drop_first(), bad);
    }
}

impl Deck {
    /// Read a whole deck from text: whitespace-separated card tokens, in
    /// source order.  The first token that is no card decides the error.
    pub fn from_str(s: &str) -> (r: Result<Deck, ParseError>)
        ensures
            match r {
                Ok(d) => parse_tokens(deck_tokens(s@)) matches Some(cards) && d@ == cards.reverse(),
                Err(e) => parse_tokens(deck_tokens(s@)) is None && token_error_matches(
                    first_bad_token(deck_tokens(s@)),
                    e,
                ),
            },
    {
        let n = s.unicode_len();
        let mut cards: Vec<Card> = Vec::new();
        let mut token_start: Option<usize> = None;
        let mut i: usize = 0;
        let ghost mut consumed: Seq<Seq<char>> = Seq::empty();
        proof {
            assert(s@.skip(0) =~= s@);
            assert(Seq::<Seq<char>>::empty() + split_tokens(s@, Seq::empty()) =~= split_tokens(
                s@,
                Seq::empty(),
            ));
        }
        while i < n
            invariant
                n == s@.len(),
                i <= n,
                token_start matches Some(st) ==> st < i,
                deck_tokens(s@) == consumed + split_tokens(
                    s@.skip(i as int),
                    match token_start {
                        Some(st) => s@.subrange(st as int, i as int),
                        None => Seq::empty(),
                    },
                ),
                parse_tokens(consumed) == Some(cards@),
            decreases n - i,
        {
            let c = s.get_char(i);
            proof {
                assert(s@.skip(i as int).first() == s@[i as int]);
                assert(s@.skip(i as int).drop_first() =~= s@.skip(i as int + 1));
            }
            if is_space_char(c) {
                if let Some(st) = token_start {
                    let ghost t = s@.subrange(st as int, i as int);
                    proof {
                        assert(t.len() > 0);
                        assert(split_tokens(s@.skip(i as int), t) == seq![t] + split_tokens(
                            s@.skip(i as int + 1),
                            Seq::empty(),
                        ));
                    }
                    let token_text = s.substring_char(st, i);
                    match Card::from_str(token_text) {
                        Ok(card) => {
                            proof {
                                lemma_parse_tokens_snoc(consumed, t, cards@, card);
                                assert(consumed.push(t) =~= consumed + seq![t]);
                                assert((consumed + seq![t]) + split_tokens(
                                    s@.skip(i as int + 1),
                                    Seq::empty(),
                                ) =~= consumed + (seq![t] + split_tokens(
                                    s@.skip(i as int + 1),
                                    Seq::empty(),
                                )));
                                consumed = consumed.push(t);
                            }
                            cards.push(card);
                            token_start = None;
                        },
                        Err(e) => {
                            proof {
                                let bad = split_tokens(s@.skip(i as int), t);
                                assert(bad.first() == t);
                                assert(token_card(t) is None);
                                lemma_parse_tokens_bad_suffix(consumed, bad);
                            }
                            return Err(e);
                        },
                    }
                }
            } else {
                match token_start {
                    None => {
                        proof {
                            assert(Seq::<char>::empty().push(s@[i as int]) =~= s@.subrange(
                                i as int,
                                i as int + 1,
                            ));
                        }
                        token_start = Some(i);
                    },
                    Some(st) => {
                        proof {
                            assert(s@.subrange(st as int, i as int).push(s@[i as int])
                                =~= s@.subrange(st as int, i as int + 1));
                        }
                    },
                }
            }
            i = i + 1;
        }
        proof {
            assert(s@.skip(n as int) =~= Seq::<char>::empty());
        }
        if let Some(st) = token_start {
            let ghost t = s@.subrange(st as int, n as int);
            proof {
                assert(t.len() > 0);
                assert(split_tokens(s@.skip(n as int), t) == seq![t]);
            }
            let token_text = s.substring_char(st, n);
            match Card::from_str(token_text) {
                Ok(card) => {
                    proof {
                        lemma_parse_tokens_snoc(consumed, t, cards@, card);
                        assert(consumed.push(t) =~= consumed + seq![t]);
                        consumed = consumed.push(t);
                    }
                    cards.push(card);
                },
                Err(e) => {
                    proof {
                        assert(seq![t].first() == t);
                        assert(token_card(t) is None);
                        lemma_parse_tokens_bad_suffix(consumed, seq![t]);
                    }
                    return Err(e);
                },
            }
        } else {
            proof {
                assert(consumed + split_tokens(Seq::empty(), Seq::empty()) =~= consumed);
            }
        }
        Ok(Deck::new(cards))
    }
}

/// Whether deck text splits on this character.
fn is_space_char(c: char) -> (r: bool)
    ensures
        r == is_deck_space(c),
{
    c == ' ' || c == '\t' || c == '\n' || c == '\x0c' || c == '\r'
}

} // verus!
