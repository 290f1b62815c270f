use vstd::prelude::*;

verus! {

/// A single card of the game: a skull, a rose, or a card whose face is hidden.
#[derive(Debug, Clone, Copy, PartialEq, Eq, Structural)]
pub enum Card {
    Skull,
    Rose,
    Unknown,
}

/// How many cards of each kind a hand holds.
#[derive(Debug, Clone, Copy, PartialEq, Eq, Structural)]
pub struct Cards {
    pub skulls: u8,
    pub roses: u8,
    pub unknown: u8,
}

/// The number of times `card` occurs in `cards`.
pub open spec fn occurrences(cards: Seq<Card>, card: Card) -> int
    decreases cards.len(),
{
    if cards.len() == 0 {
        0
    } else {
        occurrences(cards.drop_last(), card) + if cards.last() == card {
            1int
        } else {
            0int
        }
    }
}

/// Appending one card adds one occurrence of that card and none of the others.
pub proof fn lemma_occurrences_push(cards: Seq<Card>, x: Card, card: Card)
    ensures
        occurrences(cards.push(x), card) == occurrences(cards, card) + if x == card {
            1int
        } else {
            0int
        },
{
    assert(cards.push(x).drop_last() =~= cards);
}

/// Occurrences in a concatenation add up.
pub proof fn lemma_occurrences_concat(a: Seq<Card>, b: Seq<Card>, card: Card)
    ensures
        occurrences(a + b, card) == occurrences(a, card) + occurrences(b, card),
    decreases b.len(),
{
    if b.len() == 0 {
        assert(a + b =~= a);
    } else {
        lemma_occurrences_concat(a, b.drop_last(), card);
        assert((a + b).drop_last() =~= a + b.drop_last());
    }
}

/// Occurrences are never negative.
pub proof fn lemma_occurrences_nonneg(cards: Seq<Card>, card: Card)
    ensures
        occurrences(cards, card) >= 0,
    decreases cards.len(),
{
    if cards.len() > 0 {
        lemma_occurrences_nonneg(cards.drop_last(), card);
    }
}

/// Occurrences of the first `i + 1` cards, in terms of the first `i`.
pub proof fn lemma_occurrences_take_step(cards: Seq<Card>, i: int, card: Card)
    requires
        0 <= i < cards.len(),
    ensures
        occurrences(cards.take(i + 1), card) == occurrences(cards.take(i), card) + if cards[i]
            == card {
            1int
        } else {
            0int
        },
        occurrences(cards.take(i + 1), card) <= occurrences(cards, card),
{
    assert(cards.take(i + 1) =~= cards.take(i).push(cards[i]));
    lemma_occurrences_push(cards.take(i), cards[i], card);
    assert(cards =~= cards.take(i + 1) + cards.skip(i + 1));
    lemma_occurrences_concat(cards.take(i + 1), cards.skip(i + 1), card);
    lemma_occurrences_nonneg(cards.skip(i + 1), card);
}

/// Moving the count of one kind changes that count by exactly the amount and leaves
/// the counts of the other kinds; moving it up by one and back down restores it.
pub proof fn lemma_adjust_one_kind(c: Cards, card: Card, k: Card, delta: int)
    requires
        0 <= c.count(card) + delta <= 255,
    ensures
        c.adjusted(card, delta).count(card) == c.count(card) + delta,
        k != card ==> c.adjusted(card, delta).count(k) == c.count(k),
        c.count(card) < 255 ==> c.adjusted(card, 1).adjusted(card, -1) == c,
{
}

impl Cards {
    /// The number of cards of kind `card`.
    pub open spec fn count(self, card: Card) -> int {
        match card {
            Card::Skull => self.skulls as int,
            Card::Rose => self.roses as int,
            Card::Unknown => self.unknown as int,
        }
    }

    /// These counts with the count of kind `card` moved by `delta`.
    pub open spec fn adjusted(self, card: Card, delta: int) -> Cards {
        match card {
            Card::Skull => Cards {
                skulls: (self.skulls + delta) as u8,
                roses: self.roses,
                unknown: self.unknown,
            },
            Card::Rose => Cards {
                skulls: self.skulls,
                roses: (self.roses + delta) as u8,
                unknown: self.unknown,
            },
            Card::Unknown => Cards {
                skulls: self.skulls,
                roses: self.roses,
                unknown: (self.unknown + delta) as u8,
            },
        }
    }

    /// Whether at least one card of kind `card` is held.
    pub fn contains(&self, card: &Card) -> (r: bool)
        ensures
            r == (self.count(*card) > 0),
    {
        match card {
            Card::Skull => self.skulls > 0,
            Card::Rose => self.roses > 0,
            Card::Unknown => self.unknown > 0,
        }
    }

    /// Adds one card of kind `card`.
    pub fn increment(&mut self, card: &Card)
        requires
            old(self).count(*card) < 255,
        ensures
            *final(self) == old(self).adjusted(*card, 1),
    {
        match card {
            Card::Skull => self.skulls = self.skulls + 1,
            Card::Rose => self.roses = self.roses + 1,
            Card::Unknown => self.unknown = self.unknown + 1,
        }
    }

    /// Takes away one card of kind `card`.
    pub fn decrement(&mut self, card: &Card)
        requires
            old(self).count(*card) > 0,
        ensures
            *final(self) == old(self).adjusted(*card, -1),
    {
        match card {
            Card::Skull => self.skulls = self.skulls - 1,
            Card::Rose => self.roses = self.roses - 1,
            Card::Unknown => self.unknown = self.unknown - 1,
        }
    }

    /// The number of cards held, of all kinds.
    pub fn total(&self) -> (r: u8)
        requires
            self.skulls + self.roses + self.unknown <= 255,
        ensures
            r == self.skulls + self.roses + self.unknown,
    {
        self.skulls + self.roses + self.unknown
    }
}

} // verus!
