use vstd::prelude::*;

use crate::cards::{
    Card,
    Cards,
    occurrences,
    lemma_occurrences_push,
    lemma_occurrences_take_step,
    lemma_occurrences_nonneg,
};

verus! {

/// What one player holds and has done: points, the current bid, the cards in hand,
/// the cards laid face down on the table and the cards turned up.
#[derive(Debug, Clone)]
pub struct PlayerState {
    pub points: bool,
    pub bid: u8,
    pub cards_in_hand: Cards,
    pub cards_in_play: Vec<Card>,
    pub cards_revealed: Vec<Card>,
}

/// The mathematical value of a [`PlayerState`].
pub struct PlayerView {
    pub points: bool,
    pub bid: u8,
    pub hand: Cards,
    pub in_play: Seq<Card>,
    pub revealed: Seq<Card>,
}

impl View for PlayerState {
    type V = PlayerView;

    open spec fn view(&self) -> PlayerView {
        PlayerView {
            points: self.points,
            bid: self.bid,
            hand: self.cards_in_hand,
            in_play: self.cards_in_play@,
            revealed: self.cards_revealed@,
        }
    }
}

/// The state every player starts with: one skull and three roses in hand.
pub open spec fn fresh_player() -> PlayerView {
    PlayerView {
        points: false,
        bid: 0,
        hand: Cards { skulls: 1, roses: 3, unknown: 0 },
        in_play: Seq::empty(),
        revealed: Seq::empty(),
    }
}

/// A move of a player on its own cards.
pub enum Move {
    /// Lay a card of this kind from the hand onto the table.
    Play(Card),
    /// Turn up the top card of the table stack.
    Reveal,
}

/// The player after the move `m`; a move that cannot be made changes nothing.
pub open spec fn step(p: PlayerView, m: Move) -> PlayerView {
    match m {
        Move::Play(card) => if p.hand.count(card) > 0 {
            p.played(card)
        } else {
            p
        },
        Move::Reveal => if p.in_play.len() > 0 {
            p.revealed_top()
        } else {
            p
        },
    }
}

/// The player after the moves `ms`, in order.
pub open spec fn after_moves(p: PlayerView, ms: Seq<Move>) -> PlayerView
    decreases ms.len(),
{
    if ms.len() == 0 {
        p
    } else {
        step(after_moves(p, ms.drop_last()), ms.last())
    }
}

impl PlayerView {
    /// How many cards of kind `card` the player owns, wherever they lie.
    pub open spec fn holding(self, card: Card) -> int {
        self.hand.count(card) + occurrences(self.in_play, card) + occurrences(self.revealed, card)
    }

    /// The player after laying `card` from the hand onto the table.
    pub open spec fn played(self, card: Card) -> PlayerView {
        PlayerView {
            hand: self.hand.adjusted(card, -1),
            in_play: self.in_play.push(card),
            ..self
        }
    }

    /// The player after turning up the top card of the table stack.
    pub open spec fn revealed_top(self) -> PlayerView {
        PlayerView {
            in_play: self.in_play.drop_last(),
            revealed: self.revealed.push(self.in_play.last()),
            ..self
        }
    }

    /// The player after taking every card on the table back into the hand.
    pub open spec fn recalled(self) -> PlayerView {
        PlayerView {
            hand: Cards {
                skulls: self.holding(Card::Skull) as u8,
                roses: self.holding(Card::Rose) as u8,
                unknown: self.holding(Card::Unknown) as u8,
            },
            in_play: Seq::empty(),
            revealed: Seq::empty(),
            ..self
        }
    }

    /// The player as an opponent sees it: the hand only as a number of
    /// hidden cards, the table stack face down.
    pub open spec fn obscured(self) -> PlayerView {
        PlayerView {
            hand: Cards {
                skulls: 0,
                roses: 0,
                unknown: (self.hand.roses + self.hand.skulls) as u8,
            },
            in_play: Seq::new(self.in_play.len(), |i: int| Card::Unknown),
            ..self
        }
    }

    /// Whether `recall` stays within the range of a hand's counters.
    pub open spec fn can_recall(self) -> bool {
        &&& self.holding(Card::Skull) <= 255
        &&& self.holding(Card::Rose) <= 255
        &&& self.holding(Card::Unknown) <= 255
    }

    /// Whether `obscure` stays within the range of a hand's counters.
    pub open spec fn can_obscure(self) -> bool {
        self.hand.roses + self.hand.skulls <= 255
    }
}

impl PlayerState {
    /// A player with one skull and three roses in hand and nothing on the table.
    pub fn new() -> (r: PlayerState)
        ensures
            r@ == fresh_player(),
    {
        PlayerState {
            points: false,
            bid: 0,
            cards_in_hand: Cards { skulls: 1, roses: 3, unknown: 0 },
            cards_in_play: Vec::new(),
            cards_revealed: Vec::new(),
        }
    }

    /// A copy of this player.
    pub fn duplicate(&self) -> (r: PlayerState)
        ensures
            r@ == self@,
    {
        let mut in_play: Vec<Card> = Vec::new();
        let mut i: usize = 0;
        while i < self.cards_in_play.len()
            invariant
                i <= self.cards_in_play.len(),
                in_play@ =~= self.cards_in_play@.take(i as int),
            decreases self.cards_in_play.len() - i,
        {
            in_play.push(self.cards_in_play[i]);
            i = i + 1;
            assert(in_play@ =~= self.cards_in_play@.take(i as int));
        }
        let mut revealed: Vec<Card> = Vec::new();
        let mut j: usize = 0;
        while j < self.cards_revealed.len()
            invariant
                j <= self.cards_revealed.len(),
                revealed@ =~= self.cards_revealed@.take(j as int),
            decreases self.cards_revealed.len() - j,
        {
            revealed.push(self.cards_revealed[j]);
            j = j + 1;
            assert(revealed@ =~= self.cards_revealed@.take(j as int));
        }
        assert(in_play@ =~= self.cards_in_play@);
        assert(revealed@ =~= self.cards_revealed@);
        PlayerState {
            points: self.points,
            bid: self.bid,
            cards_in_hand: self.cards_in_hand,
            cards_in_play: in_play,
            cards_revealed: revealed,
        }
    }

    /// Lays `card` from the hand onto the table, if the hand holds one;
    /// returns whether it did.
    pub fn play(&mut self, card: &Card) -> (r: bool)
        ensures
            r == (old(self)@.hand.count(*card) > 0),
            r ==> final(self)@ == old(self)@.played(*card),
            !r ==> final(self)@ == old(self)@,
            final(self)@ == step(old(self)@, Move::Play(*card)),
    {
        if self.cards_in_hand.contains(card) {
            self.cards_in_hand.decrement(card);
            self.cards_in_play.push(*card);
            true
        } else {
            false
        }
    }

    /// Turns up the top card of the table stack, if there is one;
    /// returns whether it did.
    pub fn reveal_card(&mut self) -> (r: bool)
        ensures
            r == (old(self)@.in_play.len() > 0),
            r ==> final(self)@ == old(self)@.revealed_top(),
            !r ==> final(self)@ == old(self)@,
            final(self)@ == step(old(self)@, Move::Reveal),
    {
        if self.cards_in_play.len() > 0 {
            let top = self.cards_in_play.pop();
            match top {
                Some(c) => {
                    self.cards_revealed.push(c);
                },
                None => {},
            }
            true
        } else {
            false
        }
    }

    /// Takes every card on the table, face down or turned up, back into the hand.
    pub fn recall(&mut self)
        requires
            old(self)@.can_recall(),
        ensures
            final(self)@ == old(self)@.recalled(),
    {
        let ghost start = self@;
        let n = self.cards_in_play.len();
        let mut i: usize = 0;
        while i < n
            invariant
                start == old(self)@,
                start.can_recall(),
                n == self.cards_in_play.len(),
                i <= n,
                self.cards_in_play@ == start.in_play,
                self.cards_revealed@ == start.revealed,
                self.points == start.points,
                self.bid == start.bid,
                self.cards_in_hand.count(Card::Skull) == start.hand.count(Card::Skull)
                    + occurrences(start.in_play.take(i as int), Card::Skull),
                self.cards_in_hand.count(Card::Rose) == start.hand.count(Card::Rose)
                    + occurrences(start.in_play.take(i as int), Card::Rose),
                self.cards_in_hand.count(Card::Unknown) == start.hand.count(Card::Unknown)
                    + occurrences(start.in_play.take(i as int), Card::Unknown),
            decreases n - i,
        {
            let c = self.cards_in_play[i];
            proof {
                lemma_occurrences_take_step(start.in_play, i as int, Card::Skull);
                lemma_occurrences_take_step(start.in_play, i as int, Card::Rose);
                lemma_occurrences_take_step(start.in_play, i as int, Card::Unknown);
                lemma_occurrences_nonneg(start.revealed, c);
                assert(self.cards_in_hand.count(c) == start.hand.count(c) + occurrences(
                    start.in_play.take(i as int),
                    c,
                ));
            }
            self.cards_in_hand.increment(&c);
            i = i + 1;
        }
        assert(start.in_play.take(n as int) =~= start.in_play);
        let m = self.cards_revealed.len();
        let mut j: usize = 0;
        while j < m
            invariant
                start == old(self)@,
                start.can_recall(),
                m == self.cards_revealed.len(),
                j <= m,
                self.cards_revealed@ == start.revealed,
                self.points == start.points,
                self.bid == start.bid,
                self.cards_in_hand.count(Card::Skull) == start.hand.count(Card::Skull)
                    + occurrences(start.in_play, Card::Skull) + occurrences(
                    start.revealed.take(j as int),
                    Card::Skull,
                ),
                self.cards_in_hand.count(Card::Rose) == start.hand.count(Card::Rose)
                    + occurrences(start.in_play, Card::Rose) + occurrences(
                    start.revealed.take(j as int),
                    Card::Rose,
                ),
                self.cards_in_hand.count(Card::Unknown) == start.hand.count(Card::Unknown)
                    + occurrences(start.in_play, Card::Unknown) + occurrences(
                    start.revealed.take(j as int),
                    Card::Unknown,
                ),
            decreases m - j,
        {
            let c = self.cards_revealed[j];
            proof {
                lemma_occurrences_take_step(start.revealed, j as int, Card::Skull);
                lemma_occurrences_take_step(start.revealed, j as int, Card::Rose);
                lemma_occurrences_take_step(start.revealed, j as int, Card::Unknown);
                assert(self.cards_in_hand.count(c) == start.hand.count(c) + occurrences(
                    start.in_play,
                    c,
                ) + occurrences(start.revealed.take(j as int), c));
            }
            self.cards_in_hand.increment(&c);
            j = j + 1;
        }
        assert(start.revealed.take(m as int) =~= start.revealed);
        self.cards_in_play.clear();
        self.cards_revealed.clear();
        assert(self.cards_in_hand.count(Card::Skull) == start.holding(Card::Skull));
        assert(self.cards_in_hand.count(Card::Rose) == start.holding(Card::Rose));
        assert(self.cards_in_hand.count(Card::Unknown) == start.holding(Card::Unknown));
        assert(self@.in_play =~= Seq::<Card>::empty());
        assert(self@.revealed =~= Seq::<Card>::empty());
    }

    /// Hides this player's cards from an opponent: the hand becomes a number of
    /// unknown cards and every card on the table is shown as unknown.
    pub fn obscure(&mut self)
        requires
            old(self)@.can_obscure(),
        ensures
            final(self)@ == old(self)@.obscured(),
    {
        let ghost start = self@;
        self.cards_in_hand.unknown = self.cards_in_hand.roses + self.cards_in_hand.skulls;
        self.cards_in_hand.skulls = 0;
        self.cards_in_hand.roses = 0;
        let n = self.cards_in_play.len();
        let mut i: usize = 0;
        while i < n
            invariant
                n == self.cards_in_play.len(),
                n == start.in_play.len(),
                self.cards_in_hand == start.obscured().hand,
                self.points == start.points,
                self.bid == start.bid,
                self.cards_revealed@ == start.revealed,
                i <= n,
                forall|j: int| 0 <= j < i ==> self.cards_in_play@[j] == Card::Unknown,
            decreases n - i,
        {
            self.cards_in_play.set(i, Card::Unknown);
            i = i + 1;
        }
        assert(self.cards_in_play@ =~= Seq::new(n as nat, |k: int| Card::Unknown));
    }
}

/// Every player starts with four cards in hand, one skull and three roses, and
/// nothing on the table, no points and no bid.
pub proof fn lemma_fresh_player_holds_four()
    ensures
        fresh_player().hand.count(Card::Skull) == 1,
        fresh_player().hand.count(Card::Rose) == 3,
        fresh_player().hand.count(Card::Unknown) == 0,
        fresh_player().in_play.len() == 0,
        fresh_player().revealed.len() == 0,
        !fresh_player().points,
        fresh_player().bid == 0,
{
}

/// Laying a card of a kind held in hand moves exactly that card: the hand holds one
/// fewer of that kind and as many of every other, the card lies on top of the table
/// stack over the cards that were there, and nothing else changes.
pub proof fn lemma_play_moves_one_card(p: PlayerView, card: Card, k: Card)
    requires
        p.hand.count(card) > 0,
    ensures
        p.played(card).hand.count(card) == p.hand.count(card) - 1,
        k != card ==> p.played(card).hand.count(k) == p.hand.count(k),
        p.played(card).in_play.len() == p.in_play.len() + 1,
        p.played(card).in_play.last() == card,
        p.played(card).in_play.drop_last() == p.in_play,
        p.played(card).revealed == p.revealed,
        p.played(card).points == p.points,
        p.played(card).bid == p.bid,
{
    assert(p.played(card).in_play.drop_last() =~= p.in_play);
}

/// Turning up moves the top card of the table stack, and only it, onto the turned-up
/// cards; the hand stays.
pub proof fn lemma_reveal_moves_top_card(p: PlayerView)
    requires
        p.in_play.len() > 0,
    ensures
        p.revealed_top().in_play == p.in_play.drop_last(),
        p.revealed_top().revealed.len() == p.revealed.len() + 1,
        p.revealed_top().revealed.last() == p.in_play.last(),
        p.revealed_top().revealed.drop_last() == p.revealed,
        p.revealed_top().hand == p.hand,
{
    assert(p.revealed_top().revealed.drop_last() =~= p.revealed);
}

/// Laying a card on the table keeps, for every kind, the number of cards the
/// player owns: one card moves from the hand to the table.
pub proof fn lemma_play_keeps_cards(p: PlayerView, card: Card, k: Card)
    requires
        p.hand.count(card) > 0,
    ensures
        p.played(card).holding(k) == p.holding(k),
{
    lemma_occurrences_push(p.in_play, card, k);
}

/// Turning up the top card keeps, for every kind, the number of cards the player owns.
pub proof fn lemma_reveal_keeps_cards(p: PlayerView, k: Card)
    requires
        p.in_play.len() > 0,
    ensures
        p.revealed_top().holding(k) == p.holding(k),
{
    assert(p.in_play.drop_last().push(p.in_play.last()) =~= p.in_play);
    lemma_occurrences_push(p.in_play.drop_last(), p.in_play.last(), k);
    lemma_occurrences_push(p.revealed, p.in_play.last(), k);
}

/// Taking the table back keeps, for every kind, the number of cards the player owns,
/// and leaves nothing on the table.
pub proof fn lemma_recall_keeps_cards(p: PlayerView, k: Card)
    requires
        p.can_recall(),
    ensures
        p.recalled().holding(k) == p.holding(k),
        p.recalled().in_play.len() == 0,
        p.recalled().revealed.len() == 0,
{
    lemma_occurrences_nonneg(p.in_play, k);
    lemma_occurrences_nonneg(p.revealed, k);
}

/// With nothing on the table, laying a card and then taking the table back gives
/// the player back exactly as before.
pub proof fn lemma_recall_undoes_play(p: PlayerView, card: Card)
    requires
        p.hand.count(card) > 0,
        p.in_play.len() == 0,
        p.revealed.len() == 0,
    ensures
        p.played(card).can_recall(),
        p.played(card).recalled() == p,
{
    let q = p.played(card);
    lemma_play_keeps_cards(p, card, Card::Skull);
    lemma_play_keeps_cards(p, card, Card::Rose);
    lemma_play_keeps_cards(p, card, Card::Unknown);
    assert(q.recalled().in_play =~= p.in_play);
    assert(q.recalled().revealed =~= p.revealed);
}

/// Any moves keep, for every kind, the number of cards the player owns, and leave
/// points and bid alone.
pub proof fn lemma_moves_keep_cards(p: PlayerView, ms: Seq<Move>, k: Card)
    ensures
        after_moves(p, ms).holding(k) == p.holding(k),
        after_moves(p, ms).points == p.points,
        after_moves(p, ms).bid == p.bid,
    decreases ms.len(),
{
    if ms.len() > 0 {
        lemma_moves_keep_cards(p, ms.drop_last(), k);
        let q = after_moves(p, ms.drop_last());
        match ms.last() {
            Move::Play(card) => {
                if q.hand.count(card) > 0 {
                    lemma_play_keeps_cards(q, card, k);
                }
            },
            Move::Reveal => {
                if q.in_play.len() > 0 {
                    lemma_reveal_keeps_cards(q, k);
                }
            },
        }
    }
}

/// With nothing on the table, taking the table back after any plays and reveals gives
/// the player back exactly as before.
pub proof fn lemma_recall_undoes_moves(p: PlayerView, ms: Seq<Move>)
    requires
        p.in_play.len() == 0,
        p.revealed.len() == 0,
    ensures
        after_moves(p, ms).can_recall(),
        after_moves(p, ms).recalled() == p,
{
    let q = after_moves(p, ms);
    lemma_moves_keep_cards(p, ms, Card::Skull);
    lemma_moves_keep_cards(p, ms, Card::Rose);
    lemma_moves_keep_cards(p, ms, Card::Unknown);
    assert(q.recalled().in_play =~= p.in_play);
    assert(q.recalled().revealed =~= p.revealed);
}

} // verus!
