use vstd::prelude::*;

use crate::cards::Card;
use crate::game_state::{GameState, GameView, Seats, has_name, first_seat, entry_view};
use crate::player::PlayerView;

verus! {

/// The card width on screen, with the gap to the next card.
pub open spec fn card_step() -> int {
    15
}

/// Where the cards of a hand are drawn, left to right: the skull, if the hand holds
/// one, at the left edge, then each rose one step further.
pub open spec fn hand_spots(p: PlayerView) -> Seq<(usize, Card)> {
    (if p.hand.skulls > 0 {
        seq![(0usize, Card::Skull)]
    } else {
        Seq::empty()
    }) + Seq::new(p.hand.roses as nat, |i: int| (((i + 1) * card_step()) as usize, Card::Rose))
}

/// The face-down stacks on the table: for each player with cards in play, at the
/// player's position, the number of cards and the player's name.
pub open spec fn table_stacks(s: Seats) -> Seq<(usize, usize, Seq<char>)>
    decreases s.len(),
{
    if s.len() == 0 {
        Seq::empty()
    } else if s.last().1.in_play.len() > 0 {
        table_stacks(s.drop_last()).push(
            (((s.len() - 1) * card_step()) as usize, s.last().1.in_play.len() as usize, s.last().0),
        )
    } else {
        table_stacks(s.drop_last())
    }
}

/// A hand is drawn card by card from left to right: one spot for the skull if the hand
/// holds one, then one for each rose; the skull comes first, and no two cards share a
/// place.
pub proof fn lemma_hand_drawn_left_to_right(p: PlayerView)
    ensures
        hand_spots(p).len() == (if p.hand.skulls > 0 { 1int } else { 0int }) + p.hand.roses,
        forall|j: int|
            0 <= j < hand_spots(p).len() ==> (#[trigger] hand_spots(p)[j]).1 == Card::Skull ==> j == 0,
        forall|i: int, j: int|
            0 <= i < j < hand_spots(p).len() ==> #[trigger] hand_spots(p)[i].0 < #[trigger] hand_spots(
                p,
            )[j].0,
{
    let h = hand_spots(p);
    let sk: Seq<(usize, Card)> = if p.hand.skulls > 0 {
        seq![(0usize, Card::Skull)]
    } else {
        Seq::empty()
    };
    let r = Seq::new(p.hand.roses as nat, |i: int| (((i + 1) * card_step()) as usize, Card::Rose));
    assert forall|i: int, j: int| 0 <= i < j < h.len() implies #[trigger] h[i].0 < #[trigger] h[j].0 by {
        if i < sk.len() {
            assert(h[j] == r[j - sk.len()]);
        } else {
            assert(h[i] == r[i - sk.len()]);
            assert(h[j] == r[j - sk.len()]);
        }
    }
    assert forall|j: int| 0 <= j < h.len() implies (#[trigger] h[j]).1 == Card::Skull ==> j == 0 by {
        if j >= sk.len() {
            assert(h[j] == r[j - sk.len()]);
        }
    }
}

/// Every player with cards on the table has one stack drawn, at the player's place in
/// the order of names, showing how many cards lie there and the player's name; and
/// every stack drawn is such a player's.
pub proof fn lemma_stacks_drawn_per_player(s: Seats)
    requires
        s.len() * card_step() <= usize::MAX,
        forall|i: int| 0 <= i < s.len() ==> (#[trigger] s[i]).1.in_play.len() <= usize::MAX,
    ensures
        forall|i: int|
            0 <= i < s.len() && (#[trigger] s[i]).1.in_play.len() > 0 ==> table_stacks(s).contains(
                ((i * card_step()) as usize, s[i].1.in_play.len() as usize, s[i].0),
            ),
        forall|j: int|
            #![trigger table_stacks(s)[j]]
            0 <= j < table_stacks(s).len() ==> exists|i: int|
                0 <= i < s.len() && (#[trigger] s[i]).1.in_play.len() > 0 && table_stacks(s)[j] == (
                    (i * card_step()) as usize,
                    s[i].1.in_play.len() as usize,
                    s[i].0,
                ),
    decreases s.len(),
{
    if s.len() > 0 {
        let t = s.drop_last();
        assert forall|i: int| 0 <= i < t.len() implies (#[trigger] t[i]).1.in_play.len() <= usize::MAX by {
            assert(t[i] == s[i]);
        }
        lemma_stacks_drawn_per_player(t);
        let a = table_stacks(t);
        let b = table_stacks(s);
        let n = s.len() - 1;
        assert forall|i: int|
            0 <= i < s.len() && (#[trigger] s[i]).1.in_play.len() > 0 implies b.contains(
                ((i * card_step()) as usize, s[i].1.in_play.len() as usize, s[i].0),
            ) by {
            let e = ((i * card_step()) as usize, s[i].1.in_play.len() as usize, s[i].0);
            if i < n {
                assert(t[i] == s[i]);
                assert(a.contains(e));
                let m = choose|m: int| 0 <= m < a.len() && a[m] == e;
                assert(b[m] == e);
            } else {
                assert(b[b.len() - 1] == e);
            }
        }
        assert forall|j: int| #![trigger b[j]] 0 <= j < b.len() implies exists|i: int|
            0 <= i < s.len() && (#[trigger] s[i]).1.in_play.len() > 0 && b[j] == (
                (i * card_step()) as usize,
                s[i].1.in_play.len() as usize,
                s[i].0,
            ) by {
            if j < a.len() {
                assert(b[j] == a[j]);
                let i = choose|i: int|
                    0 <= i < t.len() && (#[trigger] t[i]).1.in_play.len() > 0 && a[j] == (
                        (i * card_step()) as usize,
                        t[i].1.in_play.len() as usize,
                        t[i].0,
                    );
                assert(s[i] == t[i]);
            } else {
                assert(s[n].1.in_play.len() > 0);
            }
        }
    }
}

/// The view of the game that the user `uname` sees on screen.
pub struct YoricCanvas {
    state: GameState,
    uname: String,
}

impl YoricCanvas {
    /// The game shown.
    pub closed spec fn game(&self) -> GameView {
        self.state@
    }

    /// The name of the user.
    pub closed spec fn user(&self) -> Seq<char> {
        self.uname@
    }

    /// A canvas showing `state` to the user `uname`.
    pub fn new(state: GameState, uname: String) -> (r: YoricCanvas)
        ensures
            r.game() == state@,
            r.user() == uname@,
    {
        YoricCanvas { state, uname }
    }

    /// Shows `state` from now on.
    pub fn update(&mut self, state: GameState)
        ensures
            final(self).game() == state@,
            final(self).user() == old(self).user(),
    {
        self.state = state;
    }

    /// Where the cards of the user's own hand are drawn; none when the user is not
    /// a player of the game.
    pub fn hand_cards(&self) -> (r: Vec<(usize, Card)>)
        ensures
            r@ == (if has_name(self.game().players, self.user()) {
                hand_spots(self.game().players[first_seat(self.game().players, self.user())].1)
            } else {
                Seq::empty()
            }),
    {
        let mut r: Vec<(usize, Card)> = Vec::new();
        match self.state.player(&self.uname) {
            None => {
                assert(r@ =~= Seq::<(usize, Card)>::empty());
            },
            Some(p) => {
                if p.cards_in_hand.contains(&Card::Skull) {
                    r.push((0, Card::Skull));
                }
                let ghost head = r@;
                let roses = p.cards_in_hand.roses;
                let mut i: u8 = 0;
                while i < roses
                    invariant
                        i <= roses,
                        r@ =~= head + Seq::new(
                            i as nat,
                            |j: int| (((j + 1) * card_step()) as usize, Card::Rose),
                        ),
                    decreases roses - i,
                {
                    i = i + 1;
                    r.push((i as usize * 15, Card::Rose));
                }
                assert(r@ =~= hand_spots(p@));
            },
        }
        r
    }

    /// The face-down stacks on the table, one for each player with cards in play.
    pub fn stacks(&self) -> (r: Vec<(usize, usize, String)>)
        requires
            self.game().players.len() * card_step() <= usize::MAX,
        ensures
            r@.map_values(|t: (usize, usize, String)| (t.0, t.1, t.2@)) == table_stacks(
                self.game().players,
            ),
    {
        let ghost s = self.game().players;
        let mut r: Vec<(usize, usize, String)> = Vec::new();
        let mut idx: usize = 0;
        assert(s.take(0) =~= Seq::<(Seq<char>, PlayerView)>::empty());
        while idx < self.state.players.len()
            invariant
                s == self.game().players,
                s.len() * card_step() <= usize::MAX,
                idx <= s.len(),
                r@.map_values(|t: (usize, usize, String)| (t.0, t.1, t.2@)) == table_stacks(
                    s.take(idx as int),
                ),
            decreases s.len() - idx,
        {
            let e = &self.state.players[idx];
            proof {
                assert(s[idx as int] == entry_view(*e));
                assert(s.take(idx + 1).drop_last() =~= s.take(idx as int));
                assert(s.take(idx + 1).last() == s[idx as int]);
                assert(idx * 15 <= s.len() * 15) by (nonlinear_arith)
                    requires
                        idx <= s.len(),
                ;
            }
            let n = e.state.cards_in_play.len();
            if n > 0 {
                r.push((idx * 15, n, e.name.clone()));
            }
            proof {
                assert(r@.map_values(|t: (usize, usize, String)| (t.0, t.1, t.2@)) =~= table_stacks(
                    s.take(idx + 1),
                ));
            }
            idx = idx + 1;
        }
        assert(s.take(idx as int) =~= s);
        r
    }

    /// How far the user's name is indented under a card: half of what is left of the
    /// card's width of fourteen columns.
    pub fn name_offset(&self) -> (r: usize)
        requires
            (vstd::utf8::encode_utf8(self.user()).len() as usize) <= 14,
        ensures
            r == (14 - (vstd::utf8::encode_utf8(self.user()).len() as usize)) / 2,
    {
        (14 - self.uname.as_str().len()) / 2
    }
}

} // verus!
