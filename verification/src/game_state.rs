use vstd::prelude::*;

use crate::names::{
    name_lt,
    name_precedes,
    lemma_name_lt_irreflexive,
    lemma_name_lt_total,
    lemma_name_lt_transitive,
};
use crate::player::{PlayerState, PlayerView, fresh_player};

verus! {

/// The players of a game as a sequence of (name, player) pairs.
pub type Seats = Seq<(Seq<char>, PlayerView)>;

/// The stage the game is in.
#[derive(Debug, Clone, Copy, PartialEq, Eq, Structural)]
pub enum Phase {
    Registration,
    Play,
    Bid,
    Reveal,
}

/// One player of a game under the name it joined with.
#[derive(Debug, Clone)]
pub struct PlayerEntry {
    pub name: String,
    pub state: PlayerState,
}

/// The whole state of a game. The players are kept in the order of their names,
/// each name once; `turn` names the player to move, `max_bidder` the player with
/// the highest bid so far.
///
/// The players stand in a `Vec` kept sorted by name rather than in a map keyed by
/// name: vstd states what a `BTreeMap` does only for keys whose order it specifies,
/// and it specifies none for `String`.
#[derive(Debug, Clone)]
pub struct GameState {
    pub players: Vec<PlayerEntry>,
    pub phase: Phase,
    pub turn: String,
    pub max_bidder: Option<String>,
}

/// The mathematical value of a [`GameState`].
pub struct GameView {
    pub players: Seats,
    pub phase: Phase,
    pub turn: Seq<char>,
    pub max_bidder: Option<Seq<char>>,
}

pub open spec fn entry_view(e: PlayerEntry) -> (Seq<char>, PlayerView) {
    (e.name@, e.state@)
}

pub open spec fn option_string_view(o: Option<String>) -> Option<Seq<char>> {
    match o {
        Some(s) => Some(s@),
        None => None,
    }
}

impl View for GameState {
    type V = GameView;

    open spec fn view(&self) -> GameView {
        GameView {
            players: self.players@.map_values(|e: PlayerEntry| entry_view(e)),
            phase: self.phase,
            turn: self.turn@,
            max_bidder: option_string_view(self.max_bidder),
        }
    }
}

/// Whether the names of `s` stand in strictly increasing order.
pub open spec fn names_sorted(s: Seats) -> bool {
    forall|i: int, j: int| 0 <= i < j < s.len() ==> name_lt(#[trigger] s[i].0, #[trigger] s[j].0)
}

/// Whether some player of `s` has the name `name`.
pub open spec fn has_name(s: Seats, name: Seq<char>) -> bool {
    exists|i: int| 0 <= i < s.len() && #[trigger] s[i].0 == name
}

/// The index of the first player of `s` whose name does not come before `name`:
/// where `name` stands, or would stand, in a sorted `s`.
pub open spec fn slot(s: Seats, name: Seq<char>) -> int
    decreases s.len(),
{
    if s.len() == 0 {
        0
    } else if !name_lt(s[0].0, name) {
        0
    } else {
        1 + slot(s.skip(1), name)
    }
}

/// The index of the first player of `s` named `name` (the length of `s` if none is).
pub open spec fn first_seat(s: Seats, name: Seq<char>) -> int
    decreases s.len(),
{
    if s.len() == 0 {
        0
    } else if s[0].0 == name {
        0
    } else {
        1 + first_seat(s.skip(1), name)
    }
}

/// The player named `name` in `s` (meaningful where `has_name(s, name)`).
pub open spec fn player_of(s: Seats, name: Seq<char>) -> PlayerView {
    s[slot(s, name)].1
}

/// The name of the player whose turn follows `turn`: the next name after it, or
/// the first name when none follows.
pub open spec fn name_after(s: Seats, turn: Seq<char>) -> Seq<char> {
    if slot(s, turn) + 1 < s.len() {
        s[slot(s, turn) + 1].0
    } else {
        s[0].0
    }
}

/// The players of `s` as `name` may see them: every other player obscured.
pub open spec fn seats_seen_by(s: Seats, name: Seq<char>) -> Seats {
    Seq::new(
        s.len(),
        |i: int|
            if s[i].0 == name {
                s[i]
            } else {
                (s[i].0, s[i].1.obscured())
            },
    )
}

/// A game that nobody has joined yet.
pub open spec fn new_game() -> GameView {
    GameView {
        players: Seq::empty(),
        phase: Phase::Registration,
        turn: Seq::empty(),
        max_bidder: None,
    }
}

impl GameView {
    /// Players sorted by name, the player to move and the highest bidder are players
    /// (the player to move may be unset, the empty name).
    pub open spec fn well_formed(self) -> bool {
        &&& names_sorted(self.players)
        &&& (self.turn.len() == 0 || has_name(self.players, self.turn))
        &&& (self.max_bidder matches Some(b) ==> has_name(self.players, b))
    }

    /// The game after `name` joins: a new name is added as a fresh player at its place
    /// by name, and becomes the player to move when nobody is; a name already in the
    /// game has its player started afresh.
    pub open spec fn with_player(self, name: Seq<char>) -> GameView {
        if has_name(self.players, name) {
            GameView {
                players: self.players.update(slot(self.players, name), (name, fresh_player())),
                ..self
            }
        } else {
            GameView {
                players: self.players.insert(slot(self.players, name), (name, fresh_player())),
                turn: if self.turn.len() == 0 {
                    name
                } else {
                    self.turn
                },
                ..self
            }
        }
    }

    /// The game with the turn passed on to the next player.
    pub open spec fn turn_passed(self) -> GameView {
        GameView { turn: name_after(self.players, self.turn), ..self }
    }

    /// The game as the player `name` may see it.
    pub open spec fn seen_by(self, name: Seq<char>) -> GameView {
        GameView { players: seats_seen_by(self.players, name), ..self }
    }

    /// Whether every player but `name` can be obscured.
    pub open spec fn can_show_to(self, name: Seq<char>) -> bool {
        forall|i: int|
            0 <= i < self.players.len() && self.players[i].0 != name
                ==> #[trigger] self.players[i].1.can_obscure()
    }
}

/// Properties of `slot`: the names before it come before `name`, the one at it does not.
pub proof fn lemma_slot_bounds(s: Seats, name: Seq<char>)
    ensures
        0 <= slot(s, name) <= s.len(),
        forall|j: int| 0 <= j < slot(s, name) ==> name_lt(#[trigger] s[j].0, name),
        slot(s, name) < s.len() ==> !name_lt(s[slot(s, name)].0, name),
    decreases s.len(),
{
    if s.len() > 0 && name_lt(s[0].0, name) {
        lemma_slot_bounds(s.skip(1), name);
        assert forall|j: int| 0 <= j < slot(s, name) implies name_lt(#[trigger] s[j].0, name) by {
            if j > 0 {
                assert(s[j] == s.skip(1)[j - 1]);
            }
        }
    }
}

/// In sorted seats, a player's slot is its index.
pub proof fn lemma_slot_of_member(s: Seats, name: Seq<char>, i: int)
    requires
        names_sorted(s),
        0 <= i < s.len(),
        s[i].0 == name,
    ensures
        slot(s, name) == i,
{
    lemma_slot_bounds(s, name);
    lemma_name_lt_irreflexive(name);
    let k = slot(s, name);
    if k > i {
        assert(name_lt(s[i].0, name));
    }
    if k < i {
        assert(name_lt(s[k].0, s[i].0));
    }
}

/// In sorted seats, a name is present exactly when it stands at its slot.
pub proof fn lemma_has_name_at_slot(s: Seats, name: Seq<char>)
    requires
        names_sorted(s),
    ensures
        has_name(s, name) <==> (slot(s, name) < s.len() && s[slot(s, name)].0 == name),
{
    lemma_slot_bounds(s, name);
    if has_name(s, name) {
        let i = choose|i: int| 0 <= i < s.len() && #[trigger] s[i].0 == name;
        lemma_slot_of_member(s, name, i);
    }
    if slot(s, name) < s.len() && s[slot(s, name)].0 == name {
        assert(s[slot(s, name)].0 == name);
    }
}

/// Inserting an absent name at its slot keeps the seats sorted.
pub proof fn lemma_insert_at_slot_sorted(s: Seats, name: Seq<char>, p: PlayerView)
    requires
        names_sorted(s),
        !has_name(s, name),
    ensures
        names_sorted(s.insert(slot(s, name), (name, p))),
{
    lemma_slot_bounds(s, name);
    let k = slot(s, name);
    let t = s.insert(k, (name, p));
    if k < s.len() {
        assert(s[k].0 != name);
        lemma_name_lt_total(s[k].0, name);
    }
    assert forall|j: int| k <= j < s.len() implies name_lt(name, #[trigger] s[j].0) by {
        if j > k {
            lemma_name_lt_transitive(name, s[k].0, s[j].0);
        }
    }
    assert forall|i: int, j: int| 0 <= i < j < t.len() implies name_lt(
        #[trigger] t[i].0,
        #[trigger] t[j].0,
    ) by {
        if j < k {
        } else if j == k {
        } else if i < k {
            lemma_name_lt_transitive(s[i].0, name, s[j - 1].0);
        } else if i == k {
        } else {
        }
    }
}

/// Replacing players without changing their names keeps the seats sorted.
pub proof fn lemma_same_names_sorted(s: Seats, t: Seats)
    requires
        names_sorted(s),
        s.len() == t.len(),
        forall|i: int| 0 <= i < s.len() ==> #[trigger] t[i].0 == s[i].0,
    ensures
        names_sorted(t),
        forall|name: Seq<char>| has_name(s, name) ==> has_name(t, name),
{
    assert forall|i: int, j: int| 0 <= i < j < t.len() implies name_lt(
        #[trigger] t[i].0,
        #[trigger] t[j].0,
    ) by {
        assert(name_lt(s[i].0, s[j].0));
    }
    assert forall|name: Seq<char>| has_name(s, name) implies has_name(t, name) by {
        let i = choose|i: int| 0 <= i < s.len() && #[trigger] s[i].0 == name;
        assert(t[i].0 == name);
    }
}

/// What a player is shown of a game: its own cards as they are; of every other player
/// no skull and no rose in hand, only a count of hidden cards as large as that
/// player's hand, and only hidden cards on the table.
pub proof fn lemma_seen_by_hides_others(v: GameView, name: Seq<char>, i: int)
    requires
        0 <= i < v.players.len(),
        v.can_show_to(name),
    ensures
        v.seen_by(name).players.len() == v.players.len(),
        v.seen_by(name).players[i].0 == v.players[i].0,
        v.players[i].0 == name ==> v.seen_by(name).players[i].1 == v.players[i].1,
        v.players[i].0 != name ==> {
            let p = v.seen_by(name).players[i].1;
            &&& p.hand.skulls == 0
            &&& p.hand.roses == 0
            &&& p.hand.unknown == v.players[i].1.hand.skulls + v.players[i].1.hand.roses
            &&& p.in_play.len() == v.players[i].1.in_play.len()
            &&& forall|j: int| 0 <= j < p.in_play.len() ==> p.in_play[j] == crate::cards::Card::Unknown
        },
{
    if v.players[i].0 != name {
        assert(v.players[i].1.can_obscure());
    }
}

/// Joining a game under a name: afterwards the name is a player with a fresh hand,
/// every player of another name stays as it was, the players stay sorted by name, a
/// new name adds one player and a known one none, the phase and the highest bidder
/// stay, and the newcomer is to move when nobody was.
pub proof fn lemma_joining_the_game(v: GameView, name: Seq<char>)
    requires
        names_sorted(v.players),
    ensures
        ({
            let w = v.with_player(name);
            &&& w.players.contains((name, fresh_player()))
            &&& forall|j: int|
                0 <= j < v.players.len() && v.players[j].0 != name ==> w.players.contains(
                    #[trigger] v.players[j],
                )
            &&& w.players.len() == if has_name(v.players, name) {
                v.players.len()
            } else {
                v.players.len() + 1
            }
            &&& names_sorted(w.players)
            &&& w.phase == v.phase
            &&& w.max_bidder == v.max_bidder
            &&& w.turn == if v.turn.len() == 0 && !has_name(v.players, name) {
                name
            } else {
                v.turn
            }
        }),
{
    lemma_has_name_at_slot(v.players, name);
    lemma_slot_bounds(v.players, name);
    let k = slot(v.players, name);
    let w = v.with_player(name);
    if has_name(v.players, name) {
        assert(w.players[k] == (name, fresh_player()));
        assert forall|j: int|
            0 <= j < v.players.len() && v.players[j].0 != name implies w.players.contains(
                #[trigger] v.players[j],
            ) by {
            assert(w.players[j] == v.players[j]);
        }
        lemma_same_names_sorted(v.players, w.players);
    } else {
        assert(w.players[k] == (name, fresh_player()));
        assert forall|j: int|
            0 <= j < v.players.len() && v.players[j].0 != name implies w.players.contains(
                #[trigger] v.players[j],
            ) by {
            if j < k {
                assert(w.players[j] == v.players[j]);
            } else {
                assert(w.players[j + 1] == v.players[j]);
            }
        }
        lemma_insert_at_slot_sorted(v.players, name, fresh_player());
    }
}

/// The game a player is shown is the game itself but for the other players' cards:
/// the phase, the player to move, the highest bidder, the players and their order,
/// the player's own cards and every player's points, bid and turned-up cards stay.
pub proof fn lemma_view_keeps_the_game(v: GameView, name: Seq<char>)
    ensures
        v.seen_by(name).phase == v.phase,
        v.seen_by(name).turn == v.turn,
        v.seen_by(name).max_bidder == v.max_bidder,
        v.seen_by(name).players.len() == v.players.len(),
        forall|i: int|
            0 <= i < v.players.len() ==> {
                let p = #[trigger] v.seen_by(name).players[i];
                &&& p.0 == v.players[i].0
                &&& p.1.points == v.players[i].1.points
                &&& p.1.bid == v.players[i].1.bid
                &&& p.1.revealed == v.players[i].1.revealed
                &&& p.1.in_play.len() == v.players[i].1.in_play.len()
                &&& v.players[i].0 == name ==> p.1 == v.players[i].1
            },
{
}

/// What the player `name` is shown does not depend on which cards the other players
/// hold in hand or have face down on the table: two games that differ only there look
/// the same to `name`.
pub proof fn lemma_view_hides_cards(v: GameView, w: GameView, name: Seq<char>)
    requires
        v.phase == w.phase,
        v.turn == w.turn,
        v.max_bidder == w.max_bidder,
        v.players.len() == w.players.len(),
        forall|i: int| 0 <= i < v.players.len() ==> #[trigger] v.players[i].0 == w.players[i].0,
        forall|i: int|
            0 <= i < v.players.len() && #[trigger] v.players[i].0 == name ==> v.players[i].1
                == w.players[i].1,
        forall|i: int|
            0 <= i < v.players.len() && #[trigger] v.players[i].0 != name ==> {
                let p = v.players[i].1;
                let q = w.players[i].1;
                &&& p.points == q.points
                &&& p.bid == q.bid
                &&& p.revealed == q.revealed
                &&& p.in_play.len() == q.in_play.len()
                &&& p.hand.skulls + p.hand.roses == q.hand.skulls + q.hand.roses
            },
    ensures
        v.seen_by(name) == w.seen_by(name),
{
    let a = seats_seen_by(v.players, name);
    let b = seats_seen_by(w.players, name);
    assert forall|i: int| 0 <= i < a.len() implies a[i] == b[i] by {
        assert(v.players[i].0 == w.players[i].0);
        if v.players[i].0 != name {
            let p = v.players[i].1;
            let q = w.players[i].1;
            assert(p.obscured().in_play =~= q.obscured().in_play);
            assert(p.obscured().hand == q.obscured().hand);
        } else {
            assert(v.players[i].1 == w.players[i].1);
        }
    }
    assert(a =~= b);
}

impl PlayerEntry {
    /// A copy of this entry.
    pub fn duplicate(&self) -> (r: PlayerEntry)
        ensures
            entry_view(r) == entry_view(*self),
    {
        PlayerEntry { name: self.name.clone(), state: self.state.duplicate() }
    }
}

/// A copy of an optional name.
pub fn duplicate_name(o: &Option<String>) -> (r: Option<String>)
    ensures
        option_string_view(r) == option_string_view(*o),
{
    match o {
        Some(s) => Some(s.clone()),
        None => None,
    }
}

impl GameState {
    /// An empty game in the registration phase, with no player to move.
    pub fn new() -> (r: GameState)
        ensures
            r@ == new_game(),
            r@.well_formed(),
    {
        let r = GameState {
            players: Vec::new(),
            phase: Phase::Registration,
            turn: String::new(),
            max_bidder: None,
        };
        assert(r@.players =~= Seq::<(Seq<char>, PlayerView)>::empty());
        assert(r@.turn =~= Seq::<char>::empty());
        r
    }

    /// The index of the first player whose name does not come before `name`.
    pub fn locate(&self, name: &String) -> (i: usize)
        ensures
            i == slot(self@.players, name@),
            i <= self.players.len(),
    {
        let ghost s = self@.players;
        proof {
            lemma_slot_bounds(s, name@);
        }
        let mut i: usize = 0;
        assert(s.skip(0) =~= s);
        while i < self.players.len()
            invariant
                s == self@.players,
                i <= self.players.len(),
                slot(s, name@) == i + slot(s.skip(i as int), name@),
            decreases self.players.len() - i,
        {
            assert(s.skip(i as int)[0] == s[i as int]);
            if !name_precedes(&self.players[i].name, name) {
                return i;
            }
            assert(s.skip(i as int).skip(1) =~= s.skip(i + 1));
            i = i + 1;
        }
        i
    }

    /// Where the player named `name` stands, if there is one.
    pub fn position(&self, name: &String) -> (r: Option<usize>)
        requires
            names_sorted(self@.players),
        ensures
            r == (if has_name(self@.players, name@) {
                Some(slot(self@.players, name@) as usize)
            } else {
                None::<usize>
            }),
            r matches Some(i) ==> i < self.players.len() && self.players@[i as int].name@ == name@,
    {
        let i = self.locate(name);
        proof {
            lemma_has_name_at_slot(self@.players, name@);
        }
        if i < self.players.len() && self.players[i].name == *name {
            Some(i)
        } else {
            None
        }
    }

    /// The player named `name`, if there is one.
    pub fn player(&self, name: &String) -> (r: Option<&PlayerState>)
        ensures
            has_name(self@.players, name@) <==> r is Some,
            r matches Some(p) ==> p@ == self@.players[first_seat(self@.players, name@)].1,
    {
        let ghost s = self@.players;
        let mut i: usize = 0;
        assert(s.skip(0) =~= s);
        while i < self.players.len()
            invariant
                s == self@.players,
                i <= s.len(),
                forall|j: int| 0 <= j < i ==> s[j].0 != name@,
                first_seat(s, name@) == i + first_seat(s.skip(i as int), name@),
            decreases s.len() - i,
        {
            assert(s[i as int] == entry_view(self.players@[i as int]));
            assert(s.skip(i as int)[0] == s[i as int]);
            if self.players[i].name == *name {
                return Some(&self.players[i].state);
            }
            assert(s.skip(i as int).skip(1) =~= s.skip(i + 1));
            i = i + 1;
        }
        None
    }

    /// Adds a fresh player named `name`, or starts the player of that name afresh when
    /// there is one; the first player added becomes the player to move. Returns whether
    /// the name is new.
    pub fn add_player(&mut self, name: String) -> (r: bool)
        requires
            names_sorted(old(self)@.players),
        ensures
            r == !has_name(old(self)@.players, name@),
            final(self)@ == old(self)@.with_player(name@),
            names_sorted(final(self)@.players),
            forall|n: Seq<char>|
                has_name(old(self)@.players, n) ==> #[trigger] has_name(final(self)@.players, n),
            has_name(final(self)@.players, name@),
            old(self)@.well_formed() ==> final(self)@.well_formed(),
    {
        let ghost s = self@.players;
        let i = self.locate(&name);
        proof {
            lemma_has_name_at_slot(s, name@);
            lemma_slot_bounds(s, name@);
        }
        if i < self.players.len() && self.players[i].name == name {
            let entry = PlayerEntry { name: name, state: PlayerState::new() };
            self.players.set(i, entry);
            proof {
                assert(self@.players =~= s.update(i as int, (name@, fresh_player())));
                lemma_same_names_sorted(s, self@.players);
                assert(self@.players[i as int].0 == name@);
            }
            return false;
        }
        let entry = PlayerEntry { name: name.clone(), state: PlayerState::new() };
        self.players.insert(i, entry);
        proof {
            lemma_insert_at_slot_sorted(s, name@, fresh_player());
            assert(self@.players =~= s.insert(i as int, (name@, fresh_player())));
        }
        if self.turn.as_str().is_empty() {
            self.turn = name;
        }
        proof {
            let t = self@.players;
            assert(t[i as int].0 == name@);
            assert forall|n: Seq<char>| has_name(s, n) implies #[trigger] has_name(t, n) by {
                let j = choose|j: int| 0 <= j < s.len() && #[trigger] s[j].0 == n;
                if j < i {
                    assert(t[j].0 == n);
                } else {
                    assert(t[j + 1].0 == n);
                }
            }
        }
        true
    }

    /// The game as the player `name` may see it: every other player obscured.
    pub fn partial(&self, name: &String) -> (r: GameState)
        requires
            self@.can_show_to(name@),
        ensures
            r@ == self@.seen_by(name@),
    {
        let ghost s = self@.players;
        let mut players: Vec<PlayerEntry> = Vec::new();
        let mut i: usize = 0;
        while i < self.players.len()
            invariant
                s == self@.players,
                self@.can_show_to(name@),
                i <= self.players.len(),
                players@.len() == i,
                forall|j: int|
                    0 <= j < i ==> #[trigger] entry_view(players@[j]) == seats_seen_by(s, name@)[j],
            decreases self.players.len() - i,
        {
            let mut e = self.players[i].duplicate();
            if !(e.name == *name) {
                proof {
                    assert(s[i as int].0 != name@);
                    assert(s[i as int].1.can_obscure());
                }
                e.state.obscure();
            }
            players.push(e);
            i = i + 1;
        }
        let r = GameState {
            players,
            phase: self.phase,
            turn: self.turn.clone(),
            max_bidder: duplicate_name(&self.max_bidder),
        };
        assert(r@.players =~= seats_seen_by(s, name@));
        r
    }
}

} // verus!
