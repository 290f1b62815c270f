use vstd::prelude::*;

use crate::cards::Card;
use crate::names::{name_lt, lemma_name_lt_irreflexive};
use crate::game_state::{
    GameState,
    GameView,
    Phase,
    Seats,
    has_name,
    names_sorted,
    slot,
    player_of,
    lemma_slot_bounds,
    lemma_slot_of_member,
    lemma_has_name_at_slot,
    lemma_same_names_sorted,
    entry_view,
};
use crate::messages::Command;
use crate::player::{PlayerState, PlayerView};
use crate::text::{decimal, decimal_string};

verus! {

/// The number of cards lying face down on the table, over all players.
pub open spec fn table_size(s: Seats) -> int
    decreases s.len(),
{
    if s.len() == 0 {
        0
    } else {
        table_size(s.drop_last()) + s.last().1.in_play.len()
    }
}

/// The highest bid so far: the bid of the highest bidder, or zero when nobody has bid.
pub open spec fn highest_bid(v: GameView) -> int {
    match v.max_bidder {
        Some(b) => player_of(v.players, b).bid as int,
        None => 0,
    }
}

/// Whether a bid of `bid` is accepted: above the highest bid, with at least one card on
/// the table, and no more than the number of cards on the table (that number taken
/// modulo 256, as a byte holds it).
pub open spec fn bid_accepted(bid: u8, v: GameView) -> bool {
    &&& bid > highest_bid(v)
    &&& table_size(v.players) >= 1
    &&& bid <= table_size(v.players) % 256
}

/// The note that announces whose turn it is.
pub open spec fn turn_note(turn: Seq<char>) -> Seq<char> {
    turn + "'s turn!"@
}

/// The note that announces a bid and whose turn follows.
pub open spec fn bid_note(bidder: Seq<char>, bid: u8, turn: Seq<char>) -> Seq<char> {
    bidder + " bid "@ + decimal(bid as nat) + ". "@ + turn + "'s turn!"@
}

/// The note that announces the winner of the bidding.
pub open spec fn won_note(turn: Seq<char>) -> Seq<char> {
    turn + " won the bid"@
}

/// The players with the player named `name` replaced by `p`.
pub open spec fn with_seat(s: Seats, name: Seq<char>, p: PlayerView) -> Seats {
    s.update(slot(s, name), (name, p))
}

/// What a command of `caller` does to a game: the game after it, whether it was
/// accepted, and the note to announce.
pub open spec fn after_action(v: GameView, caller: Seq<char>, cmd: Command) -> (
    GameView,
    bool,
    Option<Seq<char>>,
) {
    if caller != v.turn {
        (v, false, None)
    } else {
        match cmd {
            Command::Play(card) => {
                if v.phase == Phase::Play && player_of(v.players, caller).hand.count(card) > 0 {
                    let w = GameView {
                        players: with_seat(
                            v.players,
                            caller,
                            player_of(v.players, caller).played(card),
                        ),
                        ..v
                    }.turn_passed();
                    (w, true, Some(turn_note(w.turn)))
                } else {
                    (v, false, None)
                }
            },
            Command::Bid(bid) => {
                if (v.phase == Phase::Play || v.phase == Phase::Bid) && bid_accepted(bid, v) {
                    let w = GameView {
                        phase: Phase::Bid,
                        max_bidder: Some(caller),
                        ..v
                    }.turn_passed();
                    (w, true, Some(bid_note(caller, bid, w.turn)))
                } else {
                    (v, false, None)
                }
            },
            Command::Pass => {
                if v.phase == Phase::Bid {
                    let w = v.turn_passed();
                    if w.max_bidder == Some(w.turn) {
                        (GameView { phase: Phase::Reveal, ..w }, true, Some(won_note(w.turn)))
                    } else {
                        (w, true, Some(turn_note(w.turn)))
                    }
                } else {
                    (v, false, None)
                }
            },
            Command::Reveal(_) => (v, false, None),
        }
    }
}

/// Whether a bid of `caller` can be weighed: when `cmd` is a bid that comes in turn
/// and in the play or bid phase, the highest bidder, if any, is a player and the cards
/// on the table can be counted.
pub open spec fn bid_checkable(v: GameView, caller: Seq<char>, cmd: Command) -> bool {
    (cmd is Bid && caller == v.turn && (v.phase == Phase::Play || v.phase == Phase::Bid)) ==> {
        &&& (v.max_bidder matches Some(b) ==> has_name(v.players, b))
        &&& table_size(v.players) <= usize::MAX
    }
}

/// What came of a command: whether it was accepted, the note to announce, and whether
/// it was refused because it was not the caller's turn.
pub struct ActionOutcome {
    pub accepted: bool,
    pub note: Option<String>,
    pub wrong_turn: bool,
}

pub open spec fn note_view(o: Option<String>) -> Option<Seq<char>> {
    match o {
        Some(s) => Some(s@),
        None => None,
    }
}

/// Plays `card` from `player`'s hand; returns whether the hand held one.
pub fn handle_play(card: Card, player: &mut PlayerState) -> (r: bool)
    ensures
        r == (old(player)@.hand.count(card) > 0),
        r ==> final(player)@ == old(player)@.played(card),
        !r ==> final(player)@ == old(player)@,
{
    player.play(&card)
}

/// Whether a bid of `bid` is accepted in `state`.
pub fn handle_bid(bid: u8, state: &GameState) -> (r: bool)
    requires
        names_sorted(state@.players),
        state@.max_bidder matches Some(b) ==> has_name(state@.players, b),
        table_size(state@.players) <= usize::MAX,
    ensures
        r == bid_accepted(bid, state@),
{
    let ghost s = state@.players;
    let mut in_play: usize = 0;
    let mut i: usize = 0;
    assert(s.take(0) =~= Seq::<(Seq<char>, PlayerView)>::empty());
    while i < state.players.len()
        invariant
            s == state@.players,
            table_size(s) <= usize::MAX,
            i <= state.players.len(),
            in_play == table_size(s.take(i as int)),
        decreases state.players.len() - i,
    {
        proof {
            assert(s.take(i + 1).drop_last() =~= s.take(i as int));
            lemma_table_size_prefix(s, i + 1);
            assert(s[i as int] == entry_view(state.players@[i as int]));
        }
        in_play = in_play + state.players[i].state.cards_in_play.len();
        i = i + 1;
    }
    assert(s.take(i as int) =~= s);
    let highest: u8 = match &state.max_bidder {
        Some(b) => {
            proof {
                lemma_has_name_at_slot(s, b@);
            }
            let j = state.locate(b);
            assert(s[j as int] == entry_view(state.players@[j as int]));
            state.players[j].state.bid
        },
        None => 0,
    };
    let low: u8 = (in_play % 256) as u8;
    (bid > highest) && (in_play >= 1) && (bid <= low)
}

/// The number of cards on the table never shrinks as more players are counted.
pub proof fn lemma_table_size_prefix(s: Seats, k: int)
    requires
        0 <= k <= s.len(),
    ensures
        0 <= table_size(s.take(k)) <= table_size(s),
    decreases s.len(),
{
    if s.len() > 0 {
        if k == s.len() {
            assert(s.take(k) =~= s);
            lemma_table_size_prefix(s.drop_last(), k - 1);
            assert(s.drop_last().take(k - 1) =~= s.drop_last());
        } else {
            lemma_table_size_prefix(s.drop_last(), k);
            assert(s.drop_last().take(k) =~= s.take(k));
        }
    }
}

/// Turning up a card of another player; not yet part of the game, so never accepted.
pub fn handle_reveal(player: String) -> (r: bool)
    ensures
        !r,
{
    false
}

/// Passes the turn to the player whose name follows that of the player to move,
/// or to the first player when none follows.
pub fn next_turn(state: &mut GameState)
    requires
        old(state)@.players.len() > 0,
    ensures
        final(state)@ == old(state)@.turn_passed(),
{
    let ghost s = state@.players;
    let i = state.locate(&state.turn);
    let j: usize = if i < state.players.len() && i + 1 < state.players.len() {
        i + 1
    } else {
        0
    };
    assert(s[j as int] == entry_view(state.players@[j as int]));
    state.turn = state.players[j].name.clone();
}

/// With the turn at the player at index `k`, passing it gives it to the player at
/// index `k + 1`, or back to the first player after the last: every player gets the
/// turn in the order of names, round after round.
pub proof fn lemma_turn_goes_round(v: GameView, k: int)
    requires
        v.well_formed(),
        0 <= k < v.players.len(),
        v.turn == v.players[k].0,
    ensures
        v.turn_passed().turn == v.players[(k + 1) % (v.players.len() as int)].0,
        v.turn_passed().well_formed(),
{
    lemma_slot_of_member(v.players, v.turn, k);
    let n = v.players.len() as int;
    if k + 1 < n {
        vstd::arithmetic::div_mod::lemma_small_mod((k + 1) as nat, n as nat);
    } else {
        vstd::arithmetic::div_mod::lemma_mod_self_0(n);
    }
    assert(has_name(v.players, v.turn_passed().turn) ) by {
        assert(v.players[(k + 1) % n].0 == v.turn_passed().turn);
    }
}

/// Passing the turn keeps a game well formed.
pub proof fn lemma_turn_passed_well_formed(v: GameView)
    requires
        v.well_formed(),
        v.players.len() > 0,
    ensures
        v.turn_passed().well_formed(),
{
    lemma_slot_bounds(v.players, v.turn);
    let i = slot(v.players, v.turn);
    if i + 1 < v.players.len() {
        assert(v.players[i + 1].0 == v.turn_passed().turn);
    } else {
        assert(v.players[0].0 == v.turn_passed().turn);
    }
}

/// The note that announces whose turn it is.
fn turn_note_string(turn: &String) -> (r: String)
    ensures
        r@ == turn_note(turn@),
{
    let mut s = turn.clone();
    s.append("'s turn!");
    s
}

/// The note that announces a bid and whose turn follows.
fn bid_note_string(bidder: &String, bid: u8, turn: &String) -> (r: String)
    ensures
        r@ == bid_note(bidder@, bid, turn@),
{
    let mut s = bidder.clone();
    s.append(" bid ");
    let d = decimal_string(bid);
    s.append(d.as_str());
    s.append(". ");
    s.append(turn.as_str());
    s.append("'s turn!");
    s
}

/// The note that announces the winner of the bidding.
fn won_note_string(turn: &String) -> (r: String)
    ensures
        r@ == won_note(turn@),
{
    let mut s = turn.clone();
    s.append(" won the bid");
    s
}

/// Carries out the command `cmd` of the player `caller`. A command from a player
/// whose turn it is not is refused and marked as such. A card may be played in the
/// play phase, a bid made in the play or bid phase, a pass made in the bid phase;
/// each of these passes the turn on. A pass that hands the turn back to the highest
/// bidder ends the bidding and starts the reveal phase. Returns whether the command
/// was accepted, with the note to announce.
pub fn handle_action(cmd: Command, caller: &String, state: &mut GameState) -> (r: ActionOutcome)
    requires
        names_sorted(old(state)@.players),
        caller@ == old(state)@.turn ==> has_name(old(state)@.players, caller@),
        bid_checkable(old(state)@, caller@, cmd),
    ensures
        final(state)@ == after_action(old(state)@, caller@, cmd).0,
        r.accepted == after_action(old(state)@, caller@, cmd).1,
        note_view(r.note) == after_action(old(state)@, caller@, cmd).2,
        r.wrong_turn == (caller@ != old(state)@.turn),
        old(state)@.well_formed() ==> final(state)@.well_formed(),
{
    if !(*caller == state.turn) {
        return ActionOutcome { accepted: false, note: None, wrong_turn: true };
    }
    let ghost v = state@;
    proof {
        lemma_has_name_at_slot(v.players, caller@);
        lemma_slot_bounds(v.players, caller@);
    }
    let p = state.locate(caller);
    match cmd {
        Command::Play(card) => {
            if state.phase == Phase::Play {
                let mut entry = state.players.remove(p);
                assert(entry_view(entry) == v.players[p as int]);
                let ok = handle_play(card, &mut entry.state);
                state.players.insert(p, entry);
                proof {
                    if ok {
                        assert(state@.players =~= with_seat(
                            v.players,
                            caller@,
                            player_of(v.players, caller@).played(card),
                        ));
                    } else {
                        assert(state@.players =~= v.players);
                    }
                    lemma_same_names_sorted(v.players, state@.players);
                }
                if ok {
                    proof {
                        if v.well_formed() {
                            lemma_turn_passed_well_formed(state@);
                        }
                    }
                    next_turn(state);
                    let note = turn_note_string(&state.turn);
                    ActionOutcome { accepted: true, note: Some(note), wrong_turn: false }
                } else {
                    ActionOutcome { accepted: false, note: None, wrong_turn: false }
                }
            } else {
                ActionOutcome { accepted: false, note: None, wrong_turn: false }
            }
        },
        Command::Bid(bid) => {
            if state.phase == Phase::Play || state.phase == Phase::Bid {
                if handle_bid(bid, state) {
                    state.phase = Phase::Bid;
                    state.max_bidder = Some(caller.clone());
                    proof {
                        if v.well_formed() {
                            lemma_turn_passed_well_formed(state@);
                        }
                    }
                    next_turn(state);
                    let note = bid_note_string(caller, bid, &state.turn);
                    ActionOutcome { accepted: true, note: Some(note), wrong_turn: false }
                } else {
                    ActionOutcome { accepted: false, note: None, wrong_turn: false }
                }
            } else {
                ActionOutcome { accepted: false, note: None, wrong_turn: false }
            }
        },
        Command::Pass => {
            if state.phase == Phase::Bid {
                proof {
                    if v.well_formed() {
                        lemma_turn_passed_well_formed(state@);
                    }
                }
                next_turn(state);
                let won = match &state.max_bidder {
                    Some(b) => state.turn == *b,
                    None => false,
                };
                if won {
                    state.phase = Phase::Reveal;
                    let note = won_note_string(&state.turn);
                    ActionOutcome { accepted: true, note: Some(note), wrong_turn: false }
                } else {
                    let note = turn_note_string(&state.turn);
                    ActionOutcome { accepted: true, note: Some(note), wrong_turn: false }
                }
            } else {
                ActionOutcome { accepted: false, note: None, wrong_turn: false }
            }
        },
        Command::Reveal(player) => {
            if state.phase == Phase::Reveal {
                let ok = handle_reveal(player);
                ActionOutcome { accepted: ok, note: None, wrong_turn: false }
            } else {
                ActionOutcome { accepted: false, note: None, wrong_turn: false }
            }
        },
    }
}

/// A command changes no player's name, and takes cards only out of hands: every
/// name stays, and a hand small enough to be obscured stays so.
pub proof fn lemma_after_action_keeps_players(v: GameView, caller: Seq<char>, cmd: Command)
    requires
        names_sorted(v.players),
        caller == v.turn ==> has_name(v.players, caller),
    ensures
        after_action(v, caller, cmd).0.players.len() == v.players.len(),
        forall|i: int|
            0 <= i < v.players.len() ==> (#[trigger] after_action(v, caller, cmd).0.players[i]).0
                == v.players[i].0,
        forall|i: int|
            0 <= i < v.players.len() && v.players[i].1.can_obscure() ==> (
            #[trigger] after_action(v, caller, cmd).0.players[i]).1.can_obscure(),
{
    let w = after_action(v, caller, cmd).0;
    if caller == v.turn {
        lemma_has_name_at_slot(v.players, caller);
        lemma_slot_bounds(v.players, caller);
        let k = slot(v.players, caller);
        match cmd {
            Command::Play(card) => {
                if v.phase == Phase::Play && player_of(v.players, caller).hand.count(card) > 0 {
                    let p = v.players[k].1;
                    assert(p.played(card).hand.roses + p.played(card).hand.skulls <= p.hand.roses
                        + p.hand.skulls);
                }
            },
            _ => {},
        }
    }
}

/// A command comes with a note exactly when it is accepted, and one that is not
/// accepted leaves the game as it was: among them every reveal, a play outside the
/// play phase or of a card not in hand, a bid outside the play and bid phases or not
/// above the highest, a pass outside the bid phase.
pub proof fn lemma_refused_changes_nothing(v: GameView, caller: Seq<char>, cmd: Command)
    ensures
        (after_action(v, caller, cmd).2 is Some) == after_action(v, caller, cmd).1,
        !after_action(v, caller, cmd).1 ==> after_action(v, caller, cmd).0 == v,
        cmd is Reveal ==> !after_action(v, caller, cmd).1,
{
}

/// The game after the turn has been passed on `j` times.
pub open spec fn passed_times(v: GameView, j: nat) -> GameView
    decreases j,
{
    if j == 0 {
        v
    } else {
        passed_times(v, (j - 1) as nat).turn_passed()
    }
}

/// With the turn at the player at index `k` of `n` players, after `j` passes it is at
/// the player at index `(k + j) % n`; only the turn changes.
pub proof fn lemma_passes_go_round(v: GameView, k: int, j: nat)
    requires
        v.well_formed(),
        0 <= k < v.players.len(),
        v.turn == v.players[k].0,
    ensures
        passed_times(v, j).turn == v.players[(k + j) % (v.players.len() as int)].0,
        passed_times(v, j).players == v.players,
        passed_times(v, j).phase == v.phase,
        passed_times(v, j).max_bidder == v.max_bidder,
        passed_times(v, j).well_formed(),
    decreases j,
{
    let n = v.players.len() as int;
    if j == 0 {
        vstd::arithmetic::div_mod::lemma_small_mod(k as nat, n as nat);
    } else {
        lemma_passes_go_round(v, k, (j - 1) as nat);
        let u = passed_times(v, (j - 1) as nat);
        let i = (k + j - 1) % n;
        vstd::arithmetic::div_mod::lemma_mod_pos_bound(k + j - 1, n);
        lemma_turn_goes_round(u, i);
        vstd::arithmetic::div_mod::lemma_add_mod_noop_right(1, k + j - 1, n);
        assert(i + 1 == 1 + i);
        assert(k + j == 1 + (k + j - 1));
    }
}

/// In a game of `n` players, `n` passes of the turn give it to every player, each at a
/// different pass, in the order of names after the player to move, and the last pass
/// hands it back to the player who moved first.
pub proof fn lemma_every_player_gets_the_turn(v: GameView, k: int)
    requires
        v.well_formed(),
        0 <= k < v.players.len(),
        v.turn == v.players[k].0,
    ensures
        passed_times(v, v.players.len()).turn == v.turn,
        forall|i: int|
            0 <= i < v.players.len() ==> exists|j: nat|
                1 <= j <= v.players.len() && #[trigger] passed_times(v, j).turn == (
                #[trigger] v.players[i]).0,
        forall|j1: nat, j2: nat|
            1 <= j1 < j2 <= v.players.len() ==> #[trigger] passed_times(v, j1).turn
                != #[trigger] passed_times(v, j2).turn,
{
    let n = v.players.len() as int;
    lemma_passes_go_round(v, k, n as nat);
    vstd::arithmetic::div_mod::lemma_mod_add_multiples_vanish(k, n);
    vstd::arithmetic::div_mod::lemma_small_mod(k as nat, n as nat);
    assert forall|i: int| 0 <= i < n implies exists|j: nat|
        1 <= j <= n && #[trigger] passed_times(v, j).turn == (#[trigger] v.players[i]).0 by {
        let j: nat = if i > k {
            (i - k) as nat
        } else {
            (i - k + n) as nat
        };
        lemma_passes_go_round(v, k, j);
        if i > k {
            vstd::arithmetic::div_mod::lemma_small_mod(i as nat, n as nat);
        } else {
            vstd::arithmetic::div_mod::lemma_mod_add_multiples_vanish(i, n);
            vstd::arithmetic::div_mod::lemma_small_mod(i as nat, n as nat);
            assert(k + j == n + i);
        }
    }
    assert forall|j1: nat, j2: nat| 1 <= j1 < j2 <= n implies #[trigger] passed_times(v, j1).turn
        != #[trigger] passed_times(v, j2).turn by {
        lemma_passes_go_round(v, k, j1);
        lemma_passes_go_round(v, k, j2);
        let a = (k + j1) % n;
        let b = (k + j2) % n;
        vstd::arithmetic::div_mod::lemma_mod_pos_bound(k + j1, n);
        vstd::arithmetic::div_mod::lemma_mod_pos_bound(k + j2, n);
        lemma_mod_apart(k + j1, k + j2, n);
        if a < b {
            assert(name_lt(v.players[a].0, v.players[b].0));
            lemma_name_lt_irreflexive(v.players[a].0);
        } else {
            assert(name_lt(v.players[b].0, v.players[a].0));
            lemma_name_lt_irreflexive(v.players[b].0);
        }
    }
}

/// Two numbers less than `n` apart leave different remainders.
proof fn lemma_mod_apart(x: int, y: int, n: int)
    requires
        0 <= x < y < x + n,
    ensures
        x % n != y % n,
{
    vstd::arithmetic::div_mod::lemma_fundamental_div_mod(x, n);
    vstd::arithmetic::div_mod::lemma_fundamental_div_mod(y, n);
    vstd::arithmetic::div_mod::lemma_mod_pos_bound(x, n);
    vstd::arithmetic::div_mod::lemma_mod_pos_bound(y, n);
    if x % n == y % n {
        assert(n * (y / n) - n * (x / n) == y - x);
        assert(n * (y / n - x / n) == y - x) by (nonlinear_arith)
            requires
                n * (y / n) - n * (x / n) == y - x,
        ;
        assert(false) by (nonlinear_arith)
            requires
                n * (y / n - x / n) == y - x,
                0 < y - x < n,
        ;
    }
}

/// Passing the turn on in a game with players gives it to a player.
pub proof fn lemma_turn_passed_to_a_player(v: GameView)
    requires
        v.players.len() > 0,
    ensures
        has_name(v.players, v.turn_passed().turn),
{
    lemma_slot_bounds(v.players, v.turn);
    let i = slot(v.players, v.turn);
    if i + 1 < v.players.len() {
        assert(v.players[i + 1].0 == v.turn_passed().turn);
    } else {
        assert(v.players[0].0 == v.turn_passed().turn);
    }
}

/// A command moves the game forward and never back: the phase stays, or goes from play
/// to bidding or from bidding to revealing; the players keep their names and their
/// order; the player to move stays a player; once somebody has bid, there stays a
/// highest bidder; and a well-formed game stays well formed.
pub proof fn lemma_action_moves_forward(v: GameView, caller: Seq<char>, cmd: Command)
    requires
        names_sorted(v.players),
        has_name(v.players, v.turn),
    ensures
        ({
            let w = after_action(v, caller, cmd).0;
            &&& w.phase == v.phase || (v.phase == Phase::Play && w.phase == Phase::Bid) || (
            v.phase == Phase::Bid && w.phase == Phase::Reveal)
            &&& w.players.len() == v.players.len()
            &&& forall|i: int| 0 <= i < v.players.len() ==> #[trigger] w.players[i].0 == v.players[i].0
            &&& names_sorted(w.players)
            &&& has_name(w.players, w.turn)
            &&& (v.max_bidder is Some ==> w.max_bidder is Some)
            &&& (v.well_formed() ==> w.well_formed())
        }),
{
    lemma_after_action_keeps_players(v, caller, cmd);
    let w = after_action(v, caller, cmd).0;
    lemma_same_names_sorted(v.players, w.players);
    assert(v.players.len() > 0);
    if caller == v.turn {
        match cmd {
            Command::Play(card) => {
                if v.phase == Phase::Play && player_of(v.players, caller).hand.count(card) > 0 {
                    lemma_turn_passed_to_a_player(
                        GameView {
                            players: with_seat(
                                v.players,
                                caller,
                                player_of(v.players, caller).played(card),
                            ),
                            ..v
                        },
                    );
                }
            },
            Command::Bid(bid) => {
                if (v.phase == Phase::Play || v.phase == Phase::Bid) && bid_accepted(bid, v) {
                    lemma_turn_passed_to_a_player(
                        GameView { phase: Phase::Bid, max_bidder: Some(caller), ..v },
                    );
                }
            },
            Command::Pass => {
                if v.phase == Phase::Bid {
                    lemma_turn_passed_to_a_player(v);
                }
            },
            Command::Reveal(_) => {},
        }
    }
}

/// A command from anyone but the player to move is refused and changes nothing.
pub proof fn lemma_out_of_turn_refused(v: GameView, caller: Seq<char>, cmd: Command)
    requires
        caller != v.turn,
    ensures
        after_action(v, caller, cmd) == (v, false, None::<Seq<char>>),
{
}

/// Commands that come in turn but at the wrong moment are refused and change nothing:
/// a play outside the play phase or of a card not in hand; a bid outside the play and
/// bid phases, not above the highest bid, with no card on the table, or above the
/// number of cards on the table; a pass outside the bid phase; any reveal.
pub proof fn lemma_untimely_commands_refused(v: GameView, k: int, cmd: Command)
    requires
        v.well_formed(),
        0 <= k < v.players.len(),
        v.turn == v.players[k].0,
        match cmd {
            Command::Play(card) => v.phase != Phase::Play || v.players[k].1.hand.count(card) == 0,
            Command::Bid(bid) => {
                ||| !(v.phase == Phase::Play || v.phase == Phase::Bid)
                ||| bid <= highest_bid(v)
                ||| table_size(v.players) == 0
                ||| bid > table_size(v.players) % 256
            },
            Command::Pass => v.phase != Phase::Bid,
            Command::Reveal(_) => true,
        },
    ensures
        after_action(v, v.turn, cmd) == (v, false, None::<Seq<char>>),
{
    lemma_slot_of_member(v.players, v.turn, k);
}

/// A card in the hand of the player to move, played in the play phase, is taken: it
/// leaves that player's hand for the table, no other player changes, the phase and
/// the highest bidder stay, the turn goes to the next player by name, and whose turn
/// it is gets announced.
pub proof fn lemma_play_in_turn_taken(v: GameView, k: int, card: Card)
    requires
        v.well_formed(),
        0 <= k < v.players.len(),
        v.turn == v.players[k].0,
        v.phase == Phase::Play,
        v.players[k].1.hand.count(card) > 0,
    ensures
        ({
            let (w, ok, note) = after_action(v, v.turn, Command::Play(card));
            &&& ok
            &&& w.phase == Phase::Play
            &&& w.max_bidder == v.max_bidder
            &&& w.players.len() == v.players.len()
            &&& w.players[k] == (v.players[k].0, v.players[k].1.played(card))
            &&& forall|j: int| 0 <= j < v.players.len() && j != k ==> #[trigger] w.players[j] == v.players[j]
            &&& w.turn == v.players[(k + 1) % (v.players.len() as int)].0
            &&& note == Some(turn_note(w.turn))
        }),
{
    lemma_slot_of_member(v.players, v.turn, k);
    let u = GameView {
        players: with_seat(v.players, v.turn, player_of(v.players, v.turn).played(card)),
        ..v
    };
    lemma_same_names_sorted(v.players, u.players);
    lemma_turn_goes_round(u, k);
}

/// A bid of the player to move, made in the play or bid phase, that is above the
/// highest bid and no more than the cards on the table (counted in a byte) is taken:
/// the bidder becomes the highest bidder, the game is in the bid phase, the players
/// stay as they were, the turn goes to the next player by name, and the bid is
/// announced.
pub proof fn lemma_bid_in_turn_taken(v: GameView, k: int, bid: u8)
    requires
        v.well_formed(),
        0 <= k < v.players.len(),
        v.turn == v.players[k].0,
        v.phase == Phase::Play || v.phase == Phase::Bid,
        bid > highest_bid(v),
        table_size(v.players) >= 1,
        bid <= table_size(v.players) % 256,
    ensures
        ({
            let (w, ok, note) = after_action(v, v.turn, Command::Bid(bid));
            &&& ok
            &&& w.phase == Phase::Bid
            &&& w.max_bidder == Some(v.turn)
            &&& w.players == v.players
            &&& w.turn == v.players[(k + 1) % (v.players.len() as int)].0
            &&& note == Some(bid_note(v.turn, bid, w.turn))
        }),
{
    lemma_turn_goes_round(GameView { phase: Phase::Bid, max_bidder: Some(v.turn), ..v }, k);
}

/// A pass of the player to move in the bid phase is taken: the players and the
/// highest bidder stay, and the turn goes to the next player by name. When that player
/// is the highest bidder, the bidding is over: the game turns to revealing and the
/// winner is announced; otherwise the bidding goes on and the next turn is announced.
pub proof fn lemma_pass_in_turn_taken(v: GameView, k: int)
    requires
        v.well_formed(),
        0 <= k < v.players.len(),
        v.turn == v.players[k].0,
        v.phase == Phase::Bid,
    ensures
        ({
            let (w, ok, note) = after_action(v, v.turn, Command::Pass);
            let next = v.players[(k + 1) % (v.players.len() as int)].0;
            &&& ok
            &&& w.players == v.players
            &&& w.max_bidder == v.max_bidder
            &&& w.turn == next
            &&& v.max_bidder == Some(next) ==> w.phase == Phase::Reveal && note == Some(won_note(next))
            &&& v.max_bidder != Some(next) ==> w.phase == Phase::Bid && note == Some(turn_note(next))
        }),
{
    lemma_turn_goes_round(v, k);
}

} // verus!
