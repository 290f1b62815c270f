use vstd::prelude::*;
use rand::Rng;
use std::collections::BTreeMap;
use vstd::std_specs::btree::{increasing_seq, spec_btree_map_iter};
use vstd::std_specs::iter::IteratorSpec;

use crate::ids::{
    ordered,
    sorted_ids,
    lemma_ids_count,
    lemma_walk_increasing,
    lemma_sorted_ids_is,
    lemma_sorted_ids_insert,
    lemma_sorted_ids_remove,
    lemma_sorted_ids_empty,
};

use crate::game_state::{GameState, GameView, has_name, lemma_has_name_at_slot, new_game};
use crate::game::{
    after_action,
    handle_action,
    table_size,
    lemma_after_action_keeps_players,
    lemma_refused_changes_nothing,
};
use crate::game_state::Phase;
use crate::messages::{ClientMessage, LobbyState, LobbyView, ServerMessage, ServerMessageView};

verus! {

/// A client of a lobby: its connection id, its user name and whether it hosts the lobby.
#[derive(Debug, Clone)]
pub struct ClientHandle {
    pub id: u128,
    pub uname: String,
    pub is_host: bool,
}

/// The clients of a lobby as (id, user name, host) triples.
pub type Members = Seq<(u128, Seq<char>, bool)>;

/// Whether the ids of `c` stand in strictly increasing order.
pub open spec fn ids_sorted(c: Members) -> bool {
    forall|i: int, j: int| 0 <= i < j < c.len() ==> #[trigger] c[i].0 < #[trigger] c[j].0
}

/// Whether some client of `c` has the id `id`.
pub open spec fn has_id(c: Members, id: u128) -> bool {
    exists|i: int| 0 <= i < c.len() && #[trigger] c[i].0 == id
}

/// The index of the first client of `c` whose id is not below `id`.
pub open spec fn id_slot(c: Members, id: u128) -> int
    decreases c.len(),
{
    if c.len() == 0 {
        0
    } else if !(c[0].0 < id) {
        0
    } else {
        1 + id_slot(c.skip(1), id)
    }
}

/// The user name of the client with id `id` (meaningful where `has_id(c, id)`).
pub open spec fn uname_of(c: Members, id: u128) -> Seq<char> {
    c[id_slot(c, id)].1
}

/// How many clients of `c` are marked as host.
pub open spec fn host_count(c: Members) -> int
    decreases c.len(),
{
    if c.len() == 0 {
        0
    } else {
        host_count(c.drop_last()) + if c.last().2 {
            1int
        } else {
            0int
        }
    }
}

/// The name of the last client marked as host, or the empty name when none is.
pub open spec fn host_name(c: Members) -> Seq<char>
    decreases c.len(),
{
    if c.len() == 0 {
        Seq::empty()
    } else if c.last().2 {
        c.last().1
    } else {
        host_name(c.drop_last())
    }
}

/// The names of the clients not marked as host, in the order of their ids.
pub open spec fn guest_names(c: Members) -> Seq<Seq<char>>
    decreases c.len(),
{
    if c.len() == 0 {
        Seq::empty()
    } else if c.last().2 {
        guest_names(c.drop_last())
    } else {
        guest_names(c.drop_last()).push(c.last().1)
    }
}

/// The clients after `id` registers under `uname`: an existing client of that id is
/// replaced by a client that does not host; a new client is placed by its id and hosts
/// the lobby exactly when it is the first.
pub open spec fn registered(c: Members, id: u128, uname: Seq<char>) -> Members {
    if has_id(c, id) {
        c.update(id_slot(c, id), (id, uname, false))
    } else {
        c.insert(id_slot(c, id), (id, uname, c.len() == 0))
    }
}

/// The clients after the client `id` leaves: when the host leaves, the client with
/// the lowest id becomes host.
pub open spec fn dropped(c: Members, id: u128) -> Members {
    let d = c.remove(id_slot(c, id));
    if d.len() > 0 && c[id_slot(c, id)].2 {
        d.update(0, (d[0].0, d[0].1, true))
    } else {
        d
    }
}

/// What a lobby tells its clients about who is in it.
pub open spec fn lobby_info_of(c: Members) -> LobbyView {
    LobbyView { count: c.len() as usize, unames: guest_names(c), host: host_name(c) }
}

/// A lobby hosted by exactly one client while it has clients.
pub open spec fn one_host(c: Members) -> bool {
    host_count(c) == if c.len() > 0 {
        1int
    } else {
        0int
    }
}

/// Properties of `id_slot`: the ids before it are below `id`, the one at it is not.
pub proof fn lemma_id_slot_bounds(c: Members, id: u128)
    ensures
        0 <= id_slot(c, id) <= c.len(),
        forall|j: int| 0 <= j < id_slot(c, id) ==> #[trigger] c[j].0 < id,
        id_slot(c, id) < c.len() ==> !(c[id_slot(c, id)].0 < id),
    decreases c.len(),
{
    if c.len() > 0 && c[0].0 < id {
        lemma_id_slot_bounds(c.skip(1), id);
        assert forall|j: int| 0 <= j < id_slot(c, id) implies #[trigger] c[j].0 < id by {
            if j > 0 {
                assert(c[j] == c.skip(1)[j - 1]);
            }
        }
    }
}

/// In sorted clients, a present id stands at its slot and an absent one does not.
pub proof fn lemma_id_at_slot(c: Members, id: u128)
    requires
        ids_sorted(c),
    ensures
        has_id(c, id) <==> (id_slot(c, id) < c.len() && c[id_slot(c, id)].0 == id),
        forall|i: int| 0 <= i < c.len() && c[i].0 == id ==> id_slot(c, id) == i,
{
    lemma_id_slot_bounds(c, id);
    let k = id_slot(c, id);
    assert forall|i: int| 0 <= i < c.len() && c[i].0 == id implies id_slot(c, id) == i by {
        if k > i {
            assert(c[i].0 < id);
        }
        if k < i {
            assert(c[k].0 < c[i].0);
        }
    }
}

/// Host counts add up over concatenation.
pub proof fn lemma_host_count_concat(a: Members, b: Members)
    ensures
        host_count(a + b) == host_count(a) + host_count(b),
    decreases b.len(),
{
    if b.len() == 0 {
        assert(a + b =~= a);
    } else {
        lemma_host_count_concat(a, b.drop_last());
        assert((a + b).drop_last() =~= a + b.drop_last());
    }
}

/// Host counts are never negative.
pub proof fn lemma_host_count_nonneg(c: Members)
    ensures
        host_count(c) >= 0,
    decreases c.len(),
{
    if c.len() > 0 {
        lemma_host_count_nonneg(c.drop_last());
    }
}

/// The host count of a single client.
pub proof fn lemma_host_count_single(x: (u128, Seq<char>, bool))
    ensures
        host_count(seq![x]) == if x.2 {
            1int
        } else {
            0int
        },
{
    let e = Seq::<(u128, Seq<char>, bool)>::empty();
    assert(seq![x].drop_last() =~= e);
    assert(host_count(e) == 0);
    assert(seq![x].last() == x);
}

/// The host count after inserting, removing or replacing one client.
pub proof fn lemma_host_count_edit(c: Members, k: int, x: (u128, Seq<char>, bool))
    ensures
        0 <= k <= c.len() ==> host_count(c.insert(k, x)) == host_count(c) + if x.2 {
            1int
        } else {
            0int
        },
        0 <= k < c.len() ==> host_count(c.remove(k)) == host_count(c) - if c[k].2 {
            1int
        } else {
            0int
        },
        0 <= k < c.len() ==> host_count(c.update(k, x)) == host_count(c) - (if c[k].2 {
            1int
        } else {
            0int
        }) + (if x.2 {
            1int
        } else {
            0int
        }),
{
    lemma_host_count_single(x);
    if 0 <= k <= c.len() {
        assert(c =~= c.take(k) + c.skip(k));
        lemma_host_count_concat(c.take(k), c.skip(k));
        assert(c.insert(k, x) =~= c.take(k) + (seq![x] + c.skip(k)));
        lemma_host_count_concat(c.take(k), seq![x] + c.skip(k));
        lemma_host_count_concat(seq![x], c.skip(k));
    }
    if 0 <= k < c.len() {
        lemma_host_count_single(c[k]);
        assert(c.skip(k) =~= seq![c[k]] + c.skip(k + 1));
        lemma_host_count_concat(seq![c[k]], c.skip(k + 1));
        assert(c.remove(k) =~= c.take(k) + c.skip(k + 1));
        lemma_host_count_concat(c.take(k), c.skip(k + 1));
        assert(c.update(k, x) =~= c.take(k) + (seq![x] + c.skip(k + 1)));
        lemma_host_count_concat(c.take(k), seq![x] + c.skip(k + 1));
        lemma_host_count_concat(seq![x], c.skip(k + 1));
    }
}

/// Every client is either the host or a guest: the guests number the clients less
/// the hosts.
pub proof fn lemma_guest_count(c: Members)
    ensures
        guest_names(c).len() == c.len() - host_count(c),
    decreases c.len(),
{
    if c.len() > 0 {
        lemma_guest_count(c.drop_last());
    }
}

/// The host named in the lobby news is a client marked as host, whenever one is.
pub proof fn lemma_host_name_is_host(c: Members)
    requires
        host_count(c) > 0,
    ensures
        exists|i: int| 0 <= i < c.len() && (#[trigger] c[i]).2 && c[i].1 == host_name(c),
    decreases c.len(),
{
    if c.last().2 {
        assert(c[c.len() - 1].2);
    } else {
        lemma_host_name_is_host(c.drop_last());
        let i = choose|i: int|
            0 <= i < c.drop_last().len() && (#[trigger] c.drop_last()[i]).2 && c.drop_last()[i].1
                == host_name(c.drop_last());
        assert(c[i] == c.drop_last()[i]);
    }
}

/// Whether a client does not host the lobby.
pub open spec fn is_guest(x: (u128, Seq<char>, bool)) -> bool {
    !x.2
}

/// The lobby news name as guests exactly the clients that do not host the lobby, in
/// the order of their ids.
pub proof fn lemma_guests_are_the_non_hosts(c: Members)
    ensures
        guest_names(c) == c.filter(|x: (u128, Seq<char>, bool)| is_guest(x)).map_values(
            |x: (u128, Seq<char>, bool)| x.1,
        ),
    decreases c.len(),
{
    reveal(Seq::filter);
    if c.len() > 0 {
        lemma_guests_are_the_non_hosts(c.drop_last());
        let f = c.filter(|x: (u128, Seq<char>, bool)| is_guest(x));
        let g = c.drop_last().filter(|x: (u128, Seq<char>, bool)| is_guest(x));
        if c.last().2 {
            assert(f == g);
        } else {
            assert(f == g.push(c.last()));
            assert(f.map_values(|x: (u128, Seq<char>, bool)| x.1) =~= g.map_values(
                |x: (u128, Seq<char>, bool)| x.1,
            ).push(c.last().1));
        }
    } else {
        assert(c.filter(|x: (u128, Seq<char>, bool)| is_guest(x)).map_values(
            |x: (u128, Seq<char>, bool)| x.1,
        ) =~= Seq::<Seq<char>>::empty());
    }
}

/// In a lobby hosted by one client, the lobby news count every client once: the host
/// and each guest.
pub proof fn lemma_lobby_info_counts(c: Members)
    requires
        one_host(c),
        c.len() > 0,
        c.len() <= usize::MAX,
    ensures
        lobby_info_of(c).count == lobby_info_of(c).unames.len() + 1,
        exists|i: int| 0 <= i < c.len() && (#[trigger] c[i]).2 && c[i].1 == lobby_info_of(c).host,
{
    lemma_guest_count(c);
    lemma_host_name_is_host(c);
}

/// What a lobby does in answer to a message of a client.
#[derive(Debug)]
pub enum LobbyEffect {
    /// Send a message to every client of the lobby.
    NotifyAll(ServerMessage),
    /// Send a message to the client with this id.
    NotifyOne(u128, ServerMessage),
    /// Send every client the game as that client may see it.
    SendPartialStates,
    /// Give the clients a moment to catch up.
    Pause,
    /// Close the lobby: nobody is left in it.
    Close,
}

/// The mathematical value of a [`LobbyEffect`].
pub enum EffectView {
    NotifyAll(ServerMessageView),
    NotifyOne(u128, ServerMessageView),
    SendPartialStates,
    Pause,
    Close,
}

impl View for LobbyEffect {
    type V = EffectView;

    open spec fn view(&self) -> EffectView {
        match self {
            LobbyEffect::NotifyAll(m) => EffectView::NotifyAll(m@),
            LobbyEffect::NotifyOne(id, m) => EffectView::NotifyOne(*id, m@),
            LobbyEffect::SendPartialStates => EffectView::SendPartialStates,
            LobbyEffect::Pause => EffectView::Pause,
            LobbyEffect::Close => EffectView::Close,
        }
    }
}

pub open spec fn effects_view(v: Seq<LobbyEffect>) -> Seq<EffectView> {
    v.map_values(|e: LobbyEffect| e@)
}

/// The characters of a lobby id.
pub open spec fn lobby_id_charset() -> Seq<char> {
    "ABCDEFGHIJKLMNOPQRSTUVWXYZ0123456789"@
}

/// The lobby id spelled by `indices`, each an index into the lobby id characters.
pub open spec fn lobby_id_of(indices: Seq<usize>) -> Seq<char> {
    indices.map_values(|i: usize| lobby_id_charset()[i as int])
}

/// Every four characters, each a capital letter or a digit, spell a lobby id from
/// indices below 36: no id of that shape is out of reach of `random_id`'s draws.
pub proof fn lemma_every_id_can_be_drawn(id: Seq<char>)
    requires
        id.len() == 4,
        forall|i: int| 0 <= i < 4 ==> lobby_id_charset().contains(#[trigger] id[i]),
    ensures
        exists|indices: Seq<usize>|
            indices.len() == 4 && (forall|i: int| 0 <= i < 4 ==> #[trigger] indices[i] < 36)
                && lobby_id_of(indices) == id,
{
    reveal_strlit("ABCDEFGHIJKLMNOPQRSTUVWXYZ0123456789");
    let cs = lobby_id_charset();
    assert(cs.len() == 36);
    let indices = Seq::new(
        4,
        |i: int| (choose|j: int| 0 <= j < cs.len() && cs[j] == id[i]) as usize,
    );
    assert forall|i: int| 0 <= i < 4 implies #[trigger] indices[i] < 36 && cs[indices[i] as int]
        == id[i] by {
        assert(cs.contains(id[i]));
        let j = choose|j: int| 0 <= j < cs.len() && cs[j] == id[i];
        assert(indices[i] == j as usize);
    }
    assert(lobby_id_of(indices) =~= id);
}

#[verifier::external_type_specification]
#[verifier::external_body]
pub struct ExThreadRng(rand::rngs::ThreadRng);

/// `rand::thread_rng`: the generator of random numbers of this thread. Nothing is
/// claimed of it.
#[verifier::external_body]
fn thread_rng() -> (r: rand::rngs::ThreadRng) {
    rand::thread_rng()
}

/// `rand::Rng::gen_range` over `0..bound`: a random index below `bound`. Claimed: the
/// result is below `bound`; `bound` must be positive, as the range may not be empty.
#[verifier::external_body]
fn gen_index(rng: &mut rand::rngs::ThreadRng, bound: usize) -> (r: usize)
    requires
        bound > 0,
    ensures
        r < bound,
{
    rng.gen_range(0..bound)
}

/// The lobby id spelled by `indices`.
pub fn lobby_id_from_indices(indices: &Vec<usize>) -> (r: String)
    requires
        forall|i: int| 0 <= i < indices@.len() ==> #[trigger] indices@[i] < 36,
    ensures
        r@ == lobby_id_of(indices@),
{
    let charset: &str = "ABCDEFGHIJKLMNOPQRSTUVWXYZ0123456789";
    proof {
        reveal_strlit("ABCDEFGHIJKLMNOPQRSTUVWXYZ0123456789");
    }
    assert(charset@.len() == 36);
    let mut r = String::new();
    let mut k: usize = 0;
    while k < indices.len()
        invariant
            charset@ == lobby_id_charset(),
            charset@.len() == 36,
            forall|i: int| 0 <= i < indices@.len() ==> #[trigger] indices@[i] < 36,
            k <= indices.len(),
            r@ =~= lobby_id_of(indices@.take(k as int)),
        decreases indices.len() - k,
    {
        let i = indices[k];
        let c = charset.substring_char(i, i + 1);
        r.append(c);
        k = k + 1;
        assert(lobby_id_of(indices@.take(k as int)) =~= lobby_id_of(indices@.take(k - 1)).push(
            lobby_id_charset()[i as int],
        ));
    }
    assert(indices@.take(k as int) =~= indices@);
    r
}

/// A lobby: its id, the game played in it and its clients by id.
#[derive(Debug)]
pub struct Lobby {
    pub id: String,
    pub game_state: GameState,
    pub connections: BTreeMap<u128, ClientHandle>,
}

/// The clients of a map from ids to clients, in the order of their ids.
pub open spec fn members_of(m: Map<u128, ClientHandle>) -> Members {
    sorted_ids(m.dom()).map_values(|k: u128| (k, m[k].uname@, m[k].is_host))
}

/// What the clients listed in the order of their ids show of the map.
pub proof fn lemma_members_of(m: Map<u128, ClientHandle>)
    requires
        ordered(m.dom()),
    ensures
        members_of(m).len() == sorted_ids(m.dom()).len(),
        forall|i: int|
            0 <= i < members_of(m).len() ==> #[trigger] members_of(m)[i] == (
                sorted_ids(m.dom())[i],
                m[sorted_ids(m.dom())[i]].uname@,
                m[sorted_ids(m.dom())[i]].is_host,
            ),
        ids_sorted(members_of(m)),
        forall|id: u128| #[trigger] has_id(members_of(m), id) <==> m.dom().contains(id),
        (members_of(m).len() == 0) <==> m.dom().is_empty(),
{
    let q = sorted_ids(m.dom());
    let c = members_of(m);
    assert forall|i: int, j: int| 0 <= i < j < c.len() implies #[trigger] c[i].0 < #[trigger] c[j].0 by {
        assert(q[i] < q[j]);
    }
    assert forall|id: u128| #[trigger] has_id(c, id) <==> m.dom().contains(id) by {
        if has_id(c, id) {
            let i = choose|i: int| 0 <= i < c.len() && #[trigger] c[i].0 == id;
            assert(q[i] == id);
            assert(q.contains(id));
            assert(q.to_set().contains(id));
        }
        if m.dom().contains(id) {
            assert(q.to_set().contains(id));
            assert(q.contains(id));
            let i = choose|i: int| 0 <= i < q.len() && q[i] == id;
            assert(c[i].0 == id);
        }
    }
    if c.len() > 0 {
        assert(q.to_set().contains(q[0]));
    } else {
        assert forall|x: u128| !m.dom().contains(x) by {
            if m.dom().contains(x) {
                assert(q.to_set().contains(x));
                assert(q.contains(x));
            }
        }
        assert(m.dom() =~= Set::<u128>::empty());
    }
}

/// The mathematical value of a [`Lobby`].
pub struct LobbyModel {
    pub id: Seq<char>,
    pub game: GameView,
    pub members: Members,
}

impl Lobby {
    /// A random lobby id of four characters, each a capital letter or a digit.
    pub fn random_id() -> (r: String)
        ensures
            exists|indices: Seq<usize>|
                indices.len() == 4 && (forall|i: int| 0 <= i < 4 ==> #[trigger] indices[i] < 36)
                    && r@ == lobby_id_of(indices),
    {
        let mut rng = thread_rng();
        let mut indices: Vec<usize> = Vec::new();
        let mut k: usize = 0;
        while k < 4
            invariant
                k <= 4,
                indices@.len() == k,
                forall|i: int| 0 <= i < k ==> #[trigger] indices@[i] < 36,
            decreases 4 - k,
        {
            let i = gen_index(&mut rng, 36);
            indices.push(i);
            k = k + 1;
        }
        lobby_id_from_indices(&indices)
    }

}

impl View for Lobby {
    type V = LobbyModel;

    open spec fn view(&self) -> LobbyModel {
        LobbyModel {
            id: self.id@,
            game: self.game_state@,
            members: members_of(self.connections@),
        }
    }
}

impl LobbyModel {
    /// Clients sorted by id, a well-formed game, every client a player of the game, and
    /// every hand small enough to be shown to an opponent.
    pub open spec fn well_formed(self) -> bool {
        &&& ids_sorted(self.members)
        &&& self.game.well_formed()
        &&& forall|i: int|
            0 <= i < self.members.len() ==> has_name(self.game.players, #[trigger] self.members[i].1)
        &&& forall|i: int|
            0 <= i < self.game.players.len() ==> (#[trigger] self.game.players[i]).1.can_obscure()
    }
}

/// What follows a registration: a moment for the new client to take in the lobby id,
/// then the news of who is in the lobby, to everyone.
pub open spec fn admit_effects(m: Members) -> Seq<EffectView> {
    seq![
        EffectView::Pause,
        EffectView::NotifyAll(ServerMessageView::Lobby(lobby_info_of(m))),
    ]
}

/// What follows a client's leaving: the lobby news to every client left.
pub open spec fn dismiss_effects(m: Members) -> Seq<EffectView> {
    seq![EffectView::NotifyAll(ServerMessageView::Lobby(lobby_info_of(m)))]
}

/// Whether the client `id` may start the game: it hosts the lobby, and the lobby has
/// three clients or more.
pub open spec fn may_start(c: Members, id: u128) -> bool {
    &&& has_id(c, id)
    &&& c[id_slot(c, id)].2
    &&& c.len() >= 3
}

/// What the client `id` leaving does: it is dropped if it is there (and the others are
/// told who is left), and the lobby closes once nobody is left.
pub open spec fn leave_reaction(l: LobbyModel, id: u128) -> (LobbyModel, Seq<EffectView>) {
    let m = if has_id(l.members, id) {
        dropped(l.members, id)
    } else {
        l.members
    };
    let told = if has_id(l.members, id) {
        dismiss_effects(m)
    } else {
        Seq::empty()
    };
    let fx = if m.len() == 0 {
        told.push(EffectView::Close)
    } else {
        told
    };
    (LobbyModel { members: m, ..l }, fx)
}

/// What the command `cmd` of the client `id` does: the game moves on as the command
/// says; a client whose turn it is not is told its request is invalid; after an
/// accepted command every client gets the game anew, then the note of the server.
pub open spec fn command_reaction(l: LobbyModel, id: u128, cmd: crate::messages::Command) -> (
    LobbyModel,
    Seq<EffectView>,
) {
    let caller = uname_of(l.members, id);
    let (g, accepted, note) = after_action(l.game, caller, cmd);
    let refused = if caller != l.game.turn {
        seq![EffectView::NotifyOne(id, ServerMessageView::InvalidReq)]
    } else {
        Seq::empty()
    };
    let fx = if accepted {
        match note {
            Some(n) => refused + seq![
                EffectView::SendPartialStates,
                EffectView::NotifyAll(ServerMessageView::Chat("Server"@, n)),
            ],
            None => refused.push(EffectView::SendPartialStates),
        }
    } else {
        refused
    };
    (LobbyModel { game: g, ..l }, fx)
}

/// What a lobby does with the message `msg` of the client `id`.
pub open spec fn reaction(l: LobbyModel, id: u128, msg: ClientMessage) -> (
    LobbyModel,
    Seq<EffectView>,
) {
    match msg {
        ClientMessage::Leave => leave_reaction(l, id),
        ClientMessage::Dead => leave_reaction(l, id),
        ClientMessage::Start => if may_start(l.members, id) {
            (
                LobbyModel { game: GameView { phase: Phase::Play, ..l.game }, ..l },
                seq![
                    EffectView::NotifyAll(ServerMessageView::Starting),
                    EffectView::Pause,
                    EffectView::SendPartialStates,
                ],
            )
        } else {
            (l, seq![EffectView::NotifyOne(id, ServerMessageView::InvalidReq)])
        },
        ClientMessage::Do(cmd) => command_reaction(l, id, cmd),
        ClientMessage::Chat(text) => (
            l,
            seq![
                EffectView::NotifyAll(
                    ServerMessageView::Chat(uname_of(l.members, id), text@),
                ),
            ],
        ),
        ClientMessage::Join(_, _) => (l, Seq::empty()),
    }
}

/// Walks the clients once: the walk lists their ids in increasing order, which shows
/// that the ids can be so listed, and pairs each with its client.
fn clients_in_order(m: &BTreeMap<u128, ClientHandle>)
    ensures
        ordered(m@.dom()),
        spec_btree_map_iter(m).remaining().len() == sorted_ids(m@.dom()).len(),
        forall|i: int|
            0 <= i < sorted_ids(m@.dom()).len() ==> *(#[trigger] spec_btree_map_iter(
                m,
            ).remaining()[i]).0 == sorted_ids(m@.dom())[i] && *spec_btree_map_iter(m).remaining()[i].1
                == m@[sorted_ids(m@.dom())[i]],
{
    let walk = m.iter();
    proof {
        let all = spec_btree_map_iter(m).remaining();
        let ks = all.map_values(|kv: (&u128, &ClientHandle)| *kv.0);
        assert(increasing_seq(ks));
        lemma_walk_increasing(ks);
        assert forall|k: u128| ks.to_set().contains(k) <==> m@.dom().contains(k) by {
            if m@.dom().contains(k) {
                assert(all.contains((&k, &m@[k])));
                let i = choose|i: int| 0 <= i < all.len() && all[i] == (&k, &m@[k]);
                assert(ks[i] == k);
                assert(ks.contains(k));
            }
            if ks.to_set().contains(k) {
                assert(ks.contains(k));
                let i = choose|i: int| 0 <= i < ks.len() && ks[i] == k;
                assert(m@.contains_key(*all[i].0));
            }
        }
        assert(ks.to_set() =~= m@.dom());
        lemma_sorted_ids_is(ks, m@.dom());
        assert forall|i: int| 0 <= i < sorted_ids(m@.dom()).len() implies *(#[trigger] all[i]).0
            == sorted_ids(m@.dom())[i] && *all[i].1 == m@[sorted_ids(m@.dom())[i]] by {
            assert(ks[i] == *all[i].0);
            assert(m@.contains_key(*all[i].0));
        }
    }
}

impl Lobby {
    /// A lobby with the id `id`, a new game and no clients.
    pub fn new(id: String) -> (r: Lobby)
        ensures
            r@.id == id@,
            r@.game == new_game(),
            r@.members == Seq::<(u128, Seq<char>, bool)>::empty(),
            r@.well_formed(),
            one_host(r@.members),
    {
        let r = Lobby { id, game_state: GameState::new(), connections: BTreeMap::new() };
        proof {
            assert(r.connections@.dom() =~= Set::<u128>::empty());
            lemma_sorted_ids_empty();
        }
        assert(r@.members =~= Seq::<(u128, Seq<char>, bool)>::empty());
        r
    }

    /// Registers the client `id` under the name `uname` (replacing a client of the same
    /// id) and lets the name join the game: a new player, or the player of that name
    /// started afresh.
    #[verifier::spinoff_prover]
    #[verifier::rlimit(50)]
    pub fn register_client(&mut self, id: u128, uname: String)
        requires
            old(self)@.well_formed(),
        ensures
            final(self)@.id == old(self)@.id,
            final(self)@.members == registered(old(self)@.members, id, uname@),
            final(self)@.game == old(self)@.game.with_player(uname@),
            final(self)@.well_formed(),
            !has_id(old(self)@.members, id) && one_host(old(self)@.members) ==> one_host(
                final(self)@.members,
            ),
    {
        clients_in_order(&self.connections);
        let ghost m = self.connections@;
        let ghost c = self@.members;
        let ghost g = self@.game;
        let ghost q = sorted_ids(m.dom());
        proof {
            lemma_members_of(m);
            lemma_id_at_slot(c, id);
            lemma_id_slot_bounds(c, id);
        }
        let ghost k = id_slot(c, id);
        let is_host = self.connections.is_empty();
        let handle = ClientHandle { id, uname: uname.clone(), is_host };
        self.connections.insert(id, handle);
        proof {
            let m2 = self.connections@;
            if m.dom().contains(id) {
                assert(m2.dom() =~= m.dom());
                assert(q[k] == id);
                assert(self@.members =~= c.update(k, (id, uname@, false)));
                lemma_host_count_edit(c, k, (id, uname@, false));
            } else {
                assert forall|j: int| 0 <= j < k implies #[trigger] q[j] < id by {
                    assert(c[j].0 == q[j]);
                }
                assert forall|j: int| k <= j < q.len() implies !(#[trigger] q[j] < id) by {
                    assert(c[j].0 == q[j]);
                    if j > k {
                        assert(c[k].0 < c[j].0);
                    }
                }
                lemma_sorted_ids_insert(m.dom(), id, k);
                assert(m2.dom() =~= m.dom().insert(id));
                assert(self@.members =~= c.insert(k, (id, uname@, c.len() == 0)));
                lemma_host_count_edit(c, k, (id, uname@, c.len() == 0));
            }
            lemma_members_of(m2);
        }
        self.game_state.add_player(uname);
        proof {
            let t = self@.members;
            let gp = self@.game.players;
            lemma_has_name_at_slot(g.players, uname@);
            crate::game_state::lemma_slot_bounds(g.players, uname@);
            let sl = crate::game_state::slot(g.players, uname@);
            assert forall|i: int| 0 <= i < gp.len() implies (#[trigger] gp[i]).1.can_obscure() by {
                if i != sl {
                    if !has_name(g.players, uname@) && i > sl {
                        assert(gp[i] == g.players[i - 1]);
                    } else {
                        assert(gp[i] == g.players[i]);
                    }
                }
            }
            assert forall|i: int| 0 <= i < t.len() implies has_name(gp, #[trigger] t[i].1) by {
                if t[i].1 != uname@ {
                    let j: int = if has_id(c, id) {
                        i
                    } else if i < k {
                        i
                    } else {
                        i - 1
                    };
                    assert(t[i].1 == c[j].1);
                    assert(has_name(g.players, c[j].1));
                }
            }
        }
    }

    /// Registers the client `id` under the name `uname` as `register_client` does, and
    /// returns what follows: a pause, then the lobby news to every client.
    pub fn admit_client(&mut self, id: u128, uname: String) -> (r: Vec<LobbyEffect>)
        requires
            old(self)@.well_formed(),
        ensures
            final(self)@.id == old(self)@.id,
            final(self)@.members == registered(old(self)@.members, id, uname@),
            final(self)@.game == old(self)@.game.with_player(uname@),
            final(self)@.well_formed(),
            !has_id(old(self)@.members, id) && one_host(old(self)@.members) ==> one_host(
                final(self)@.members,
            ),
            effects_view(r@) == admit_effects(final(self)@.members),
    {
        self.register_client(id, uname);
        let mut fx: Vec<LobbyEffect> = Vec::new();
        fx.push(LobbyEffect::Pause);
        fx.push(LobbyEffect::NotifyAll(ServerMessage::Lobby(self.lobby_info())));
        assert(effects_view(fx@) =~= admit_effects(self@.members));
        fx
    }

    /// Makes the client with the lowest id the host.
    fn make_first_host(&mut self)
        requires
            ordered(old(self).connections@.dom()),
            old(self)@.members.len() > 0,
        ensures
            final(self)@.id == old(self)@.id,
            final(self)@.game == old(self)@.game,
            ordered(final(self).connections@.dom()),
            final(self)@.members == old(self)@.members.update(
                0,
                (old(self)@.members[0].0, old(self)@.members[0].1, true),
            ),
    {
        clients_in_order(&self.connections);
        let ghost m = self.connections@;
        let ghost c = self@.members;
        let ghost q = sorted_ids(m.dom());
        proof {
            lemma_members_of(m);
        }
        let ghost all = spec_btree_map_iter(&self.connections).remaining();
        let mut next_host: Option<(u128, ClientHandle)> = None;
        for kv in it: self.connections.iter()
            invariant
                it.seq() == all,
                it.index() == 0 ==> next_host is None,
                it.index() > 0 ==> (next_host matches Some(nh) && nh.0 == *all[0].0
                    && nh.1.uname@ == all[0].1.uname@ && nh.1.is_host),
        {
            if next_host.is_none() {
                let (hk, h) = kv;
                next_host = Some((*hk, ClientHandle { id: h.id, uname: h.uname.clone(), is_host: true }));
            }
        }
        match next_host {
            Some(nh) => {
                let (hk, h) = nh;
                assert(hk == q[0]);
                assert(h.uname@ == c[0].1);
                self.connections.insert(hk, h);
                proof {
                    let m2 = self.connections@;
                    assert(m2.dom() =~= m.dom());
                    let t = self@.members;
                    let u = c.update(0, (c[0].0, c[0].1, true));
                    assert forall|i: int| 0 <= i < t.len() implies t[i] == u[i] by {
                        if i > 0 {
                            assert(q[0] < q[i]);
                            assert(m2[q[i]] == m[q[i]]);
                        }
                    }
                    assert(t =~= u);
                }
            },
            None => {},
        }
    }

    /// Removes the client `id`; when it hosted the lobby, the client with the lowest id
    /// becomes host.
    #[verifier::spinoff_prover]
    #[verifier::rlimit(50)]
    pub fn drop_client(&mut self, id: u128)
        requires
            old(self)@.well_formed(),
            has_id(old(self)@.members, id),
        ensures
            final(self)@.id == old(self)@.id,
            final(self)@.game == old(self)@.game,
            final(self)@.members == dropped(old(self)@.members, id),
            final(self)@.well_formed(),
            one_host(old(self)@.members) ==> one_host(final(self)@.members),
    {
        clients_in_order(&self.connections);
        let ghost m = self.connections@;
        let ghost c = self@.members;
        let ghost q = sorted_ids(m.dom());
        proof {
            lemma_members_of(m);
            lemma_id_at_slot(c, id);
            lemma_id_slot_bounds(c, id);
        }
        let ghost k = id_slot(c, id);
        let removed = self.connections.remove(&id);
        let was_host = match removed {
            Some(h) => h.is_host,
            None => false,
        };
        let ghost d = c.remove(k);
        proof {
            assert(q[k] == id);
            lemma_sorted_ids_remove(m.dom(), k);
            assert(self.connections@ == m.remove(id));
            assert(self.connections@.dom() =~= m.dom().remove(id));
            assert(self@.members =~= d);
            assert(was_host == c[k].2);
            lemma_host_count_edit(c, k, c[k]);
            lemma_members_of(self.connections@);
        }
        if !self.connections.is_empty() && was_host {
            self.make_first_host();
            proof {
                lemma_host_count_edit(d, 0, (d[0].0, d[0].1, true));
            }
        }
        proof {
            let t = self@.members;
            assert forall|i: int| 0 <= i < t.len() implies has_name(
                self@.game.players,
                #[trigger] t[i].1,
            ) by {
                if i < k {
                    assert(t[i].1 == c[i].1);
                } else {
                    assert(t[i].1 == c[i + 1].1);
                }
            }
            if d.len() == 0 {
                assert(host_count(d) == 0);
            } else {
                lemma_host_count_edit(d, 0, d[0]);
                lemma_host_count_nonneg(d.remove(0));
            }
        }
    }

    /// Removes the client `id` as `drop_client` does, and returns what follows: the
    /// lobby news to every client left.
    pub fn dismiss_client(&mut self, id: u128) -> (r: Vec<LobbyEffect>)
        requires
            old(self)@.well_formed(),
            has_id(old(self)@.members, id),
        ensures
            final(self)@.id == old(self)@.id,
            final(self)@.game == old(self)@.game,
            final(self)@.members == dropped(old(self)@.members, id),
            final(self)@.well_formed(),
            one_host(old(self)@.members) ==> one_host(final(self)@.members),
            effects_view(r@) == dismiss_effects(final(self)@.members),
    {
        self.drop_client(id);
        let mut fx: Vec<LobbyEffect> = Vec::new();
        fx.push(LobbyEffect::NotifyAll(ServerMessage::Lobby(self.lobby_info())));
        assert(effects_view(fx@) =~= dismiss_effects(self@.members));
        fx
    }

    /// Who is in the lobby: the number of clients, the names of those who do not host
    /// it, and the host's name.
    pub fn lobby_info(&self) -> (r: LobbyState)
        ensures
            r@ == lobby_info_of(self@.members),
    {
        clients_in_order(&self.connections);
        let ghost m = self.connections@;
        let ghost c = self@.members;
        let ghost all = spec_btree_map_iter(&self.connections).remaining();
        proof {
            lemma_members_of(m);
        }
        let mut host = String::new();
        let mut unames: Vec<String> = Vec::new();
        assert(c.take(0) =~= Seq::<(u128, Seq<char>, bool)>::empty());
        for kv in it: self.connections.iter()
            invariant
                it.seq() == all,
                all.len() == c.len(),
                forall|i: int|
                    0 <= i < c.len() ==> (#[trigger] all[i]).1.uname@ == c[i].1
                        && all[i].1.is_host == c[i].2,
                host@ == host_name(c.take(it.index() as int)),
                unames@.map_values(|s: String| s@) == guest_names(c.take(it.index() as int)),
        {
            let ghost i = it.index() as int;
            let (hk, h) = kv;
            proof {
                assert(all[i].1.uname@ == c[i].1);
                assert(c.take(i + 1).drop_last() =~= c.take(i));
                assert(c.take(i + 1).last() == c[i]);
            }
            if h.is_host {
                host = h.uname.clone();
            } else {
                unames.push(h.uname.clone());
                assert(unames@.map_values(|s: String| s@) =~= guest_names(c.take(i)).push(
                    h.uname@,
                ));
            }
        }
        assert(c.take(c.len() as int) =~= c);
        proof {
            assert(self.connections.len() == m.len());
            assert(m.dom().len() == c.len()) by {
                assert(sorted_ids(m.dom()).to_set() == m.dom());
                lemma_ids_count(sorted_ids(m.dom()));
            }
        }
        LobbyState { count: self.connections.len(), unames, host }
    }

    /// The game as each client may see it, with the client's id, in the order of ids.
    pub fn partial_states(&self) -> (r: Vec<(u128, GameState)>)
        requires
            forall|i: int|
                0 <= i < self@.members.len() ==> self@.game.can_show_to(
                    #[trigger] self@.members[i].1,
                ),
        ensures
            r@.len() == self@.members.len(),
            forall|i: int|
                0 <= i < r@.len() ==> (#[trigger] r@[i]).0 == self@.members[i].0 && r@[i].1@
                    == self@.game.seen_by(self@.members[i].1),
    {
        clients_in_order(&self.connections);
        let ghost m = self.connections@;
        let ghost c = self@.members;
        let ghost all = spec_btree_map_iter(&self.connections).remaining();
        proof {
            lemma_members_of(m);
        }
        let mut r: Vec<(u128, GameState)> = Vec::new();
        for kv in it: self.connections.iter()
            invariant
                it.seq() == all,
                all.len() == c.len(),
                c == self@.members,
                forall|i: int|
                    0 <= i < c.len() ==> *(#[trigger] all[i]).0 == c[i].0 && all[i].1.uname@
                        == c[i].1,
                forall|j: int|
                    0 <= j < c.len() ==> self@.game.can_show_to(#[trigger] c[j].1),
                r@.len() == it.index(),
                forall|j: int|
                    0 <= j < it.index() ==> (#[trigger] r@[j]).0 == c[j].0 && r@[j].1@
                        == self@.game.seen_by(c[j].1),
        {
            let ghost i = it.index() as int;
            let (hk, h) = kv;
            assert(all[i].1.uname@ == c[i].1);
            assert(self@.game.can_show_to(c[i].1));
            let g = self.game_state.partial(&h.uname);
            r.push((*hk, g));
        }
        r
    }

    /// Answers the message `msg` of the client `id`: a client that leaves or whose
    /// connection is gone is dropped, `Start` from the host of a lobby of three clients or
    /// more starts the game (from anyone else it is answered as invalid), `Do` carries out a
    /// command, `Chat` passes a chat line on to everyone. Returns what is to be sent
    /// and done, in order.
    pub fn handle_message(&mut self, id: u128, msg: ClientMessage) -> (r: Vec<LobbyEffect>)
        requires
            old(self)@.well_formed(),
            !(msg is Join),
            (msg is Do || msg is Chat) ==> has_id(old(self)@.members, id),
            msg matches ClientMessage::Do(cmd) ==> cmd is Bid ==> table_size(
                old(self)@.game.players,
            ) <= usize::MAX,
        ensures
            final(self)@ == reaction(old(self)@, id, msg).0,
            effects_view(r@) == reaction(old(self)@, id, msg).1,
            final(self)@.well_formed(),
            one_host(old(self)@.members) ==> one_host(final(self)@.members),
    {
        let ghost l = self@;
        clients_in_order(&self.connections);
        let ghost m = self.connections@;
        proof {
            lemma_members_of(m);
            lemma_id_at_slot(l.members, id);
            lemma_id_slot_bounds(l.members, id);
        }
        let mut fx: Vec<LobbyEffect> = Vec::new();
        match msg {
            ClientMessage::Leave | ClientMessage::Dead => {
                if self.connections.contains_key(&id) {
                    fx = self.dismiss_client(id);
                }
                clients_in_order(&self.connections);
                proof {
                    lemma_members_of(self.connections@);
                }
                if self.connections.is_empty() {
                    fx.push(LobbyEffect::Close);
                }
                proof {
                    assert(effects_view(fx@) =~= leave_reaction(l, id).1);
                }
            },
            ClientMessage::Start => {
                let hosts = match self.connections.get(&id) {
                    Some(h) => h.is_host,
                    None => false,
                };
                proof {
                    let k = id_slot(l.members, id);
                    if m.dom().contains(id) {
                        assert(sorted_ids(m.dom())[k] == id);
                    }
                    assert(hosts == (has_id(l.members, id) && l.members[k].2));
                    assert(self.connections.len() == l.members.len()) by {
                        assert(sorted_ids(m.dom()).to_set() == m.dom());
                        lemma_ids_count(sorted_ids(m.dom()));
                    }
                }
                if hosts && self.connections.len() >= 3 {
                    self.game_state.phase = Phase::Play;
                    fx.push(LobbyEffect::NotifyAll(ServerMessage::Starting));
                    fx.push(LobbyEffect::Pause);
                    fx.push(LobbyEffect::SendPartialStates);
                } else {
                    fx.push(LobbyEffect::NotifyOne(id, ServerMessage::InvalidReq));
                }
                proof {
                    assert(effects_view(fx@) =~= reaction(l, id, msg).1);
                }
            },
            ClientMessage::Do(cmd) => {
                let ghost k = id_slot(l.members, id);
                let uname = match self.connections.get(&id) {
                    Some(h) => h.uname.clone(),
                    None => String::new(),
                };
                proof {
                    assert(uname@ == uname_of(l.members, id));
                    assert(has_name(l.game.players, l.members[k].1));
                    lemma_after_action_keeps_players(l.game, uname@, cmd);
                }
                let out = handle_action(cmd, &uname, &mut self.game_state);
                if out.wrong_turn {
                    fx.push(LobbyEffect::NotifyOne(id, ServerMessage::InvalidReq));
                }
                if out.accepted {
                    fx.push(LobbyEffect::SendPartialStates);
                    match out.note {
                        Some(n) => {
                            let from = String::from_str("Server");
                            fx.push(LobbyEffect::NotifyAll(ServerMessage::Chat(from, n)));
                        },
                        None => {},
                    }
                }
                proof {
                    assert(effects_view(fx@) =~= command_reaction(l, id, cmd).1);
                    let g = self@.game;
                    assert forall|i: int| 0 <= i < self@.members.len() implies has_name(
                        g.players,
                        #[trigger] self@.members[i].1,
                    ) by {
                        let n = self@.members[i].1;
                        assert(has_name(l.game.players, n));
                        let j = choose|j: int|
                            0 <= j < l.game.players.len() && #[trigger] l.game.players[j].0 == n;
                        assert(g.players[j].0 == n);
                    }
                }
            },
            ClientMessage::Chat(text) => {
                let uname = match self.connections.get(&id) {
                    Some(h) => h.uname.clone(),
                    None => String::new(),
                };
                proof {
                    assert(uname@ == uname_of(l.members, id));
                }
                fx.push(LobbyEffect::NotifyAll(ServerMessage::Chat(uname, text)));
                proof {
                    assert(effects_view(fx@) =~= reaction(l, id, msg).1);
                }
            },
            ClientMessage::Join(_, _) => {},
        }
        fx
    }
}

/// `Start` from the host of a lobby of three clients or more, however many, starts
/// the game: only the phase changes, to play, and every client is told the game starts,
/// then, after a pause, gets the game.
pub proof fn lemma_host_of_three_or_more_starts(l: LobbyModel, i: int)
    requires
        l.well_formed(),
        0 <= i < l.members.len(),
        l.members[i].2,
        l.members.len() >= 3,
    ensures
        reaction(l, l.members[i].0, ClientMessage::Start) == (
            LobbyModel { game: GameView { phase: Phase::Play, ..l.game }, ..l },
            seq![
                EffectView::NotifyAll(ServerMessageView::Starting),
                EffectView::Pause,
                EffectView::SendPartialStates,
            ],
        ),
{
    lemma_id_at_slot(l.members, l.members[i].0);
}

/// `Start` from a client that does not host the lobby, or in a lobby of fewer than
/// three clients, changes nothing and is answered as invalid to the sender alone.
pub proof fn lemma_untimely_start_refused(l: LobbyModel, id: u128)
    requires
        l.well_formed(),
        l.members.len() < 3 || forall|i: int|
            0 <= i < l.members.len() && #[trigger] l.members[i].0 == id ==> !l.members[i].2,
    ensures
        reaction(l, id, ClientMessage::Start) == (
            l,
            seq![EffectView::NotifyOne(id, ServerMessageView::InvalidReq)],
        ),
{
    lemma_id_at_slot(l.members, id);
}

/// A chat line of a client goes, unchanged, to every client under the sender's name,
/// and changes nothing in the lobby.
pub proof fn lemma_chat_goes_to_all(l: LobbyModel, i: int, text: String)
    requires
        l.well_formed(),
        0 <= i < l.members.len(),
    ensures
        reaction(l, l.members[i].0, ClientMessage::Chat(text)) == (
            l,
            seq![EffectView::NotifyAll(ServerMessageView::Chat(l.members[i].1, text@))],
        ),
{
    lemma_id_at_slot(l.members, l.members[i].0);
}

/// A client that leaves (or whose connection is gone) is removed and nobody else: the
/// other clients keep their ids and names in order, the game is untouched, a host that
/// leaves hands the lobby to the client with the lowest id, and everyone left is told
/// how many clients remain; the lobby closes once nobody is left.
pub proof fn lemma_leaving_client_removed(l: LobbyModel, i: int, msg: ClientMessage)
    requires
        l.well_formed(),
        0 <= i < l.members.len() <= usize::MAX,
        msg is Leave || msg is Dead,
    ensures
        ({
            let (l2, fx) = reaction(l, l.members[i].0, msg);
            let c = l.members;
            let d = l2.members;
            &&& l2.id == l.id
            &&& l2.game == l.game
            &&& d.len() == c.len() - 1
            &&& forall|j: int|
                0 <= j < d.len() ==> #[trigger] d[j].0 == c.remove(i)[j].0 && d[j].1 == c.remove(i)[j].1
            &&& (c[i].2 && d.len() > 0 ==> d[0].2)
            &&& fx[0] matches EffectView::NotifyAll(ServerMessageView::Lobby(info)) && info.count == d.len()
            &&& fx.len() == if d.len() == 0 { 2int } else { 1int }
            &&& d.len() == 0 ==> fx[1] == EffectView::Close
        }),
{
    let c = l.members;
    let id = c[i].0;
    lemma_id_at_slot(c, id);
    assert(has_id(c, id));
    assert(id_slot(c, id) == i);
    let d = dropped(c, id);
    assert(reaction(l, id, msg).0.members == d);
    assert(d.len() == c.len() - 1);
    assert forall|j: int| 0 <= j < d.len() implies #[trigger] d[j].0 == c.remove(i)[j].0 && d[j].1
        == c.remove(i)[j].1 by {}
    let fx = reaction(l, id, msg).1;
    assert(fx == leave_reaction(l, id).1);
    assert(fx[0] == EffectView::NotifyAll(ServerMessageView::Lobby(lobby_info_of(d))));
    assert(lobby_info_of(d).count == d.len());
    if c[i].2 && d.len() > 0 {
        assert(d[0].2);
    }
}

/// A leave from an id that is no client changes nothing; it only closes a lobby that
/// is already empty.
pub proof fn lemma_leave_of_stranger_ignored(l: LobbyModel, id: u128, msg: ClientMessage)
    requires
        l.well_formed(),
        forall|i: int| 0 <= i < l.members.len() ==> #[trigger] l.members[i].0 != id,
        msg is Leave || msg is Dead,
    ensures
        reaction(l, id, msg).0 == l,
        reaction(l, id, msg).1 == if l.members.len() == 0 {
            seq![EffectView::Close]
        } else {
            Seq::<EffectView>::empty()
        },
{
}

/// A command of a client whose name is not the player to move is answered as invalid
/// to that client alone and changes nothing.
pub proof fn lemma_command_out_of_turn(l: LobbyModel, i: int, cmd: crate::messages::Command)
    requires
        l.well_formed(),
        0 <= i < l.members.len(),
        l.members[i].1 != l.game.turn,
    ensures
        reaction(l, l.members[i].0, ClientMessage::Do(cmd)) == (
            l,
            seq![EffectView::NotifyOne(l.members[i].0, ServerMessageView::InvalidReq)],
        ),
{
    lemma_id_at_slot(l.members, l.members[i].0);
}

/// A command of the client whose name is the player to move goes to the game. When the
/// game takes it, the game moves on, every client gets the game anew, and the game's
/// note goes to everyone from "Server"; when the game refuses it, nothing changes and
/// nothing is sent.
pub proof fn lemma_command_in_turn(l: LobbyModel, i: int, cmd: crate::messages::Command)
    requires
        l.well_formed(),
        0 <= i < l.members.len(),
        l.members[i].1 == l.game.turn,
    ensures
        ({
            let (g, accepted, note) = after_action(l.game, l.game.turn, cmd);
            let (l2, fx) = reaction(l, l.members[i].0, ClientMessage::Do(cmd));
            &&& accepted ==> l2 == LobbyModel { game: g, ..l } && note is Some && fx == seq![
                EffectView::SendPartialStates,
                EffectView::NotifyAll(ServerMessageView::Chat("Server"@, note->0)),
            ]
            &&& !accepted ==> l2 == l && fx == Seq::<EffectView>::empty()
        }),
{
    lemma_id_at_slot(l.members, l.members[i].0);
    lemma_refused_changes_nothing(l.game, l.game.turn, cmd);
}

/// Registering under an id: the client of that id is afterwards in the lobby under the
/// new name, every client of another id stays as it was, a new id adds one client and
/// a known id none, and the new client hosts exactly when the lobby was empty.
pub proof fn lemma_registration(c: Members, id: u128, uname: Seq<char>)
    requires
        ids_sorted(c),
    ensures
        ({
            let d = registered(c, id, uname);
            &&& d.contains((id, uname, !has_id(c, id) && c.len() == 0))
            &&& forall|j: int| 0 <= j < c.len() && c[j].0 != id ==> d.contains(#[trigger] c[j])
            &&& d.len() == if has_id(c, id) { c.len() } else { c.len() + 1 }
        }),
{
    lemma_id_at_slot(c, id);
    lemma_id_slot_bounds(c, id);
    let k = id_slot(c, id);
    let d = registered(c, id, uname);
    if has_id(c, id) {
        assert(d[k] == (id, uname, false));
        assert forall|j: int| 0 <= j < c.len() && c[j].0 != id implies d.contains(#[trigger] c[j]) by {
            assert(d[j] == c[j]);
        }
    } else {
        assert(d[k] == (id, uname, c.len() == 0));
        assert forall|j: int| 0 <= j < c.len() && c[j].0 != id implies d.contains(#[trigger] c[j]) by {
            if j < k {
                assert(d[j] == c[j]);
            } else {
                assert(d[j + 1] == c[j]);
            }
        }
    }
}

} // verus!
