use vstd::prelude::*;

use crate::messages::{LobbyState, ServerMessage};

verus! {

/// The kinds of server message a part of the client can listen to.
#[derive(Debug, Clone, Copy, PartialEq, Eq, Hash, Structural)]
pub enum Topic {
    State,
    Error,
    Info,
    Chat,
}

/// The topic a server message belongs to.
pub open spec fn topic_of(msg: ServerMessage) -> Topic {
    match msg {
        ServerMessage::PartialState(_) => Topic::State,
        ServerMessage::InvalidReq => Topic::Error,
        ServerMessage::LobbyID(_) => Topic::Info,
        ServerMessage::Lobby(_) => Topic::Info,
        ServerMessage::Starting => Topic::Info,
        ServerMessage::Chat(_, _) => Topic::Chat,
    }
}

/// The topic under which the listeners of `msg` are notified: game states, refusals,
/// lobby news, or chat lines.
pub fn topic_for(msg: &ServerMessage) -> (r: Topic)
    ensures
        r == topic_of(*msg),
{
    match msg {
        ServerMessage::PartialState(_) => Topic::State,
        ServerMessage::InvalidReq => Topic::Error,
        ServerMessage::LobbyID(_) => Topic::Info,
        ServerMessage::Lobby(_) => Topic::Info,
        ServerMessage::Starting => Topic::Info,
        ServerMessage::Chat(_, _) => Topic::Chat,
    }
}

/// The listeners `s` whose notification `delivered` says went through, in their order.
pub open spec fn kept<S>(s: Seq<S>, delivered: Seq<bool>) -> Seq<S>
    decreases s.len(),
{
    if s.len() == 0 {
        Seq::empty()
    } else if delivered[s.len() - 1] {
        kept(s.drop_last(), delivered).push(s.last())
    } else {
        kept(s.drop_last(), delivered)
    }
}

/// The listeners of a client, by topic: one list for each of the four topics. A hash
/// map keyed by topic would need vstd's hashing model for the key, which it gives
/// only for primitive keys.
pub struct Subscribers<S> {
    state: Vec<S>,
    error: Vec<S>,
    info: Vec<S>,
    chat: Vec<S>,
}

impl<S> Subscribers<S> {
    /// The listeners of `topic`, in the order they subscribed.
    pub closed spec fn listeners(&self, topic: Topic) -> Seq<S> {
        match topic {
            Topic::State => self.state@,
            Topic::Error => self.error@,
            Topic::Info => self.info@,
            Topic::Chat => self.chat@,
        }
    }

    /// No listeners at all.
    pub fn new() -> (r: Subscribers<S>)
        ensures
            forall|t: Topic| #[trigger] r.listeners(t) == Seq::<S>::empty(),
    {
        let r = Subscribers { state: Vec::new(), error: Vec::new(), info: Vec::new(), chat: Vec::new() };
        assert forall|t: Topic| #[trigger] r.listeners(t) == Seq::<S>::empty() by {
            assert(r.listeners(t) =~= Seq::<S>::empty());
        }
        r
    }

    /// Adds `sender` as the last listener of `topic`.
    pub fn subscribe(&mut self, topic: Topic, sender: S)
        ensures
            final(self).listeners(topic) == old(self).listeners(topic).push(sender),
            forall|t: Topic| t != topic ==> #[trigger] final(self).listeners(t) == old(self).listeners(t),
    {
        match topic {
            Topic::State => self.state.push(sender),
            Topic::Error => self.error.push(sender),
            Topic::Info => self.info.push(sender),
            Topic::Chat => self.chat.push(sender),
        }
    }

    /// The listeners of `topic`.
    pub fn subscribers(&self, topic: Topic) -> (r: &Vec<S>)
        ensures
            r@ == self.listeners(topic),
    {
        match topic {
            Topic::State => &self.state,
            Topic::Error => &self.error,
            Topic::Info => &self.info,
            Topic::Chat => &self.chat,
        }
    }

    /// Drops the listeners of `topic` that could not be notified: the `i`-th stays
    /// exactly when `delivered[i]`.
    pub fn retain_delivered(&mut self, topic: Topic, delivered: &Vec<bool>)
        requires
            delivered@.len() == old(self).listeners(topic).len(),
        ensures
            final(self).listeners(topic) == kept(old(self).listeners(topic), delivered@),
            forall|t: Topic| t != topic ==> #[trigger] final(self).listeners(t) == old(self).listeners(t),
    {
        let mut list: Vec<S> = Vec::new();
        match topic {
            Topic::State => core::mem::swap(&mut list, &mut self.state),
            Topic::Error => core::mem::swap(&mut list, &mut self.error),
            Topic::Info => core::mem::swap(&mut list, &mut self.info),
            Topic::Chat => core::mem::swap(&mut list, &mut self.chat),
        }
        let mut survivors = keep_delivered(list, delivered);
        match topic {
            Topic::State => core::mem::swap(&mut survivors, &mut self.state),
            Topic::Error => core::mem::swap(&mut survivors, &mut self.error),
            Topic::Info => core::mem::swap(&mut survivors, &mut self.info),
            Topic::Chat => core::mem::swap(&mut survivors, &mut self.chat),
        }
    }
}

/// The items of `list` whose entry in `delivered` is true, in their order.
fn keep_delivered<S>(list: Vec<S>, delivered: &Vec<bool>) -> (r: Vec<S>)
    requires
        delivered@.len() == list@.len(),
    ensures
        r@ == kept(list@, delivered@),
{
    let ghost all = list@;
    let mut rest = list;
    let mut back: Vec<S> = Vec::new();
    // Take the items off the end, keeping those that were delivered, last first.
    while rest.len() > 0
        invariant
            delivered@.len() == all.len(),
            rest@.len() <= all.len(),
            rest@ == all.take(rest@.len() as int),
            kept(all, delivered@) == kept(rest@, delivered@) + back@.reverse(),
        decreases rest.len(),
    {
        let n = rest.len();
        let ghost t = rest@;
        let ghost before = back@;
        let x = rest.pop().unwrap();
        proof {
            assert(rest@ =~= all.take(n - 1));
            assert(t.drop_last() =~= rest@);
            assert(t.last() == x);
        }
        if delivered[n - 1] {
            back.push(x);
            proof {
                assert(back@.reverse() =~= seq![x] + before.reverse());
                assert(kept(t, delivered@) == kept(rest@, delivered@).push(x));
                assert(kept(rest@, delivered@).push(x) + before.reverse() =~= kept(
                    rest@,
                    delivered@,
                ) + back@.reverse());
            }
        } else {
            proof {
                assert(kept(t, delivered@) == kept(rest@, delivered@));
            }
        }
    }
    assert(kept(rest@, delivered@) =~= Seq::<S>::empty());
    let mut r: Vec<S> = Vec::new();
    assert(kept(all, delivered@) =~= r@ + back@.reverse());
    while back.len() > 0
        invariant
            kept(all, delivered@) == r@ + back@.reverse(),
        decreases back.len(),
    {
        let ghost before = back@;
        let x = back.pop().unwrap();
        proof {
            assert(before.reverse() =~= seq![x] + back@.reverse());
        }
        r.push(x);
        assert(kept(all, delivered@) =~= r@ + back@.reverse());
    }
    assert(back@.reverse() =~= Seq::<S>::empty());
    r
}

/// Whether a user name is long enough: four bytes or more.
pub fn uname_accepted(name: &String) -> (r: bool)
    ensures
        r == ((vstd::utf8::encode_utf8(name@).len() as usize) >= 4),
{
    name.as_str().len() >= 4
}

/// Whether the client named `me` may start the game of the lobby `lobby`: it hosts
/// the lobby and the lobby has three clients or more.
pub fn can_start(lobby: &LobbyState, me: &String) -> (r: bool)
    ensures
        r == (lobby.host@ == me@ && lobby.count >= 3),
{
    lobby.host == *me && lobby.count >= 3
}

/// Each kind of listener hears one kind of news: game states only the state listeners,
/// refusals only the error listeners, chat lines only the chat listeners, and the news
/// of the lobby (its id, who is in it, the start) only the info listeners.
pub proof fn lemma_topics_part_the_messages(msg: ServerMessage)
    ensures
        (topic_of(msg) == Topic::State) <==> msg is PartialState,
        (topic_of(msg) == Topic::Error) <==> msg is InvalidReq,
        (topic_of(msg) == Topic::Chat) <==> msg is Chat,
        (topic_of(msg) == Topic::Info) <==> (msg is LobbyID || msg is Lobby || msg is Starting),
{
}

/// Listeners that were all reached are all kept, in order; listeners none of which
/// were reached are all dropped; and no listener is ever added.
pub proof fn lemma_kept_listeners<S>(s: Seq<S>, delivered: Seq<bool>)
    requires
        delivered.len() == s.len(),
    ensures
        (forall|i: int| 0 <= i < s.len() ==> #[trigger] delivered[i]) ==> kept(s, delivered) == s,
        (forall|i: int| 0 <= i < s.len() ==> !#[trigger] delivered[i]) ==> kept(s, delivered).len()
            == 0,
        kept(s, delivered).len() <= s.len(),
        forall|j: int| 0 <= j < kept(s, delivered).len() ==> s.contains(#[trigger] kept(s, delivered)[j]),
    decreases s.len(),
{
    if s.len() > 0 {
        let t = s.drop_last();
        lemma_kept_listeners(t, delivered.take(t.len() as int));
        assert(kept(t, delivered.take(t.len() as int)) == kept(t, delivered)) by {
            lemma_kept_prefix(t, delivered.take(t.len() as int), delivered);
        }
        let k = kept(s, delivered);
        assert forall|j: int| 0 <= j < k.len() implies s.contains(#[trigger] k[j]) by {
            if j < kept(t, delivered).len() {
                assert(t.contains(k[j]));
                let m = choose|m: int| 0 <= m < t.len() && t[m] == k[j];
                assert(s[m] == k[j]);
            } else {
                assert(k[j] == s[s.len() - 1]);
            }
        }
        if forall|i: int| 0 <= i < s.len() ==> #[trigger] delivered[i] {
            assert forall|i: int| 0 <= i < t.len() implies #[trigger] delivered.take(t.len() as int)[i] by {
                assert(delivered[i]);
            }
            assert(k =~= s);
        }
        if forall|i: int| 0 <= i < s.len() ==> !#[trigger] delivered[i] {
            assert forall|i: int| 0 <= i < t.len() implies !#[trigger] delivered.take(t.len() as int)[i] by {
                assert(!delivered[i]);
            }
            assert(!delivered[s.len() - 1]);
        }
    }
}

/// What is kept of listeners depends only on the delivery marks of those listeners.
proof fn lemma_kept_prefix<S>(s: Seq<S>, a: Seq<bool>, b: Seq<bool>)
    requires
        s.len() <= a.len(),
        s.len() <= b.len(),
        forall|i: int| 0 <= i < s.len() ==> #[trigger] a[i] == b[i],
    ensures
        kept(s, a) == kept(s, b),
    decreases s.len(),
{
    if s.len() > 0 {
        lemma_kept_prefix(s.drop_last(), a, b);
        assert(a[s.len() - 1] == b[s.len() - 1]);
    }
}

} // verus!
