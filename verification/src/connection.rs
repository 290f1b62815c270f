use vstd::prelude::*;

use crate::messages::{ClientMessage, JoinRequest, ServerMessage};

verus! {

/// Where a client's connection to the server stands.
#[derive(Debug, Clone, Copy, PartialEq, Eq, Structural)]
pub enum ConnectionPhase {
    /// Waiting for the client to ask for a lobby.
    Joining,
    /// The client asked for a lobby; waiting for the answer.
    Asking,
    /// In a lobby: messages pass between the client and the lobby.
    InLobby,
    /// The connection is over.
    Closed,
}

/// What happened on a connection.
#[derive(Debug)]
pub enum ConnectionEvent {
    /// The client sent a message that could be read.
    FromClient(ClientMessage),
    /// The client sent something that is no message.
    Unreadable,
    /// The client's connection failed or ended.
    ClientGone,
    /// The answer to a request for a lobby: the id of the lobby entered, or nothing
    /// when it could not be entered.
    LobbyAnswer(Option<String>),
    /// A message of the lobby for the client.
    FromLobby(ServerMessage),
}

/// What a connection is to do.
#[derive(Debug)]
pub enum ConnectionAction {
    /// Send a message to the client.
    ToClient(ServerMessage),
    /// Ask for a lobby for the client under its user name.
    AskForLobby(JoinRequest, String),
    /// Pass a message of the client on to its lobby.
    ToLobby(ClientMessage),
}

/// How a connection answers an event. Before it is in a lobby, a client may only ask
/// for one: anything else is answered as invalid. Once in a lobby, the client's
/// messages go to the lobby and the lobby's to the client; a client that leaves may
/// ask for a lobby again, and when its connection is gone its lobby is told it is
/// dead. An event that cannot happen in a phase changes nothing.
pub open spec fn connection_reaction(phase: ConnectionPhase, event: ConnectionEvent) -> (
    ConnectionPhase,
    Seq<ConnectionAction>,
) {
    match phase {
        ConnectionPhase::Joining => match event {
            ConnectionEvent::FromClient(ClientMessage::Join(jr, uname)) => (
                ConnectionPhase::Asking,
                seq![ConnectionAction::AskForLobby(jr, uname)],
            ),
            ConnectionEvent::FromClient(_) => (
                ConnectionPhase::Joining,
                seq![ConnectionAction::ToClient(ServerMessage::InvalidReq)],
            ),
            ConnectionEvent::Unreadable => (
                ConnectionPhase::Joining,
                seq![ConnectionAction::ToClient(ServerMessage::InvalidReq)],
            ),
            ConnectionEvent::ClientGone => (ConnectionPhase::Closed, Seq::empty()),
            _ => (phase, Seq::empty()),
        },
        ConnectionPhase::Asking => match event {
            ConnectionEvent::LobbyAnswer(Some(id)) => (
                ConnectionPhase::InLobby,
                seq![ConnectionAction::ToClient(ServerMessage::LobbyID(id))],
            ),
            ConnectionEvent::LobbyAnswer(None) => (ConnectionPhase::Joining, Seq::empty()),
            _ => (phase, Seq::empty()),
        },
        ConnectionPhase::InLobby => match event {
            ConnectionEvent::FromClient(ClientMessage::Leave) => (
                ConnectionPhase::Joining,
                seq![ConnectionAction::ToLobby(ClientMessage::Leave)],
            ),
            ConnectionEvent::FromClient(msg) => (
                ConnectionPhase::InLobby,
                seq![ConnectionAction::ToLobby(msg)],
            ),
            ConnectionEvent::Unreadable => (
                ConnectionPhase::InLobby,
                seq![ConnectionAction::ToClient(ServerMessage::InvalidReq)],
            ),
            ConnectionEvent::ClientGone => (
                ConnectionPhase::Closed,
                seq![ConnectionAction::ToLobby(ClientMessage::Dead)],
            ),
            ConnectionEvent::FromLobby(msg) => (
                ConnectionPhase::InLobby,
                seq![ConnectionAction::ToClient(msg)],
            ),
            ConnectionEvent::LobbyAnswer(_) => (phase, Seq::empty()),
        },
        ConnectionPhase::Closed => (phase, Seq::empty()),
    }
}

/// Answers the event `event` on a connection in the phase `phase`: the next phase and
/// what is to be done, in order.
pub fn connection_step(phase: ConnectionPhase, event: ConnectionEvent) -> (r: (
    ConnectionPhase,
    Vec<ConnectionAction>,
))
    ensures
        r.0 == connection_reaction(phase, event).0,
        r.1@ == connection_reaction(phase, event).1,
{
    let ghost e = event;
    let mut fx: Vec<ConnectionAction> = Vec::new();
    let next = match phase {
        ConnectionPhase::Joining => match event {
            ConnectionEvent::FromClient(msg) => match msg.join_request() {
                Some((jr, uname)) => {
                    fx.push(ConnectionAction::AskForLobby(jr, uname));
                    ConnectionPhase::Asking
                },
                None => {
                    fx.push(ConnectionAction::ToClient(ServerMessage::InvalidReq));
                    ConnectionPhase::Joining
                },
            },
            ConnectionEvent::Unreadable => {
                fx.push(ConnectionAction::ToClient(ServerMessage::InvalidReq));
                ConnectionPhase::Joining
            },
            ConnectionEvent::ClientGone => ConnectionPhase::Closed,
            _ => phase,
        },
        ConnectionPhase::Asking => match event {
            ConnectionEvent::LobbyAnswer(Some(id)) => {
                fx.push(ConnectionAction::ToClient(ServerMessage::LobbyID(id)));
                ConnectionPhase::InLobby
            },
            ConnectionEvent::LobbyAnswer(None) => ConnectionPhase::Joining,
            _ => phase,
        },
        ConnectionPhase::InLobby => match event {
            ConnectionEvent::FromClient(msg) => {
                let leaving = matches!(msg, ClientMessage::Leave);
                fx.push(ConnectionAction::ToLobby(msg));
                if leaving {
                    ConnectionPhase::Joining
                } else {
                    ConnectionPhase::InLobby
                }
            },
            ConnectionEvent::Unreadable => {
                fx.push(ConnectionAction::ToClient(ServerMessage::InvalidReq));
                ConnectionPhase::InLobby
            },
            ConnectionEvent::ClientGone => {
                fx.push(ConnectionAction::ToLobby(ClientMessage::Dead));
                ConnectionPhase::Closed
            },
            ConnectionEvent::FromLobby(msg) => {
                fx.push(ConnectionAction::ToClient(msg));
                ConnectionPhase::InLobby
            },
            ConnectionEvent::LobbyAnswer(_) => phase,
        },
        ConnectionPhase::Closed => phase,
    };
    assert(fx@ =~= connection_reaction(phase, e).1);
    (next, fx)
}

/// In a lobby, every message the client sends other than `Leave` goes to the lobby
/// unchanged, and the connection stays in the lobby.
pub proof fn lemma_client_messages_reach_the_lobby(msg: ClientMessage)
    requires
        !(msg is Leave),
    ensures
        connection_reaction(ConnectionPhase::InLobby, ConnectionEvent::FromClient(msg)) == (
            ConnectionPhase::InLobby,
            seq![ConnectionAction::ToLobby(msg)],
        ),
{
}

/// In a lobby, every message of the lobby goes to the client unchanged.
pub proof fn lemma_lobby_messages_reach_the_client(msg: ServerMessage)
    ensures
        connection_reaction(ConnectionPhase::InLobby, ConnectionEvent::FromLobby(msg)) == (
            ConnectionPhase::InLobby,
            seq![ConnectionAction::ToClient(msg)],
        ),
{
}

/// A client that leaves its lobby tells the lobby so and may ask for a lobby again; a
/// client whose connection is gone is announced to its lobby as dead, and the
/// connection ends.
pub proof fn lemma_leaving_the_lobby()
    ensures
        connection_reaction(
            ConnectionPhase::InLobby,
            ConnectionEvent::FromClient(ClientMessage::Leave),
        ) == (ConnectionPhase::Joining, seq![ConnectionAction::ToLobby(ClientMessage::Leave)]),
        connection_reaction(ConnectionPhase::InLobby, ConnectionEvent::ClientGone) == (
            ConnectionPhase::Closed,
            seq![ConnectionAction::ToLobby(ClientMessage::Dead)],
        ),
{
}

/// Before it is in a lobby, a client's request for one is passed on with its user name
/// as it came, and anything else it sends is answered as invalid; a connection that
/// ends then ends with nothing sent.
pub proof fn lemma_joining(msg: ClientMessage)
    ensures
        msg matches ClientMessage::Join(jr, uname) ==> connection_reaction(
            ConnectionPhase::Joining,
            ConnectionEvent::FromClient(msg),
        ) == (ConnectionPhase::Asking, seq![ConnectionAction::AskForLobby(jr, uname)]),
        !(msg is Join) ==> connection_reaction(
            ConnectionPhase::Joining,
            ConnectionEvent::FromClient(msg),
        ) == (ConnectionPhase::Joining, seq![ConnectionAction::ToClient(ServerMessage::InvalidReq)]),
        connection_reaction(ConnectionPhase::Joining, ConnectionEvent::Unreadable) == (
            ConnectionPhase::Joining,
            seq![ConnectionAction::ToClient(ServerMessage::InvalidReq)],
        ),
        connection_reaction(ConnectionPhase::Joining, ConnectionEvent::ClientGone) == (
            ConnectionPhase::Closed,
            Seq::<ConnectionAction>::empty(),
        ),
{
}

/// The answer to a request for a lobby: the client that got into one is sent that
/// lobby's id and is then in it; one that did not may ask again.
pub proof fn lemma_lobby_answer(answer: Option<String>)
    ensures
        answer matches Some(id) ==> connection_reaction(
            ConnectionPhase::Asking,
            ConnectionEvent::LobbyAnswer(answer),
        ) == (ConnectionPhase::InLobby, seq![ConnectionAction::ToClient(ServerMessage::LobbyID(id))]),
        answer is None ==> connection_reaction(
            ConnectionPhase::Asking,
            ConnectionEvent::LobbyAnswer(answer),
        ) == (ConnectionPhase::Joining, Seq::<ConnectionAction>::empty()),
{
}

/// Once a connection is over, nothing more happens on it.
pub proof fn lemma_closed_stays_closed(event: ConnectionEvent)
    ensures
        connection_reaction(ConnectionPhase::Closed, event) == (
            ConnectionPhase::Closed,
            Seq::<ConnectionAction>::empty(),
        ),
{
}

} // verus!
