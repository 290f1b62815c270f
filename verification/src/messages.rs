use vstd::prelude::*;

use crate::cards::Card;
use crate::game_state::{GameState, GameView};

verus! {

/// A partial view of a game (carries nothing yet).
#[derive(Debug)]
pub struct PartialState {}

/// How a client asks to enter a lobby.
#[derive(Debug, Clone)]
pub enum JoinRequest {
    NewLobby,
    /// Join the lobby with this id.
    JoinLobby(String),
}

/// A move in the game.
#[derive(Debug, Clone)]
pub enum Command {
    Play(Card),
    Bid(u8),
    Pass,
    /// Turn up a card of the named player.
    Reveal(String),
}

/// What a client sends to the server.
#[derive(Debug, Clone)]
pub enum ClientMessage {
    /// Enter a lobby under a user name.
    Join(JoinRequest, String),
    /// Start the game: for the host of a lobby of three clients or more.
    Start,
    Do(Command),
    Chat(String),
    /// Leave the lobby.
    Leave,
    /// The client's connection is gone.
    Dead,
}

/// Who is in a lobby: how many clients, the names of those who are not the host,
/// and the host's name.
#[derive(Debug, Clone)]
pub struct LobbyState {
    pub count: usize,
    pub unames: Vec<String>,
    pub host: String,
}

/// What the server sends to a client.
#[derive(Debug, Clone)]
pub enum ServerMessage {
    PartialState(GameState),
    InvalidReq,
    LobbyID(String),
    Lobby(LobbyState),
    /// A chat line: the sender's name and the text.
    Chat(String, String),
    Starting,
}

impl ClientMessage {
    /// The request and user name of a `Join` message, and nothing for any other
    /// message: the one message a client may send before it is in a lobby.
    pub fn join_request(self) -> (r: Option<(JoinRequest, String)>)
        ensures
            match self {
                ClientMessage::Join(jr, uname) => r == Some((jr, uname)),
                _ => r is None,
            },
    {
        match self {
            ClientMessage::Join(jr, uname) => Some((jr, uname)),
            _ => None,
        }
    }

    /// The command of a `Do` message, and nothing for any other message.
    pub fn command(self) -> (r: Option<Command>)
        ensures
            match self {
                ClientMessage::Do(c) => r == Some(c),
                _ => r is None,
            },
    {
        match self {
            ClientMessage::Do(c) => Some(c),
            _ => None,
        }
    }
}

/// The mathematical value of a [`LobbyState`].
pub struct LobbyView {
    pub count: usize,
    pub unames: Seq<Seq<char>>,
    pub host: Seq<char>,
}

impl View for LobbyState {
    type V = LobbyView;

    open spec fn view(&self) -> LobbyView {
        LobbyView {
            count: self.count,
            unames: self.unames@.map_values(|s: String| s@),
            host: self.host@,
        }
    }
}

/// The mathematical value of a [`ServerMessage`].
pub enum ServerMessageView {
    PartialState(GameView),
    InvalidReq,
    LobbyID(Seq<char>),
    Lobby(LobbyView),
    Chat(Seq<char>, Seq<char>),
    Starting,
}

impl View for ServerMessage {
    type V = ServerMessageView;

    open spec fn view(&self) -> ServerMessageView {
        match self {
            ServerMessage::PartialState(g) => ServerMessageView::PartialState(g@),
            ServerMessage::InvalidReq => ServerMessageView::InvalidReq,
            ServerMessage::LobbyID(id) => ServerMessageView::LobbyID(id@),
            ServerMessage::Lobby(l) => ServerMessageView::Lobby(l@),
            ServerMessage::Chat(from, text) => ServerMessageView::Chat(from@, text@),
            ServerMessage::Starting => ServerMessageView::Starting,
        }
    }
}

} // verus!
