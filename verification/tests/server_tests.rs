use yoric::cards::Card;
use yoric::game::{handle_action, handle_bid, handle_play, handle_reveal, next_turn};
use yoric::game_state::{GameState, Phase};
use yoric::connection::{connection_step, ConnectionAction, ConnectionEvent, ConnectionPhase};
use yoric::lobby::{lobby_id_from_indices, Lobby, LobbyEffect};
use yoric::messages::{ClientMessage, Command, JoinRequest, ServerMessage};
use yoric::player::PlayerState;

fn game_of(names: &[&str]) -> GameState {
    let mut g = GameState::new();
    for n in names {
        g.add_player(n.to_string());
    }
    g
}

#[test]
fn handle_play_plays_from_the_hand() {
    let mut p = PlayerState::new();
    assert!(handle_play(Card::Skull, &mut p));
    assert!(!handle_play(Card::Skull, &mut p));
    assert_eq!(p.cards_in_play, vec![Card::Skull]);
}

#[test]
fn handle_reveal_is_never_accepted() {
    assert!(!handle_reveal("ann".to_string()));
}

#[test]
fn next_turn_goes_round_in_name_order() {
    let mut g = game_of(&["cat", "ann", "bob"]);
    assert_eq!(g.turn, "cat");
    next_turn(&mut g);
    assert_eq!(g.turn, "ann");
    next_turn(&mut g);
    assert_eq!(g.turn, "bob");
    next_turn(&mut g);
    assert_eq!(g.turn, "cat");
}

#[test]
fn next_turn_from_an_unknown_name_skips_the_first_following() {
    let mut g = game_of(&["ann", "bob", "cat"]);
    g.turn = "b".to_string();
    next_turn(&mut g);
    // the names from "b" on are bob, cat: the second of them
    assert_eq!(g.turn, "cat");
    g.turn = "zz".to_string();
    next_turn(&mut g);
    assert_eq!(g.turn, "ann");
}

#[test]
fn bids_need_cards_on_the_table() {
    let mut g = game_of(&["ann", "bob"]);
    assert!(!handle_bid(1, &g));
    g.players[0].state.play(&Card::Rose);
    g.players[1].state.play(&Card::Skull);
    assert!(!handle_bid(0, &g));
    assert!(handle_bid(1, &g));
    assert!(handle_bid(2, &g));
    assert!(!handle_bid(3, &g));
}

#[test]
fn bids_must_beat_the_highest_bidders_bid() {
    let mut g = game_of(&["ann", "bob"]);
    g.players[0].state.play(&Card::Rose);
    g.players[0].state.play(&Card::Rose);
    g.players[1].state.play(&Card::Rose);
    g.players[1].state.bid = 2;
    g.max_bidder = Some("bob".to_string());
    assert!(!handle_bid(2, &g));
    assert!(handle_bid(3, &g));
}

#[test]
fn a_command_out_of_turn_is_refused() {
    let mut g = game_of(&["ann", "bob"]);
    g.phase = Phase::Play;
    let out = handle_action(Command::Play(Card::Rose), &"bob".to_string(), &mut g);
    assert!(!out.accepted);
    assert!(out.wrong_turn);
    assert_eq!(out.note, None);
    assert_eq!(g.players[1].state.cards_in_play.len(), 0);
    assert_eq!(g.turn, "ann");
}

#[test]
fn a_round_of_play_bid_and_pass() {
    let mut g = game_of(&["ann", "bob", "cat"]);
    let ann = "ann".to_string();
    let bob = "bob".to_string();
    let cat = "cat".to_string();
    // not yet started: nothing may be played
    let out = handle_action(Command::Play(Card::Rose), &ann, &mut g);
    assert!(!out.accepted && !out.wrong_turn);
    g.phase = Phase::Play;
    let out = handle_action(Command::Play(Card::Rose), &ann, &mut g);
    assert!(out.accepted);
    assert_eq!(out.note, Some("bob's turn!".to_string()));
    assert_eq!(g.turn, "bob");
    let out = handle_action(Command::Play(Card::Skull), &bob, &mut g);
    assert_eq!(out.note, Some("cat's turn!".to_string()));
    // passing is for the bidding only
    let out = handle_action(Command::Pass, &cat, &mut g);
    assert!(!out.accepted);
    let out = handle_action(Command::Bid(2), &cat, &mut g);
    assert!(out.accepted);
    assert_eq!(out.note, Some("cat bid 2. ann's turn!".to_string()));
    assert_eq!(g.phase, Phase::Bid);
    assert_eq!(g.max_bidder, Some("cat".to_string()));
    // no more cards may be played once bidding began
    let out = handle_action(Command::Play(Card::Rose), &ann, &mut g);
    assert!(!out.accepted);
    let out = handle_action(Command::Pass, &ann, &mut g);
    assert_eq!(out.note, Some("bob's turn!".to_string()));
    let out = handle_action(Command::Pass, &bob, &mut g);
    assert!(out.accepted);
    assert_eq!(out.note, Some("cat won the bid".to_string()));
    assert_eq!(g.phase, Phase::Reveal);
    assert_eq!(g.turn, "cat");
    let out = handle_action(Command::Reveal("ann".to_string()), &cat, &mut g);
    assert!(!out.accepted);
    assert_eq!(out.note, None);
}

#[test]
fn a_bid_above_the_table_is_refused() {
    let mut g = game_of(&["ann", "bob"]);
    g.phase = Phase::Play;
    let ann = "ann".to_string();
    handle_action(Command::Play(Card::Rose), &ann, &mut g);
    let out = handle_action(Command::Bid(2), &"bob".to_string(), &mut g);
    assert!(!out.accepted);
    assert_eq!(g.phase, Phase::Play);
    let out = handle_action(Command::Bid(1), &"bob".to_string(), &mut g);
    assert!(out.accepted);
    assert_eq!(out.note, Some("bob bid 1. ann's turn!".to_string()));
}

fn hosts(l: &Lobby) -> Vec<String> {
    l.connections.values().filter(|c| c.is_host).map(|c| c.uname.clone()).collect()
}

#[test]
fn the_first_client_hosts_the_lobby() {
    let mut l = Lobby::new("ABCD".to_string());
    l.register_client(30, "zed".to_string());
    l.register_client(10, "amy".to_string());
    l.register_client(20, "max".to_string());
    assert_eq!(l.connections.keys().cloned().collect::<Vec<_>>(), vec![10, 20, 30]);
    assert_eq!(hosts(&l), vec!["zed"]);
    assert_eq!(l.game_state.players.len(), 3);
    assert_eq!(l.game_state.turn, "zed");
    let info = l.lobby_info();
    assert_eq!(info.count, 3);
    assert_eq!(info.host, "zed");
    assert_eq!(info.unames, vec!["amy", "max"]);
}

#[test]
fn when_the_host_leaves_the_lowest_id_hosts() {
    let mut l = Lobby::new("ABCD".to_string());
    l.register_client(30, "zed".to_string());
    l.register_client(10, "amy".to_string());
    l.register_client(20, "max".to_string());
    l.drop_client(30);
    assert_eq!(hosts(&l), vec!["amy"]);
    l.drop_client(20);
    assert_eq!(hosts(&l), vec!["amy"]);
    l.drop_client(10);
    assert!(l.connections.is_empty());
    // the players stay in the game
    assert_eq!(l.game_state.players.len(), 3);
}

#[test]
fn lobby_handles_leave_start_chat_and_commands() {
    let mut l = Lobby::new("ABCD".to_string());
    l.register_client(1, "ann".to_string());
    l.register_client(2, "bob".to_string());
    let fx = l.handle_message(2, ClientMessage::Chat("hi".to_string()));
    assert_eq!(fx.len(), 1);
    match &fx[0] {
        LobbyEffect::NotifyAll(ServerMessage::Chat(from, text)) => {
            assert_eq!(from, "bob");
            assert_eq!(text, "hi");
        },
        other => panic!("unexpected {:?}", other),
    }
    // two clients are too few to start
    let fx = l.handle_message(1, ClientMessage::Start);
    assert_eq!(fx.len(), 1);
    assert!(matches!(fx[0], LobbyEffect::NotifyOne(1, ServerMessage::InvalidReq)));
    assert_eq!(l.game_state.phase, Phase::Registration);
    l.register_client(3, "cat".to_string());
    // only the host starts
    let fx = l.handle_message(2, ClientMessage::Start);
    assert_eq!(fx.len(), 1);
    assert!(matches!(fx[0], LobbyEffect::NotifyOne(2, ServerMessage::InvalidReq)));
    assert_eq!(l.game_state.phase, Phase::Registration);
    let fx = l.handle_message(1, ClientMessage::Start);
    assert_eq!(fx.len(), 3);
    assert_eq!(l.game_state.phase, Phase::Play);
    assert!(matches!(fx[0], LobbyEffect::NotifyAll(ServerMessage::Starting)));
    assert!(matches!(fx[1], LobbyEffect::Pause));
    assert!(matches!(fx[2], LobbyEffect::SendPartialStates));
    let fx = l.handle_message(2, ClientMessage::Do(Command::Play(Card::Rose)));
    assert_eq!(fx.len(), 1);
    assert!(matches!(fx[0], LobbyEffect::NotifyOne(2, ServerMessage::InvalidReq)));
    let fx = l.handle_message(1, ClientMessage::Do(Command::Play(Card::Rose)));
    assert_eq!(fx.len(), 2);
    assert!(matches!(fx[0], LobbyEffect::SendPartialStates));
    match &fx[1] {
        LobbyEffect::NotifyAll(ServerMessage::Chat(from, text)) => {
            assert_eq!(from, "Server");
            assert_eq!(text, "bob's turn!");
        },
        other => panic!("unexpected {:?}", other),
    }
    let fx = l.handle_message(1, ClientMessage::Leave);
    assert_eq!(fx.len(), 1);
    match &fx[0] {
        LobbyEffect::NotifyAll(ServerMessage::Lobby(info)) => {
            assert_eq!(info.count, 2);
            assert_eq!(info.host, "bob");
            assert_eq!(info.unames, vec!["cat".to_string()]);
        },
        other => panic!("unexpected {:?}", other),
    }
    let fx = l.handle_message(9, ClientMessage::Dead);
    assert!(fx.is_empty());
    let fx = l.handle_message(2, ClientMessage::Dead);
    assert_eq!(fx.len(), 1);
    let fx = l.handle_message(3, ClientMessage::Dead);
    assert_eq!(fx.len(), 2);
    assert!(matches!(fx[1], LobbyEffect::Close));
}

#[test]
fn partial_states_are_made_for_each_client() {
    let mut l = Lobby::new("ABCD".to_string());
    l.register_client(5, "ann".to_string());
    l.register_client(3, "bob".to_string());
    let states = l.partial_states();
    assert_eq!(states.len(), 2);
    assert_eq!(states[0].0, 3);
    assert_eq!(states[0].1.players[0].state.cards_in_hand.unknown, 4);
    assert_eq!(states[0].1.players[1].state.cards_in_hand.roses, 3);
    assert_eq!(states[1].0, 5);
    assert_eq!(states[1].1.players[0].state.cards_in_hand.roses, 3);
}

#[test]
fn lobby_ids_are_spelled_from_the_charset() {
    assert_eq!(lobby_id_from_indices(&vec![0, 25, 26, 35]), "AZ09");
    for _ in 0..50 {
        let id = Lobby::random_id();
        assert_eq!(id.chars().count(), 4);
        assert!(id.chars().all(|c| c.is_ascii_uppercase() || c.is_ascii_digit()));
    }
}

#[test]
fn only_join_messages_carry_a_join_request() {
    let m = ClientMessage::Join(JoinRequest::JoinLobby("WXYZ".to_string()), "ann".to_string());
    match m.join_request() {
        Some((JoinRequest::JoinLobby(id), uname)) => {
            assert_eq!(id, "WXYZ");
            assert_eq!(uname, "ann");
        },
        _ => panic!("expected a join request"),
    }
    assert!(ClientMessage::Start.join_request().is_none());
    assert!(ClientMessage::Do(Command::Pass).command().is_some());
    assert!(ClientMessage::Leave.command().is_none());
}

#[test]
fn the_table_count_of_a_bid_is_taken_as_a_byte() {
    let mut g = game_of(&["ann", "bob"]);
    for _ in 0..257 {
        g.players[0].state.cards_in_play.push(Card::Rose);
    }
    // 257 cards on the table count as 257 mod 256 = 1
    assert!(handle_bid(1, &g));
    assert!(!handle_bid(2, &g));
}

#[test]
fn registering_an_id_again_replaces_its_client() {
    let mut l = Lobby::new("ABCD".to_string());
    l.register_client(1, "ann".to_string());
    l.register_client(1, "bob".to_string());
    assert_eq!(l.connections.len(), 1);
    assert_eq!(l.connections[&1].uname, "bob");
    // the replacing client does not host
    assert!(hosts(&l).is_empty());
    assert_eq!(l.game_state.players.len(), 2);
}

#[test]
fn every_player_gets_the_turn_once_per_round() {
    let mut g = game_of(&["dan", "ann", "cat", "bob"]);
    let start = g.turn.clone();
    let mut seen = vec![];
    for _ in 0..4 {
        next_turn(&mut g);
        seen.push(g.turn.clone());
    }
    assert_eq!(seen, vec!["ann", "bob", "cat", "dan"]);
    assert_eq!(g.turn, start);
}

#[test]
fn admitting_a_client_announces_the_lobby() {
    let mut l = Lobby::new("ABCD".to_string());
    let fx = l.admit_client(4, "ann".to_string());
    assert_eq!(fx.len(), 2);
    assert!(matches!(fx[0], LobbyEffect::Pause));
    match &fx[1] {
        LobbyEffect::NotifyAll(ServerMessage::Lobby(info)) => {
            assert_eq!(info.count, 1);
            assert_eq!(info.host, "ann");
        },
        other => panic!("unexpected {:?}", other),
    }
}

#[test]
fn the_phase_only_moves_forward() {
    let mut g = game_of(&["ann", "bob"]);
    g.phase = Phase::Play;
    let ann = "ann".to_string();
    let bob = "bob".to_string();
    handle_action(Command::Play(Card::Rose), &ann, &mut g);
    handle_action(Command::Bid(1), &bob, &mut g);
    assert_eq!(g.phase, Phase::Bid);
    // playing is refused now and changes nothing
    let out = handle_action(Command::Play(Card::Rose), &ann, &mut g);
    assert!(!out.accepted && out.note.is_none());
    assert_eq!(g.phase, Phase::Bid);
    let out = handle_action(Command::Pass, &ann, &mut g);
    assert_eq!(out.note, Some("bob won the bid".to_string()));
    assert_eq!(g.phase, Phase::Reveal);
    assert_eq!(g.max_bidder, Some("bob".to_string()));
}

#[test]
fn dismissing_a_client_announces_who_is_left() {
    let mut l = Lobby::new("ABCD".to_string());
    l.register_client(1, "ann".to_string());
    l.register_client(2, "bob".to_string());
    l.register_client(3, "cat".to_string());
    let fx = l.dismiss_client(1);
    assert_eq!(fx.len(), 1);
    match &fx[0] {
        LobbyEffect::NotifyAll(ServerMessage::Lobby(info)) => {
            assert_eq!(info.count, 2);
            assert_eq!(info.host, "bob");
            assert_eq!(info.unames, vec!["cat".to_string()]);
        },
        other => panic!("unexpected {:?}", other),
    }
    assert!(!l.connections.contains_key(&1));
    assert_eq!(l.game_state.players.len(), 3);
}

#[test]
fn a_connection_first_asks_for_a_lobby() {
    let (p, fx) = connection_step(ConnectionPhase::Joining, ConnectionEvent::FromClient(ClientMessage::Start));
    assert_eq!(p, ConnectionPhase::Joining);
    assert_eq!(fx.len(), 1);
    assert!(matches!(fx[0], ConnectionAction::ToClient(ServerMessage::InvalidReq)));
    let (p, fx) = connection_step(ConnectionPhase::Joining, ConnectionEvent::Unreadable);
    assert_eq!(p, ConnectionPhase::Joining);
    assert!(matches!(fx[0], ConnectionAction::ToClient(ServerMessage::InvalidReq)));
    let join = ClientMessage::Join(JoinRequest::JoinLobby("ABCD".to_string()), "ann".to_string());
    let (p, fx) = connection_step(ConnectionPhase::Joining, ConnectionEvent::FromClient(join));
    assert_eq!(p, ConnectionPhase::Asking);
    assert_eq!(fx.len(), 1);
    match &fx[0] {
        ConnectionAction::AskForLobby(JoinRequest::JoinLobby(id), uname) => {
            assert_eq!(id, "ABCD");
            assert_eq!(uname, "ann");
        },
        other => panic!("unexpected {:?}", other),
    }
    let (p, fx) = connection_step(ConnectionPhase::Asking, ConnectionEvent::LobbyAnswer(None));
    assert_eq!(p, ConnectionPhase::Joining);
    assert!(fx.is_empty());
    let (p, fx) = connection_step(ConnectionPhase::Asking, ConnectionEvent::LobbyAnswer(Some("WXYZ".to_string())));
    assert_eq!(p, ConnectionPhase::InLobby);
    match &fx[0] {
        ConnectionAction::ToClient(ServerMessage::LobbyID(id)) => assert_eq!(id, "WXYZ"),
        other => panic!("unexpected {:?}", other),
    }
    let (p, fx) = connection_step(ConnectionPhase::Joining, ConnectionEvent::ClientGone);
    assert_eq!(p, ConnectionPhase::Closed);
    assert!(fx.is_empty());
}

#[test]
fn a_connection_in_a_lobby_passes_messages_both_ways() {
    let (p, fx) = connection_step(ConnectionPhase::InLobby, ConnectionEvent::FromClient(ClientMessage::Start));
    assert_eq!(p, ConnectionPhase::InLobby);
    assert!(matches!(fx[0], ConnectionAction::ToLobby(ClientMessage::Start)));
    let (p, fx) = connection_step(ConnectionPhase::InLobby, ConnectionEvent::FromLobby(ServerMessage::Starting));
    assert_eq!(p, ConnectionPhase::InLobby);
    assert!(matches!(fx[0], ConnectionAction::ToClient(ServerMessage::Starting)));
    let (p, fx) = connection_step(ConnectionPhase::InLobby, ConnectionEvent::FromClient(ClientMessage::Leave));
    assert_eq!(p, ConnectionPhase::Joining);
    assert!(matches!(fx[0], ConnectionAction::ToLobby(ClientMessage::Leave)));
    let (p, fx) = connection_step(ConnectionPhase::InLobby, ConnectionEvent::ClientGone);
    assert_eq!(p, ConnectionPhase::Closed);
    assert_eq!(fx.len(), 1);
    assert!(matches!(fx[0], ConnectionAction::ToLobby(ClientMessage::Dead)));
    let (p, fx) = connection_step(ConnectionPhase::Closed, ConnectionEvent::Unreadable);
    assert_eq!(p, ConnectionPhase::Closed);
    assert!(fx.is_empty());
}
