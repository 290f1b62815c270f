use yoric::canvas::YoricCanvas;
use yoric::cards::Card;
use yoric::client::{can_start, topic_for, uname_accepted, Subscribers, Topic};
use yoric::game_state::GameState;
use yoric::messages::{LobbyState, ServerMessage};
use yoric::text::{decimal_string, parse_byte};

#[test]
fn each_message_has_its_topic() {
    assert_eq!(topic_for(&ServerMessage::PartialState(GameState::new())), Topic::State);
    assert_eq!(topic_for(&ServerMessage::InvalidReq), Topic::Error);
    assert_eq!(topic_for(&ServerMessage::LobbyID("A".to_string())), Topic::Info);
    assert_eq!(topic_for(&ServerMessage::Starting), Topic::Info);
    assert_eq!(topic_for(&ServerMessage::Chat("a".to_string(), "b".to_string())), Topic::Chat);
    let lobby = LobbyState { count: 1, unames: vec![], host: "a".to_string() };
    assert_eq!(topic_for(&ServerMessage::Lobby(lobby)), Topic::Info);
}

#[test]
fn subscribers_are_kept_by_topic() {
    let mut s: Subscribers<u32> = Subscribers::new();
    s.subscribe(Topic::Info, 1);
    s.subscribe(Topic::Info, 2);
    s.subscribe(Topic::Chat, 3);
    s.subscribe(Topic::Info, 4);
    assert_eq!(s.subscribers(Topic::Info), &vec![1, 2, 4]);
    assert_eq!(s.subscribers(Topic::Chat), &vec![3]);
    assert!(s.subscribers(Topic::State).is_empty());
    s.retain_delivered(Topic::Info, &vec![true, false, true]);
    assert_eq!(s.subscribers(Topic::Info), &vec![1, 4]);
    assert_eq!(s.subscribers(Topic::Chat), &vec![3]);
    s.retain_delivered(Topic::Chat, &vec![false]);
    assert!(s.subscribers(Topic::Chat).is_empty());
}

#[test]
fn user_names_need_four_bytes() {
    assert!(!uname_accepted(&"abc".to_string()));
    assert!(uname_accepted(&"abcd".to_string()));
    assert!(uname_accepted(&"éé".to_string()));
    assert!(!uname_accepted(&"".to_string()));
}

#[test]
fn only_the_host_may_start() {
    let lobby = LobbyState {
        count: 3,
        unames: vec!["bob".to_string(), "cat".to_string()],
        host: "ann".to_string(),
    };
    assert!(can_start(&lobby, &"ann".to_string()));
    assert!(!can_start(&lobby, &"bob".to_string()));
    let pair = LobbyState { count: 2, unames: vec!["bob".to_string()], host: "ann".to_string() };
    assert!(!can_start(&pair, &"ann".to_string()));
    let empty = LobbyState { count: 0, unames: vec![], host: "ann".to_string() };
    assert!(!can_start(&empty, &"ann".to_string()));
}

#[test]
fn bytes_are_written_in_decimal() {
    assert_eq!(decimal_string(0), "0");
    assert_eq!(decimal_string(7), "7");
    assert_eq!(decimal_string(42), "42");
    assert_eq!(decimal_string(100), "100");
    assert_eq!(decimal_string(255), "255");
}

#[test]
fn bids_are_read_as_bytes() {
    assert_eq!(parse_byte("12"), Some(12));
    assert_eq!(parse_byte("+7"), Some(7));
    assert_eq!(parse_byte("007"), Some(7));
    assert_eq!(parse_byte("255"), Some(255));
    assert_eq!(parse_byte("256"), None);
    assert_eq!(parse_byte("99999999999"), None);
    assert_eq!(parse_byte(""), None);
    assert_eq!(parse_byte("+"), None);
    assert_eq!(parse_byte("-1"), None);
    assert_eq!(parse_byte("1a"), None);
    assert_eq!(parse_byte(" 1"), None);
    for n in 0..=255u8 {
        assert_eq!(parse_byte(&decimal_string(n)), Some(n));
        assert_eq!(parse_byte(&n.to_string()), n.to_string().parse::<u8>().ok());
    }
    for t in ["", "+", "-", "+-1", "256", "00", "1000", "x", "+255"] {
        assert_eq!(parse_byte(t), t.parse::<u8>().ok());
    }
}

#[test]
fn canvas_lays_out_hand_and_stacks() {
    let mut g = GameState::new();
    g.add_player("ann".to_string());
    g.add_player("bob".to_string());
    g.add_player("cat".to_string());
    g.players[1].state.play(&Card::Skull);
    g.players[2].state.play(&Card::Rose);
    g.players[2].state.play(&Card::Rose);
    let mut canvas = YoricCanvas::new(GameState::new(), "bob".to_string());
    assert!(canvas.hand_cards().is_empty());
    canvas.update(g);
    assert_eq!(
        canvas.hand_cards(),
        vec![(15, Card::Rose), (30, Card::Rose), (45, Card::Rose)]
    );
    assert_eq!(canvas.stacks(), vec![(15, 1, "bob".to_string()), (30, 2, "cat".to_string())]);
    assert_eq!(canvas.name_offset(), 5);
    let other = YoricCanvas::new(GameState::new(), "annabel".to_string());
    assert_eq!(other.name_offset(), 3);
}

#[test]
fn canvas_shows_the_skull_first() {
    let mut g = GameState::new();
    g.add_player("ann".to_string());
    let canvas = YoricCanvas::new(g, "ann".to_string());
    assert_eq!(
        canvas.hand_cards(),
        vec![(0, Card::Skull), (15, Card::Rose), (30, Card::Rose), (45, Card::Rose)]
    );
}
