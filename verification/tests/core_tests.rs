use yoric::cards::{Card, Cards};
use yoric::game_state::{GameState, Phase};
use yoric::names::name_precedes;
use yoric::player::PlayerState;

fn names(g: &GameState) -> Vec<String> {
    g.players.iter().map(|e| e.name.clone()).collect()
}

#[test]
fn cards_contains_counts_each_kind() {
    let c = Cards { skulls: 1, roses: 0, unknown: 2 };
    assert!(c.contains(&Card::Skull));
    assert!(!c.contains(&Card::Rose));
    assert!(c.contains(&Card::Unknown));
}

#[test]
fn cards_increment_and_decrement() {
    let mut c = Cards { skulls: 1, roses: 3, unknown: 0 };
    c.increment(&Card::Unknown);
    assert_eq!(c, Cards { skulls: 1, roses: 3, unknown: 1 });
    c.decrement(&Card::Rose);
    assert_eq!(c, Cards { skulls: 1, roses: 2, unknown: 1 });
    c.decrement(&Card::Skull);
    assert_eq!(c, Cards { skulls: 0, roses: 2, unknown: 1 });
}

#[test]
fn cards_total_adds_all_kinds() {
    let c = Cards { skulls: 1, roses: 3, unknown: 5 };
    assert_eq!(c.total(), 9);
}

#[test]
fn new_player_holds_one_skull_three_roses() {
    let p = PlayerState::new();
    assert!(!p.points);
    assert_eq!(p.bid, 0);
    assert_eq!(p.cards_in_hand, Cards { skulls: 1, roses: 3, unknown: 0 });
    assert!(p.cards_in_play.is_empty());
    assert!(p.cards_revealed.is_empty());
}

#[test]
fn play_moves_a_card_to_the_table() {
    let mut p = PlayerState::new();
    assert!(p.play(&Card::Rose));
    assert_eq!(p.cards_in_hand, Cards { skulls: 1, roses: 2, unknown: 0 });
    assert_eq!(p.cards_in_play, vec![Card::Rose]);
    assert!(p.play(&Card::Skull));
    assert_eq!(p.cards_in_play, vec![Card::Rose, Card::Skull]);
    // no skull left
    assert!(!p.play(&Card::Skull));
    assert_eq!(p.cards_in_hand, Cards { skulls: 0, roses: 2, unknown: 0 });
    assert_eq!(p.cards_in_play, vec![Card::Rose, Card::Skull]);
    // a hand never holds unknown cards of its own
    assert!(!p.play(&Card::Unknown));
}

#[test]
fn reveal_turns_up_the_top_card() {
    let mut p = PlayerState::new();
    assert!(!p.reveal_card());
    p.play(&Card::Rose);
    p.play(&Card::Skull);
    assert!(p.reveal_card());
    assert_eq!(p.cards_in_play, vec![Card::Rose]);
    assert_eq!(p.cards_revealed, vec![Card::Skull]);
    assert!(p.reveal_card());
    assert!(p.cards_in_play.is_empty());
    assert_eq!(p.cards_revealed, vec![Card::Skull, Card::Rose]);
    assert!(!p.reveal_card());
}

#[test]
fn recall_takes_every_card_back() {
    let mut p = PlayerState::new();
    p.play(&Card::Rose);
    p.play(&Card::Skull);
    p.play(&Card::Rose);
    p.reveal_card();
    p.recall();
    assert_eq!(p.cards_in_hand, Cards { skulls: 1, roses: 3, unknown: 0 });
    assert!(p.cards_in_play.is_empty());
    assert!(p.cards_revealed.is_empty());
}

#[test]
fn recall_undoes_a_play() {
    let mut p = PlayerState::new();
    let before = p.cards_in_hand;
    p.play(&Card::Skull);
    p.recall();
    assert_eq!(p.cards_in_hand, before);
    assert!(p.cards_in_play.is_empty());
}

#[test]
fn obscure_hides_hand_and_table() {
    let mut p = PlayerState::new();
    p.play(&Card::Skull);
    p.play(&Card::Rose);
    p.reveal_card();
    p.obscure();
    assert_eq!(p.cards_in_hand, Cards { skulls: 0, roses: 0, unknown: 2 });
    assert_eq!(p.cards_in_play, vec![Card::Unknown]);
    assert_eq!(p.cards_revealed, vec![Card::Rose]);
}

#[test]
fn names_are_ordered_by_characters() {
    let s = |x: &str| x.to_string();
    assert!(name_precedes(&s("alice"), &s("bob")));
    assert!(!name_precedes(&s("bob"), &s("alice")));
    assert!(name_precedes(&s("ab"), &s("abc")));
    assert!(!name_precedes(&s("abc"), &s("ab")));
    assert!(!name_precedes(&s("same"), &s("same")));
    assert!(name_precedes(&s(""), &s("a")));
    assert!(name_precedes(&s("Zed"), &s("ant")));
    assert_eq!(name_precedes(&s("é"), &s("z")), "é" < "z");
}

#[test]
fn new_game_is_empty() {
    let g = GameState::new();
    assert!(g.players.is_empty());
    assert_eq!(g.phase, Phase::Registration);
    assert_eq!(g.turn, "");
    assert_eq!(g.max_bidder, None);
}

#[test]
fn add_player_keeps_names_sorted_and_unique() {
    let mut g = GameState::new();
    assert!(g.add_player("mia".to_string()));
    assert!(g.add_player("bob".to_string()));
    assert!(g.add_player("zoe".to_string()));
    assert!(!g.add_player("bob".to_string()));
    assert_eq!(names(&g), vec!["bob", "mia", "zoe"]);
    // the first player to join moves first
    assert_eq!(g.turn, "mia");
    assert_eq!(g.position(&"zoe".to_string()), Some(2));
    assert_eq!(g.position(&"ann".to_string()), None);
    assert!(g.player(&"mia".to_string()).is_some());
    assert!(g.player(&"max".to_string()).is_none());
}

#[test]
fn partial_obscures_everyone_else() {
    let mut g = GameState::new();
    g.add_player("ann".to_string());
    g.add_player("ben".to_string());
    g.players[0].state.play(&Card::Skull);
    g.players[1].state.play(&Card::Rose);
    let seen = g.partial(&"ann".to_string());
    assert_eq!(names(&seen), vec!["ann", "ben"]);
    assert_eq!(seen.players[0].state.cards_in_hand, Cards { skulls: 0, roses: 3, unknown: 0 });
    assert_eq!(seen.players[0].state.cards_in_play, vec![Card::Skull]);
    assert_eq!(seen.players[1].state.cards_in_hand, Cards { skulls: 0, roses: 0, unknown: 3 });
    assert_eq!(seen.players[1].state.cards_in_play, vec![Card::Unknown]);
    assert_eq!(seen.turn, g.turn);
    // the game itself is untouched
    assert_eq!(g.players[1].state.cards_in_play, vec![Card::Rose]);
}

#[test]
fn joining_again_starts_the_player_afresh() {
    let mut g = GameState::new();
    g.add_player("ann".to_string());
    g.add_player("bob".to_string());
    g.players[1].state.play(&Card::Skull);
    g.players[1].state.bid = 3;
    assert!(!g.add_player("bob".to_string()));
    assert_eq!(names(&g), vec!["ann", "bob"]);
    assert_eq!(g.players[1].state.cards_in_hand, Cards { skulls: 1, roses: 3, unknown: 0 });
    assert!(g.players[1].state.cards_in_play.is_empty());
    assert_eq!(g.players[1].state.bid, 0);
    assert_eq!(g.turn, "ann");
}

#[test]
fn recall_undoes_plays_and_reveals() {
    let mut p = PlayerState::new();
    p.play(&Card::Rose);
    p.reveal_card();
    p.play(&Card::Skull);
    p.play(&Card::Rose);
    p.reveal_card();
    p.play(&Card::Skull);
    p.recall();
    assert_eq!(p.cards_in_hand, Cards { skulls: 1, roses: 3, unknown: 0 });
    assert!(p.cards_in_play.is_empty());
    assert!(p.cards_revealed.is_empty());
}

#[test]
fn player_lookup_needs_no_order() {
    let mut g = GameState::new();
    g.add_player("bob".to_string());
    assert!(g.player(&"bob".to_string()).is_some());
    assert!(g.player(&"bo".to_string()).is_none());
}

#[test]
fn the_view_does_not_tell_which_cards_others_hold() {
    let mut a = GameState::new();
    a.add_player("ann".to_string());
    a.add_player("bob".to_string());
    let mut b = a.clone();
    a.players[1].state.play(&Card::Skull);
    b.players[1].state.play(&Card::Rose);
    let seen_a = format!("{:?}", a.partial(&"ann".to_string()));
    let seen_b = format!("{:?}", b.partial(&"ann".to_string()));
    assert_eq!(seen_a, seen_b);
    // bob himself sees the difference
    let own_a = format!("{:?}", a.partial(&"bob".to_string()));
    let own_b = format!("{:?}", b.partial(&"bob".to_string()));
    assert_ne!(own_a, own_b);
}
