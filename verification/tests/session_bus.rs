use stacky_sides::board::init_state;
use stacky_sides::channels::GameChannels;
use stacky_sides::game::Game;
use stacky_sides::message::GameMessage;
use stacky_sides::pipeline::play_decide;
use stacky_sides::pipeline::publish_outcome;
use stacky_sides::session::connection_player_num;
use stacky_sides::session::inbound_action;
use stacky_sides::session::outbound_forward;
use stacky_sides::session::InboundAction;

#[test]
fn registry_creates_a_bus_once_per_game() {
    let mut channels = GameChannels::new();
    assert!(channels.query_channel(&7).is_none());

    let tx = channels.ensure_channel(7);
    assert!(channels.query_channel(&7).is_some());
    assert!(channels.query_channel(&8).is_none());

    // a later ensure hands out the same bus: what one handle sends, a
    // subscriber of the other receives
    let mut rx = tx.subscribe();
    let tx_again = channels.ensure_channel(7);
    tx_again.send(String::from("hello")).unwrap();
    assert_eq!(rx.try_recv().unwrap(), "hello");
}

#[test]
fn insert_returns_the_replaced_bus() {
    let mut channels = GameChannels::new();
    assert!(channels.insert_channel(7).is_none());
    assert!(channels.insert_channel(7).is_some());
}

#[test]
fn published_outcomes_reach_subscribers() {
    let mut channels = GameChannels::new();
    let tx = channels.ensure_channel(42);
    let mut rx = tx.subscribe();

    let game = Game::create(42, 0, 10, false);
    let board = init_state();
    let d = play_decide(&game, &board, 3, 3, 1, 10, 50).unwrap();
    let sent = publish_outcome(&tx, &d);
    let received = rx.try_recv().unwrap();
    assert_eq!(received, sent);
    assert!(received.starts_with("Board [["));
}

#[test]
fn connection_roles_follow_the_recorded_keys() {
    let game = Game {
        uuid: 1,
        created_at: 0,
        is_against_ai: false,
        player1_key: Some(10),
        player2_key: Some(20),
        winner_key: None,
        ended_at: None,
    };
    assert_eq!(connection_player_num(&game, 10), 1);
    assert_eq!(connection_player_num(&game, 20), 2);
    assert_eq!(connection_player_num(&game, 30), 0);

    let open = Game { player2_key: None, ..game };
    assert_eq!(connection_player_num(&open, 20), 0);
}

#[test]
fn observers_selections_end_the_inbound_loop() {
    let msg = GameMessage::Selection { row: 3, col: 4 };
    assert_eq!(inbound_action(&msg, 0, false), InboundAction::EndLoop);
    assert_eq!(
        inbound_action(&msg, 1, false),
        InboundAction::Play { row: 3, col: 4, with_ai_reply: false }
    );
    assert_eq!(
        inbound_action(&msg, 2, true),
        InboundAction::Play { row: 3, col: 4, with_ai_reply: true }
    );
    let board = GameMessage::Board { state_str: String::from("board [[0]]") };
    assert_eq!(inbound_action(&board, 1, false), InboundAction::Ignore);
}

#[test]
fn outbound_relay_forwards_only_board_and_end_frames() {
    assert_eq!(outbound_forward(String::from("Board [[0, 1]]")).unwrap(), "board [[0, 1]]");
    assert_eq!(outbound_forward(String::from("end 1")).unwrap(), "end 1");
    assert!(outbound_forward(String::from("selection 1 2")).is_none());
    assert!(outbound_forward(String::from("noise")).is_none());
}
