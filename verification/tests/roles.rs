use stacky_sides::game::opponent;
use stacky_sides::game::resolve_role;
use stacky_sides::game::Game;
use stacky_sides::game::GameCreationPayload;
use stacky_sides::game::Role;

fn fresh_game(creator: u128, against_ai: bool) -> Game {
    Game::create(42, 1_700_000_000, creator, against_ai)
}

#[test]
fn creator_holds_slot_one() {
    let game = fresh_game(10, false);
    assert_eq!(game.player1_key, Some(10));
    assert_eq!(game.player2_key, None);
    assert_eq!(game.winner_key, None);
    assert_eq!(game.ended_at, None);
    let (role, updated) = resolve_role(&game, 10);
    assert_eq!(role, Role::Player1);
    assert_eq!(updated, game);
}

#[test]
fn third_session_claims_slot_two_once() {
    // player 1 set, player 2 open, not against the machine: a new session
    // becomes player 2 and the claim is written exactly once
    let game = fresh_game(10, false);
    let (role, updated) = resolve_role(&game, 30);
    assert_eq!(role, Role::Player2);
    assert_eq!(updated.player2_key, Some(30));
    assert_eq!(updated.player1_key, Some(10));

    let (role2, updated2) = resolve_role(&updated, 30);
    assert_eq!(role2, Role::Player2);
    assert_eq!(updated2, updated);
}

#[test]
fn resolution_is_idempotent_for_every_starting_state() {
    let mut games = vec![
        fresh_game(10, false),
        fresh_game(10, true),
        Game {
            uuid: 1,
            created_at: 0,
            is_against_ai: false,
            player1_key: None,
            player2_key: None,
            winner_key: None,
            ended_at: None,
        },
        Game {
            uuid: 1,
            created_at: 0,
            is_against_ai: false,
            player1_key: Some(10),
            player2_key: Some(20),
            winner_key: None,
            ended_at: None,
        },
    ];
    for game in games.drain(..) {
        for sid in [10u128, 20, 30] {
            let (role1, g1) = resolve_role(&game, sid);
            let (role2, g2) = resolve_role(&g1, sid);
            assert_eq!(role1, role2);
            assert_eq!(g1, g2);
        }
    }
}

#[test]
fn machine_match_keeps_slot_two_open() {
    // in a match against the machine, a second human observes
    let game = fresh_game(10, true);
    let (role, updated) = resolve_role(&game, 30);
    assert_eq!(role, Role::Observer);
    assert_eq!(updated, game);
    assert_eq!(updated.player2_key, None);
}

#[test]
fn full_match_makes_observers() {
    let game = Game {
        uuid: 7,
        created_at: 5,
        is_against_ai: false,
        player1_key: Some(10),
        player2_key: Some(20),
        winner_key: None,
        ended_at: None,
    };
    let (r1, _) = resolve_role(&game, 10);
    let (r2, _) = resolve_role(&game, 20);
    let (r3, g3) = resolve_role(&game, 30);
    assert_eq!(r1, Role::Player1);
    assert_eq!(r2, Role::Player2);
    assert_eq!(r3, Role::Observer);
    assert_eq!(g3, game);
}

#[test]
fn roles_map_to_marks() {
    assert_eq!(Role::Player1.as_mark(), 1);
    assert_eq!(Role::Player2.as_mark(), 2);
    assert_eq!(Role::Observer.as_mark(), 0);
    assert_eq!(opponent(1), 2);
    assert_eq!(opponent(2), 1);
}

#[test]
fn creation_payload_defaults_to_human_opponent() {
    assert!(!GameCreationPayload { is_against_ai: None }.against_ai());
    assert!(!GameCreationPayload { is_against_ai: Some(false) }.against_ai());
    assert!(GameCreationPayload { is_against_ai: Some(true) }.against_ai());
}
