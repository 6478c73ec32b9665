use stacky_sides::board::init_state;
use stacky_sides::message::encode_board;
use stacky_sides::message::encode_end;
use stacky_sides::message::GameMessage;

#[test]
fn selection_message_parses() {
    match GameMessage::read(String::from("selection 3 4")) {
        Ok(GameMessage::Selection { row, col }) => {
            assert_eq!(row, 3);
            assert_eq!(col, 4);
        }
        other => panic!("expected a selection, got {:?}", other),
    }
}

#[test]
fn selection_with_extra_field_fails() {
    assert!(GameMessage::read(String::from("Selection 3 4 5")).is_err());
}

#[test]
fn keywords_are_case_insensitive() {
    // fails if the lowercase folding handed its input back unchanged
    match GameMessage::read(String::from("SELECTION 3 4")) {
        Ok(GameMessage::Selection { row, col }) => {
            assert_eq!(row, 3);
            assert_eq!(col, 4);
        }
        other => panic!("expected a selection, got {:?}", other),
    }
    match GameMessage::read(String::from("BOARD [[0]]")) {
        Ok(GameMessage::Board { state_str }) => assert_eq!(state_str, "board [[0]]"),
        other => panic!("expected a board frame, got {:?}", other),
    }
}

#[test]
fn board_and_end_frames_pass_through() {
    match GameMessage::read(String::from("board [[1, 2], [0, 0]]")) {
        Ok(GameMessage::Board { state_str }) => assert_eq!(state_str, "board [[1, 2], [0, 0]]"),
        other => panic!("expected a board frame, got {:?}", other),
    }
    match GameMessage::read(String::from("End 2")) {
        Ok(GameMessage::End { ending_str }) => assert_eq!(ending_str, "end 2"),
        other => panic!("expected an end frame, got {:?}", other),
    }
}

#[test]
fn bad_selections_report_the_right_error() {
    // three parts led by `selection`, but a coordinate does not parse
    assert_eq!(
        GameMessage::read(String::from("selection x 4")).unwrap_err(),
        "could not parse selection message"
    );
    // a coordinate above what a u8 holds
    assert_eq!(
        GameMessage::read(String::from("selection 999 4")).unwrap_err(),
        "could not parse selection message"
    );
    // wrong number of parts
    assert_eq!(
        GameMessage::read(String::from("selection 3")).unwrap_err(),
        "could not parse message"
    );
    // unrelated text, and the empty frame
    assert_eq!(
        GameMessage::read(String::from("hello there")).unwrap_err(),
        "could not parse message"
    );
    assert_eq!(GameMessage::read(String::new()).unwrap_err(), "could not parse message");
}

#[test]
fn selection_accepts_a_leading_plus() {
    // the standard u8 parser accepts an explicit plus sign
    match GameMessage::read(String::from("selection +3 255")) {
        Ok(GameMessage::Selection { row, col }) => {
            assert_eq!(row, 3);
            assert_eq!(col, 255);
        }
        other => panic!("expected a selection, got {:?}", other),
    }
}

#[test]
fn end_frame_encodes_the_mark() {
    assert_eq!(encode_end(1), "End 1");
    assert_eq!(encode_end(2), "End 2");
    assert_eq!(encode_end(0), "End 0");
}

#[test]
fn board_frame_encodes_like_the_debug_formatter() {
    let grid = vec![vec![0u8, 1], vec![2, 0]];
    assert_eq!(encode_board(&grid), format!("Board {:?}", grid));
    assert_eq!(encode_board(&grid), "Board [[0, 1], [2, 0]]");

    let empty = init_state();
    assert_eq!(encode_board(&empty), format!("Board {:?}", empty));

    let wide = vec![vec![10u8, 200, 7]];
    assert_eq!(encode_board(&wide), "Board [[10, 200, 7]]");
}

#[test]
fn encoded_board_frame_reads_back_as_a_board() {
    let grid = vec![vec![1u8, 0], vec![0, 2]];
    let frame = encode_board(&grid);
    match GameMessage::read(frame) {
        Ok(GameMessage::Board { state_str }) => {
            assert_eq!(state_str, "board [[1, 0], [0, 2]]");
        }
        other => panic!("expected a board frame, got {:?}", other),
    }
}
