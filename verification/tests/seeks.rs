use stacky_sides::wins::seek_bottom;
use stacky_sides::wins::seek_bottom_left;
use stacky_sides::wins::seek_bottom_right;
use stacky_sides::wins::seek_left;
use stacky_sides::wins::seek_right;
use stacky_sides::wins::seek_top;
use stacky_sides::wins::seek_top_left;
use stacky_sides::wins::seek_top_right;

fn get_board() -> Vec<Vec<u8>> {
    vec![
        vec![0, 0, 0, 0, 1],
        vec![0, 1, 0, 1, 0],
        vec![0, 0, 1, 0, 0],
        vec![0, 1, 0, 1, 0],
        vec![0, 0, 1, 0, 0],
    ]
}

fn get_extra_board() -> Vec<Vec<u8>> {
    vec![
        vec![2, 0, 2, 0, 0],
        vec![0, 0, 2, 0, 0],
        vec![2, 0, 2, 2, 2],
        vec![0, 0, 0, 0, 0],
        vec![0, 2, 2, 0, 0],
    ]
}

#[test]
fn top_right_end_of_chain() {
    let ref board = get_board();

    assert_eq!(seek_top_right(1, 1, board), (1, 1));
    assert_eq!(seek_top_right(3, 1, board), (0, 4));
    assert_eq!(seek_top_right(4, 2, board), (3, 3));
}

#[test]
fn top_left_end_of_chain() {
    let ref board = get_board();

    assert_eq!(seek_top_left(1, 1, board), (1, 1));
    assert_eq!(seek_top_left(3, 3, board), (1, 1));
    assert_eq!(seek_top_left(4, 2, board), (3, 1));
}

#[test]
fn bottom_right_end_of_chain() {
    let ref board = get_board();

    assert_eq!(seek_bottom_right(0, 4, board), (0, 4));
    assert_eq!(seek_bottom_right(1, 1, board), (3, 3));
    assert_eq!(seek_bottom_right(2, 2, board), (3, 3));
}

#[test]
fn bottom_left_end_of_chain() {
    let ref board = get_board();

    assert_eq!(seek_bottom_left(0, 4, board), (3, 1));
    assert_eq!(seek_bottom_left(1, 1, board), (1, 1));
    assert_eq!(seek_bottom_left(2, 2, board), (3, 1));
}

#[test]
fn top_of_chain() {
    let ref board = get_extra_board();

    assert_eq!(seek_top(0, 0, board), (0, 0));
    assert_eq!(seek_top(2, 2, board), (0, 2));
    assert_eq!(seek_top(4, 2, board), (4, 2));
}

#[test]
fn bottom_of_chain() {
    let ref board = get_extra_board();

    assert_eq!(seek_bottom(0, 0, board), (0, 0));
    assert_eq!(seek_bottom(0, 2, board), (2, 2));
    assert_eq!(seek_bottom(4, 2, board), (4, 2));
}

#[test]
fn right_end_of_chain() {
    let ref board = get_extra_board();

    assert_eq!(seek_right(2, 0, board), (2, 0));
    assert_eq!(seek_right(2, 3, board), (2, 4));
    assert_eq!(seek_right(4, 2, board), (4, 2));
}

#[test]
fn left_end_of_chain() {
    let ref board = get_extra_board();

    assert_eq!(seek_left(2, 0, board), (2, 0));
    assert_eq!(seek_left(2, 3, board), (2, 2));
    assert_eq!(seek_left(4, 2, board), (4, 1));
}
