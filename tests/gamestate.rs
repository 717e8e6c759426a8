use connect_four::color::{Color, Gameover};
use connect_four::gamestate::GameState;

#[test]
fn test_game_not_over_empty_board() {
    let game = GameState::new();
    assert_eq!(game.gameover_state(), Gameover::Ongoing);
}

#[test]
fn test_tie_full_board_no_winner() {
    let game = GameState::from_fen("yrryyry/ryrrryr/rryyyrr/yyyrryy/rryyyry/yyrrryr", None);
    println!("{:?}", game);
    assert_eq!(game.gameover_state(), Gameover::Tie);
}

#[test]
fn test_game_in_progress_partial_board() {
    let mut game = GameState::new();
    game.red = (1 << 0) | (1 << 7);
    game.yellow = 1 << 1;
    assert_eq!(game.gameover_state(), Gameover::Ongoing);
}

fn game_with_column(column: u8, pieces: u8) -> GameState {
    let mut game = GameState::new();
    for _ in 0..pieces {
        game.make_move(column);
    }
    game
}

#[test]
fn test_empty_column() {
    let game = GameState::new();
    assert_eq!(game.get_height(0), 0);
    assert_eq!(game.get_height(3), 0);
}

#[test]
fn test_partially_filled_column() {
    let game = game_with_column(2, 3);
    assert_eq!(game.get_height(2), 3);
}

#[test]
fn test_filled_column() {
    let game = game_with_column(4, 6);
    assert_eq!(game.get_height(4), 6);
}

#[test]
fn test_overfilled_column_still_returns_6() {
    let game = game_with_column(5, 7);
    assert_eq!(game.get_height(5), 6);
}

#[test]
fn test_mixed_columns() {
    let mut game = GameState::new();
    game.make_move(0);
    game.make_move(1);
    game.make_move(0);
    game.make_move(1);
    game.make_move(0);
    println!("{:?}", game);
    assert_eq!(game.get_height(0), 3);
    assert_eq!(game.get_height(1), 2);
    assert_eq!(game.get_height(2), 0);
}

#[test]
fn every_column_takes_six_then_refuses() {
    for column in 0..7u8 {
        let mut game = GameState::new();
        for n in 1..=6u8 {
            assert!(game.make_move(column));
            assert_eq!(game.get_height(column), n);
        }
        let before = game;
        assert!(!game.make_move(column));
        assert_eq!(game, before);
        for other in 0..7u8 {
            if other != column {
                assert_eq!(game.get_height(other), 0);
            }
        }
    }
}

#[test]
fn moves_alternate_colors() {
    let mut game = GameState::new();
    assert_eq!(game.current_player, Color::Yellow);
    game.make_move(3);
    assert_eq!(game.yellow, 1 << 21);
    assert_eq!(game.red, 0);
    assert_eq!(game.current_player, Color::Red);
    game.make_move(3);
    assert_eq!(game.red, 1 << 22);
    assert_eq!(game.current_player, Color::Yellow);
    assert_eq!(game.filled(), (1 << 21) | (1 << 22));
}

#[test]
fn undo_restores_the_board() {
    let mut game = GameState::from_fen("......./......./......./...y.../...r.../..yr...", None);
    let before = game;
    for column in 0..7u8 {
        assert!(game.make_move(column));
        game.undo_move(column);
        assert_eq!(game, before);
    }
}

#[test]
fn win_is_reported_for_the_last_mover_only() {
    // Yellow stacks four in column 0 while red plays column 1.
    let mut game = GameState::new();
    for column in [0u8, 1, 0, 1, 0, 1, 0] {
        assert!(game.make_move(column));
    }
    assert_eq!(game.current_player, Color::Red);
    assert_eq!(game.gameover_state(), Gameover::Win(Color::Yellow));
    // The same pieces with yellow to move: only red is tested, and red has no line.
    let mut turned = game;
    turned.override_current_player(Color::Yellow);
    assert_eq!(turned.gameover_state(), Gameover::Ongoing);
}

#[test]
fn horizontal_and_diagonal_wins() {
    let row = GameState::from_fen("......./......./......./......./.rrr.../.yyyy..", Some(Color::Red));
    assert_eq!(row.gameover_state(), Gameover::Win(Color::Yellow));
    let rising = GameState::from_fen("......./......./...r.../..ry.../.ryy.../ryyy...", Some(Color::Yellow));
    assert_eq!(rising.gameover_state(), Gameover::Win(Color::Red));
    let falling = GameState::from_fen("......./......./r....../yr...../yyr..../yyyr...", Some(Color::Yellow));
    assert_eq!(falling.gameover_state(), Gameover::Win(Color::Red));
    let three = GameState::from_fen("......./......./......./......./rrr..../yyy....", Some(Color::Yellow));
    assert_eq!(three.gameover_state(), Gameover::Ongoing);
}

#[test]
fn lines_do_not_wrap_across_columns() {
    // Rows 4 and 5 of column 0 with rows 0 and 1 of column 1 are adjacent bits, not a line.
    let game = GameState::from_fen("r....../r....../y....../y....../yr...../yr.....", Some(Color::Yellow));
    assert_eq!(game.gameover_state(), Gameover::Ongoing);
}

#[test]
fn fewer_than_seven_pieces_is_never_over() {
    let mut game = GameState::new();
    game.red = 0b1111;
    assert_eq!(game.gameover_state(), Gameover::Ongoing);
}

#[test]
fn empty_board_text() {
    let game = GameState::new();
    assert_eq!(game.to_fen(), "......./......./......./......./......./.......");
}

#[test]
fn text_lists_rows_top_first() {
    let mut game = GameState::new();
    game.make_move(0);
    game.make_move(6);
    game.make_move(0);
    assert_eq!(game.to_fen(), "......./......./......./......./y....../y.....r");
}

#[test]
fn text_round_trip() {
    let mut game = GameState::new();
    for column in [3u8, 3, 2, 4, 4, 5, 1, 0, 6, 6, 6, 3] {
        game.make_move(column);
        let text = game.to_fen();
        assert_eq!(GameState::from_fen(&text, Some(game.current_player)), game);
    }
}

#[test]
fn reading_infers_the_color_to_move() {
    let even = GameState::from_fen("......./......./......./......./......./yr.....", None);
    assert_eq!(even.current_player, Color::Red);
    let odd = GameState::from_fen("......./......./......./......./......./y......", None);
    assert_eq!(odd.current_player, Color::Yellow);
    let given = GameState::from_fen("......./......./......./......./......./y......", Some(Color::Red));
    assert_eq!(given.current_player, Color::Red);
}

#[test]
fn reading_skips_other_characters_and_cells_off_the_board() {
    let game = GameState::from_fen("xx r\n", None);
    assert_eq!(game.red, 1 << 5);
    let wide = GameState::from_fen("rrrrrrrrr", None);
    assert_eq!(wide.red, (0..7).map(|c| 1u64 << (7 * c + 5)).fold(0, |a, b| a | b));
    let deep = GameState::from_fen("/////./r", None);
    assert_eq!(deep.red, 0);
    assert_eq!(deep.yellow, 0);
}

#[test]
fn opposite_color() {
    assert_eq!(Color::Red.opposite(), Color::Yellow);
    assert_eq!(Color::Yellow.opposite(), Color::Red);
}

#[test]
fn pieces_by_cell() {
    let game = GameState::from_fen("......./......./......./......./r....../y.....r", None);
    assert_eq!(game.piece_at(0, 0), Some(Color::Yellow));
    assert_eq!(game.piece_at(0, 1), Some(Color::Red));
    assert_eq!(game.piece_at(6, 0), Some(Color::Red));
    assert_eq!(game.piece_at(3, 0), None);
    assert_eq!(game.piece_at(0, 5), None);
}

#[test]
fn well_formed_boards() {
    assert!(GameState::new().is_well_formed());
    let mut game = GameState::new();
    for column in [3u8, 3, 2, 4, 0] {
        game.make_move(column);
    }
    assert!(game.is_well_formed());
    let floating = GameState::from_fen("......./......./......./......./r....../.......", None);
    assert!(!floating.is_well_formed());
    let mut overlap = GameState::new();
    overlap.red = 1;
    overlap.yellow = 1;
    assert!(!overlap.is_well_formed());
    let mut guard = GameState::new();
    guard.red = 0b1111111;
    assert!(!guard.is_well_formed());
}
