use connect_four::color::Color;
use connect_four::engine::{
    best_move, choose_best, evaluate_move, legal_moves, negamax_entrypoint,
};
use connect_four::gamestate::GameState;
use connect_four::transposition::{new_table_with_capacity, probe_eval, WINNING_EVAL};

const THREAT_BOARD: &str = "..ryyry/..rrryr/rryyyrr/yyyrryy/rryyyry/yyrrryr";

#[test]
fn legal_moves_center_first() {
    let game = GameState::new();
    assert_eq!(legal_moves(&game).as_slice(), &[3, 2, 4, 1, 5, 0, 6]);
    let mut full = GameState::new();
    for _ in 0..6 {
        full.make_move(3);
    }
    assert_eq!(legal_moves(&full).as_slice(), &[2, 4, 1, 5, 0, 6]);
}

#[test]
fn threat_board_blocks_the_threat() {
    let board = GameState::from_fen(THREAT_BOARD, Some(Color::Yellow));
    let mut table = new_table_with_capacity(1000);
    assert_eq!(best_move(&board, &mut table, 5), (1, 0));
}

#[test]
fn threat_board_evaluations() {
    let board = GameState::from_fen(THREAT_BOARD, Some(Color::Yellow));
    let mut table = new_table_with_capacity(1000);
    assert_eq!(evaluate_move(&board, 1, &mut table, 5), 0);
    assert_eq!(evaluate_move(&board, 0, &mut table, 5), -(WINNING_EVAL - 1));
}

#[test]
fn threat_board_winner_takes_the_win() {
    let board = GameState::from_fen(THREAT_BOARD, None);
    assert_eq!(board.current_player, Color::Red);
    let mut table = new_table_with_capacity(1000);
    assert_eq!(negamax_entrypoint(&board, &mut table), (1, WINNING_EVAL));
}

#[test]
fn single_winning_column_is_chosen() {
    let mut board = GameState::new();
    for column in [0u8, 1, 0, 1, 0, 1] {
        board.make_move(column);
    }
    assert_eq!(board.current_player, Color::Yellow);
    for depth in 1..5 {
        let mut table = new_table_with_capacity(10_000);
        assert_eq!(best_move(&board, &mut table, depth), (0, WINNING_EVAL));
    }
}

#[test]
fn winning_move_is_cached_as_a_loss_for_the_loser() {
    let mut board = GameState::new();
    for column in [0u8, 1, 0, 1, 0, 1] {
        board.make_move(column);
    }
    let mut table = new_table_with_capacity(10_000);
    best_move(&board, &mut table, 1);
    let mut after = board;
    after.make_move(0);
    assert_eq!(probe_eval(&table, &after), Some(-WINNING_EVAL));
}

#[test]
fn forced_block_at_depth_two() {
    // Red threatens column 0 vertically; yellow to move must block there.
    let board = GameState::from_fen("......./......./......./r....../r....../r..yy..", Some(Color::Yellow));
    let mut table = new_table_with_capacity(100_000);
    let (column, eval) = best_move(&board, &mut table, 2);
    assert_eq!(column, 0);
    assert_eq!(eval, 0);
}

#[test]
fn unblockable_double_threat_loses() {
    // Red holds three in the bottom row with both ends open; yellow to move cannot stop it.
    let board = GameState::from_fen("......./......./......./......./..yy.../.rrr...", Some(Color::Yellow));
    let mut table = new_table_with_capacity(100_000);
    let (_, eval) = best_move(&board, &mut table, 3);
    assert_eq!(eval, -(WINNING_EVAL - 1));
}

#[test]
fn shallow_search_of_an_open_board_is_even() {
    let board = GameState::new();
    let mut table = new_table_with_capacity(100_000);
    assert_eq!(best_move(&board, &mut table, 3), (3, 0));
}

#[test]
fn last_cell_tie() {
    let board = GameState::from_fen(".rryyry/ryrrryr/rryyyrr/yyyrryy/rryyyry/yyrrryr", Some(Color::Yellow));
    let mut table = new_table_with_capacity(100);
    assert_eq!(negamax_entrypoint(&board, &mut table), (0, 0));
}

#[test]
fn choose_best_prefers_the_first_of_equals() {
    assert_eq!(choose_best(&vec![(3, 5), (2, 7), (4, 7), (1, -2)]), (2, 7));
    assert_eq!(choose_best(&vec![(6, -1)]), (6, -1));
    assert_eq!(choose_best(&vec![(3, 0), (2, 0)]), (3, 0));
}
