use connect_four::color::Color;
use connect_four::gamestate::GameState;
use connect_four::transposition::{
    check_for_table_clear, new_table_with_capacity, probe_eval, store_entry, ZobristKeys,
    DEFAULT_SEED,
};

#[test]
fn keys_come_from_the_seeded_generator() {
    let keys = ZobristKeys::from_seed(DEFAULT_SEED);
    let mut rng = rand_mt::Mt64::new_unseeded();
    assert_eq!(keys.squares.len(), 49);
    for square in keys.squares.iter() {
        assert_eq!(square.0, rng.next_u64());
        assert_eq!(square.1, rng.next_u64());
    }
    assert_eq!(keys.turn.0, rng.next_u64());
    assert_eq!(keys.turn.1, rng.next_u64());
}

#[test]
fn keys_are_reproducible_per_seed() {
    let a = ZobristKeys::from_seed(7);
    let b = ZobristKeys::from_seed(7);
    let c = ZobristKeys::from_seed(8);
    assert_eq!(a.squares, b.squares);
    assert_eq!(a.turn, b.turn);
    assert_ne!(a.squares, c.squares);
}

#[test]
fn hash_is_xor_of_keys() {
    let keys = ZobristKeys::from_seed(DEFAULT_SEED);
    let empty = GameState::new();
    assert_eq!(keys.compute_hash(&empty), keys.turn.1);
    let mut game = GameState::new();
    game.make_move(2);
    assert_eq!(keys.compute_hash(&game), keys.squares[14].1 ^ keys.turn.0);
}

#[test]
fn hash_ignores_move_order() {
    let keys = ZobristKeys::from_seed(DEFAULT_SEED);
    let mut a = GameState::new();
    let mut b = GameState::new();
    for column in [0u8, 1, 2, 1] {
        a.make_move(column);
    }
    for column in [2u8, 1, 0, 1] {
        b.make_move(column);
    }
    assert_eq!(a, b);
    assert_eq!(keys.compute_hash(&a), keys.compute_hash(&b));
    let mut c = GameState::new();
    for column in [1u8, 0, 1, 2] {
        c.make_move(column);
    }
    assert_ne!(keys.compute_hash(&a), keys.compute_hash(&c));
}

#[test]
fn hash_changes_by_the_move_keys() {
    let keys = ZobristKeys::from_seed(DEFAULT_SEED);
    let mut game = GameState::from_fen("......./......./......./......./...r.../..yy...", Some(Color::Red));
    let before = keys.compute_hash(&game);
    game.make_move(3);
    let cell = 3 * 7 + 2;
    assert_eq!(
        keys.compute_hash(&game),
        before ^ keys.squares[cell].0 ^ keys.turn.0 ^ keys.turn.1
    );
}

#[test]
fn probe_finds_what_was_stored() {
    let mut table = new_table_with_capacity(100);
    let mut game = GameState::new();
    assert_eq!(probe_eval(&table, &game), None);
    store_entry(&mut table, &game, 17);
    assert_eq!(probe_eval(&table, &game), Some(17));
    assert_eq!(probe_eval(&table, &game), Some(17));
    store_entry(&mut table, &game, -3);
    assert_eq!(probe_eval(&table, &game), Some(-3));
    game.make_move(0);
    assert_eq!(probe_eval(&table, &game), None);
    assert_eq!(table.entries.len(), 1);
}

#[test]
fn equal_store_leaves_the_table_alone() {
    let mut table = new_table_with_capacity(100);
    let game = GameState::new();
    store_entry(&mut table, &game, 5);
    store_entry(&mut table, &game, 5);
    assert_eq!(table.entries.len(), 1);
    assert_eq!(probe_eval(&table, &game), Some(5));
}

#[test]
fn probe_compares_the_whole_board() {
    let mut table = new_table_with_capacity(100);
    let game = GameState::new();
    let mut other = GameState::new();
    other.make_move(4);
    store_entry(&mut table, &game, 9);
    // Place the other board under the first board's hash.
    let hash = table.keys.compute_hash(&game);
    table.entries.get_mut(&hash).unwrap().gamestate = other;
    assert_eq!(probe_eval(&table, &game), None);
}

#[test]
fn table_clears_at_nine_tenths() {
    let mut table = new_table_with_capacity(10);
    assert_eq!(table.clear_size, 9);
    let mut game = GameState::new();
    for i in 0..8 {
        game.make_move(i % 7);
        store_entry(&mut table, &game, i as i32);
    }
    assert!(!check_for_table_clear(&mut table));
    assert_eq!(table.entries.len(), 8);
    game.make_move(3);
    store_entry(&mut table, &game, 1);
    assert!(check_for_table_clear(&mut table));
    assert_eq!(table.entries.len(), 0);
    assert_eq!(probe_eval(&table, &game), None);
    store_entry(&mut table, &game, 2);
    assert_eq!(probe_eval(&table, &game), Some(2));
}
