use vstd::prelude::*;
use std::collections::HashMap;
use crate::color::{Color, Gameover};
use crate::gamestate::GameState;

verus! {

broadcast use vstd::std_specs::hash::group_hash_axioms;

/// The capacity that `new_table` reserves.
pub const MAX_TABLE_SIZE: usize = 80_000_000;

/// The number of entries at which `new_table`'s table is cleared: nine tenths
/// of its capacity.
pub const CLEAR_SIZE: usize = 72_000_000;

/// The seed of the generator that fills the hash keys.
pub const DEFAULT_SEED: u64 = 5489;

/// The magnitude of the evaluation of a won position.
pub const WINNING_EVAL: i32 = 1000;

/// The number of cells that carry a hash key: seven columns of seven bits.
pub const BOARD_SIZE: usize = 49;

#[verifier::external_type_specification]
#[verifier::external_body]
pub struct ExMt64(rand_mt::Mt64);

/// The output number `index` (counting from 0) of the 64-bit Mersenne
/// Twister seeded with `seed`. The stream depends on the seed alone.
pub uninterp spec fn mt64_output(seed: u64, index: nat) -> u64;

/// A Mersenne Twister with the seed it was built from and the number of
/// outputs drawn so far.
struct SeededRng {
    rng: rand_mt::Mt64,
    seed: Ghost<u64>,
    drawn: Ghost<nat>,
}

impl SeededRng {
    /// Relies on rand_mt's `Mt64::new`, which seeds the generator from `seed`
    /// alone, so that its stream is the one `mt64_output` names.
    #[verifier::external_body]
    fn new(seed: u64) -> (r: SeededRng)
        ensures
            r.seed@ == seed,
            r.drawn@ == 0,
    {
        SeededRng { rng: rand_mt::Mt64::new(seed), seed: Ghost(seed), drawn: Ghost(0) }
    }

    /// Relies on rand_mt's `Mt64::next_u64`, which returns the next output of
    /// the stream and advances it by one.
    #[verifier::external_body]
    fn next(&mut self) -> (r: u64)
        ensures
            r == mt64_output(old(self).seed@, old(self).drawn@),
            final(self).seed@ == old(self).seed@,
            final(self).drawn@ == old(self).drawn@ + 1,
    {
        self.rng.next_u64()
    }
}

/// The random values of Zobrist hashing: a (red, yellow) pair for each cell,
/// and a (red, yellow) pair for the color to move.
pub struct ZobristKeys {
    pub squares: Vec<(u64, u64)>,
    pub turn: (u64, u64),
}

/// A cached evaluation, with the board it belongs to.
#[derive(Clone, Copy, PartialEq, Eq, Hash, Debug, Structural)]
pub struct Entry {
    pub gamestate: GameState,
    pub eval: i32,
}

/// The position cache: entries keyed by the Zobrist hash of their board. The
/// board is stored beside its evaluation and compared on each probe, so two
/// boards with one hash never answer for each other.
pub struct Table {
    pub entries: HashMap<u64, Entry>,
    pub keys: ZobristKeys,
    pub clear_size: usize,
}

impl ZobristKeys {
    pub open spec fn wf(&self) -> bool {
        self.squares@.len() == BOARD_SIZE
    }

    /// The key of the cell at bit `i` for one color.
    pub open spec fn square_key(&self, i: int, color: Color) -> u64 {
        match color {
            Color::Red => self.squares@[i].0,
            Color::Yellow => self.squares@[i].1,
        }
    }

    /// The key of the color to move.
    pub open spec fn turn_key(&self, color: Color) -> u64 {
        match color {
            Color::Red => self.turn.0,
            Color::Yellow => self.turn.1,
        }
    }

    /// `hash` with the key of each set bit of `bits` below `n` XORed in, from
    /// the lowest bit up.
    pub open spec fn fold_bits(&self, hash: u64, bits: u64, color: Color, n: nat) -> u64
        decreases n,
    {
        if n == 0 {
            hash
        } else {
            let before = self.fold_bits(hash, bits, color, (n - 1) as nat);
            if (bits >> ((n - 1) as u64)) & 1u64 == 1u64 {
                before ^ self.square_key(n - 1, color)
            } else {
                before
            }
        }
    }

    /// The hash of a board: the keys of yellow's cells, then red's, then the
    /// key of the color to move.
    pub open spec fn hash(&self, b: GameState) -> u64 {
        let yellow = self.fold_bits(0, b.yellow, Color::Yellow, BOARD_SIZE as nat);
        self.fold_bits(yellow, b.red, Color::Red, BOARD_SIZE as nat) ^ self.turn_key(
            b.current_player,
        )
    }

    /// Whether these are the keys drawn from the generator seeded with `seed`:
    /// outputs `2i` and `2i + 1` for cell `i`, then outputs 98 and 99 for the
    /// color to move.
    pub open spec fn drawn_from(&self, seed: u64) -> bool {
        &&& self.wf()
        &&& forall|i: int|
            0 <= i < BOARD_SIZE ==> #[trigger] self.squares@[i] == (
                mt64_output(seed, (2 * i) as nat),
                mt64_output(seed, (2 * i + 1) as nat),
            )
        &&& self.turn == (
            mt64_output(seed, 2 * BOARD_SIZE as nat),
            mt64_output(seed, (2 * BOARD_SIZE + 1) as nat),
        )
    }

    /// Keys drawn from a Mersenne Twister seeded with `seed`: a pair for each
    /// cell in order, then the pair for the color to move.
    pub fn from_seed(seed: u64) -> (r: ZobristKeys)
        ensures
            r.drawn_from(seed),
    {
        let mut rng = SeededRng::new(seed);
        let mut squares: Vec<(u64, u64)> = Vec::new();
        let mut i: usize = 0;
        while i < BOARD_SIZE
            invariant
                i <= BOARD_SIZE,
                squares@.len() == i,
                rng.seed@ == seed,
                rng.drawn@ == 2 * i,
                forall|j: int|
                    0 <= j < i ==> #[trigger] squares@[j] == (
                        mt64_output(seed, (2 * j) as nat),
                        mt64_output(seed, (2 * j + 1) as nat),
                    ),
            decreases BOARD_SIZE - i,
        {
            let red = rng.next();
            let yellow = rng.next();
            squares.push((red, yellow));
            i = i + 1;
        }
        let red = rng.next();
        let yellow = rng.next();
        ZobristKeys { squares, turn: (red, yellow) }
    }

    /// `hash` with the key of each set bit of `bitboard` on the board XORed in.
    fn hash_bitboard(&self, hash: u64, bitboard: u64, color: Color) -> (r: u64)
        requires
            self.wf(),
        ensures
            r == self.fold_bits(hash, bitboard, color, BOARD_SIZE as nat),
    {
        let mut hash = hash;
        let ghost start = hash;
        let mut i: usize = 0;
        while i < BOARD_SIZE
            invariant
                self.wf(),
                i <= BOARD_SIZE,
                hash == self.fold_bits(start, bitboard, color, i as nat),
            decreases BOARD_SIZE - i,
        {
            if (bitboard >> i as u64) & 1 == 1 {
                let square = self.squares[i];
                hash = hash ^ match color {
                    Color::Red => square.0,
                    Color::Yellow => square.1,
                };
            }
            i = i + 1;
        }
        hash
    }

    /// The Zobrist hash of `game_state`.
    pub fn compute_hash(&self, game_state: &GameState) -> (r: u64)
        requires
            self.wf(),
        ensures
            r == self.hash(*game_state),
    {
        let mut hash: u64 = 0;
        hash = self.hash_bitboard(hash, game_state.yellow, Color::Yellow);
        hash = self.hash_bitboard(hash, game_state.red, Color::Red);
        hash ^= match game_state.current_player {
            Color::Red => self.turn.0,
            Color::Yellow => self.turn.1,
        };
        hash
    }
}

/// Whether `eval` can stand as the evaluation of `b`: within the winning
/// magnitude, and strictly inside it while the game on `b` goes on.
pub open spec fn eval_fits(b: GameState, eval: i32) -> bool {
    &&& -WINNING_EVAL <= eval <= WINNING_EVAL
    &&& b.outcome() == Gameover::Ongoing ==> -WINNING_EVAL < eval < WINNING_EVAL
}

/// What a probe of `b` answers on `entries`: the evaluation under `b`'s hash
/// when that entry was stored for `b` itself.
pub open spec fn probe_in(entries: Map<u64, Entry>, keys: &ZobristKeys, b: GameState) -> Option<
    i32,
> {
    let k = keys.hash(b);
    if entries.contains_key(k) && entries[k].gamestate == b {
        Some(entries[k].eval)
    } else {
        None
    }
}

/// `entries` after storing `eval` for `b`.
pub open spec fn stored_in(entries: Map<u64, Entry>, keys: &ZobristKeys, b: GameState, eval: i32) -> Map<
    u64,
    Entry,
> {
    entries.insert(keys.hash(b), Entry { gamestate: b, eval })
}

impl View for Table {
    type V = Map<u64, Entry>;

    open spec fn view(&self) -> Map<u64, Entry> {
        self.entries@
    }
}

impl Table {
    /// The keys are complete and every cached evaluation fits its board.
    pub open spec fn wf(&self) -> bool {
        &&& self.keys.wf()
        &&& forall|k: u64| #[trigger]
            self@.contains_key(k) ==> eval_fits(self@[k].gamestate, self@[k].eval)
    }

    /// What `probe_eval` answers for `b`.
    pub open spec fn probe(&self, b: GameState) -> Option<i32> {
        probe_in(self@, &self.keys, b)
    }
}

/// An empty table reserving `MAX_TABLE_SIZE` entries, cleared at `CLEAR_SIZE`.
pub fn new_table() -> (r: Table)
    ensures
        r.wf(),
        r@ == Map::<u64, Entry>::empty(),
        r.keys.drawn_from(DEFAULT_SEED),
        r.clear_size == CLEAR_SIZE,
{
    new_table_with_capacity(MAX_TABLE_SIZE)
}

/// An empty table reserving `capacity` entries, cleared once it holds nine
/// tenths of that.
pub fn new_table_with_capacity(capacity: usize) -> (r: Table)
    ensures
        r.wf(),
        r@ == Map::<u64, Entry>::empty(),
        r.keys.drawn_from(DEFAULT_SEED),
        r.clear_size == capacity / 10 * 9,
{
    Table {
        entries: HashMap::with_capacity(capacity),
        keys: ZobristKeys::from_seed(DEFAULT_SEED),
        clear_size: capacity / 10 * 9,
    }
}

/// Caches `eval` for `gamestate`, replacing whatever its hash held. An entry
/// that already holds this board and evaluation is left unwritten.
pub fn store_entry(table: &mut Table, gamestate: &GameState, eval: i32)
    requires
        old(table).wf(),
        eval_fits(*gamestate, eval),
    ensures
        final(table).wf(),
        final(table)@ == stored_in(old(table)@, &old(table).keys, *gamestate, eval),
        final(table).keys == old(table).keys,
        final(table).clear_size == old(table).clear_size,
{
    let hash = table.keys.compute_hash(gamestate);
    let new_entry = Entry { gamestate: *gamestate, eval };
    match table.entries.get(&hash) {
        Some(old_entry) => {
            if *old_entry == new_entry {
                assert(table@.insert(hash, new_entry) =~= table@);
                return;
            }
        },
        None => {},
    }
    table.entries.insert(hash, new_entry);
}

/// Clears the table once it holds `clear_size` entries or more; returns
/// whether it did.
pub fn check_for_table_clear(table: &mut Table) -> (r: bool)
    requires
        old(table).wf(),
    ensures
        final(table).wf(),
        r == (old(table)@.len() >= old(table).clear_size),
        r ==> final(table)@ == Map::<u64, Entry>::empty(),
        !r ==> final(table)@ == old(table)@,
        final(table).keys == old(table).keys,
        final(table).clear_size == old(table).clear_size,
{
    if table.entries.len() >= table.clear_size {
        table.entries.clear();
        true
    } else {
        false
    }
}

/// The cached evaluation of `gamestate`, if the table holds one for it.
pub fn probe_eval(table: &Table, gamestate: &GameState) -> (r: Option<i32>)
    requires
        table.wf(),
    ensures
        r == table.probe(*gamestate),
{
    let hash = table.keys.compute_hash(gamestate);
    match table.entries.get(&hash) {
        Some(entry) => {
            if entry.gamestate == *gamestate {
                Some(entry.eval)
            } else {
                None
            }
        },
        None => None,
    }
}

/// A probe reads the table without changing it, and its answer depends only on
/// the entries and the keys; so two probes of one board with no store between
/// them answer alike.
pub proof fn lemma_probe_stable(t1: &Table, t2: &Table, b: GameState)
    requires
        t1@ == t2@,
        t1.keys == t2.keys,
    ensures
        t1.probe(b) == t2.probe(b),
{
}

/// Whatever the entries, and so also right after the table was cleared, a
/// probe finds the evaluation last stored for a board.
pub proof fn lemma_probe_after_store(entries: Map<u64, Entry>, keys: &ZobristKeys, b: GameState, eval: i32)
    ensures
        probe_in(stored_in(entries, keys, b, eval), keys, b) == Some(eval),
        probe_in(stored_in(Map::empty(), keys, b, eval), keys, b) == Some(eval),
{
}

proof fn lemma_set_bit(bits: u64, i: u64, p: u64)
    by (bit_vector)
    requires
        i < 64,
        p < 64,
        bits & (1u64 << i) == 0,
    ensures
        p != i ==> ((bits | (1u64 << i)) >> p) & 1u64 == (bits >> p) & 1u64,
        (bits >> i) & 1u64 != 1u64,
        ((bits | (1u64 << i)) >> i) & 1u64 == 1u64,
{
}

proof fn lemma_xor_swap(a: u64, x: u64, k: u64)
    by (bit_vector)
    ensures
        (a ^ x) ^ k == (a ^ k) ^ x,
{
}

/// Setting one more bit below `n` XORs its key into the fold.
proof fn lemma_fold_set_bit(keys: &ZobristKeys, h: u64, bits: u64, color: Color, i: u64, n: nat)
    requires
        keys.wf(),
        i < BOARD_SIZE,
        n <= BOARD_SIZE,
        bits & (1u64 << i) == 0,
    ensures
        keys.fold_bits(h, bits | (1u64 << i), color, n) == if i < n {
            keys.fold_bits(h, bits, color, n) ^ keys.square_key(i as int, color)
        } else {
            keys.fold_bits(h, bits, color, n)
        },
    decreases n,
{
    if n > 0 {
        let p = (n - 1) as u64;
        lemma_fold_set_bit(keys, h, bits, color, i, (n - 1) as nat);
        lemma_set_bit(bits, i, p);
        let before = keys.fold_bits(h, bits, color, (n - 1) as nat);
        lemma_xor_swap(before, keys.square_key(i as int, color), keys.square_key(p as int, color));
    }
}

/// XORing a value into the starting hash XORs it into the fold.
proof fn lemma_fold_start(keys: &ZobristKeys, h: u64, k: u64, bits: u64, color: Color, n: nat)
    ensures
        keys.fold_bits(h ^ k, bits, color, n) == keys.fold_bits(h, bits, color, n) ^ k,
    decreases n,
{
    if n > 0 {
        lemma_fold_start(keys, h, k, bits, color, (n - 1) as nat);
        let before = keys.fold_bits(h, bits, color, (n - 1) as nat);
        lemma_xor_swap(before, k, keys.square_key(n - 1, color));
    }
}

/// Zobrist hashes compose by XOR: a move changes a board's hash by the key of
/// the cell it fills for the mover and by both turn keys, whatever moves came
/// before. The hash is thus a function of the position alone, the same for
/// every order of moves that reaches it.
pub proof fn lemma_hash_after_move(keys: &ZobristKeys, b: GameState, column: u64)
    requires
        keys.wf(),
        b.wf(),
        column < 7,
        b.height(column) < 6,
    ensures
        keys.hash(b.applied(column)) == keys.hash(b) ^ keys.square_key(
            7 * column + b.height(column),
            b.current_player,
        ) ^ keys.turn_key(b.current_player) ^ keys.turn_key(b.current_player.other()),
{
    let i = (7 * column + b.height(column)) as u64;
    let k = keys.square_key(i as int, b.current_player);
    let n = BOARD_SIZE as nat;
    let a = b.applied(column);
    crate::gamestate::lemma_apply(b, column);
    let t_now = keys.turn_key(b.current_player);
    let t_next = keys.turn_key(b.current_player.other());
    let red = b.red;
    let yellow = b.yellow;
    let m = 1u64 << i;
    assert(m == crate::gamestate::cell_mask(column, b.height(column)));
    assert((red | yellow) & m == 0 ==> red & m == 0 && yellow & m == 0) by (bit_vector);
    match b.current_player {
        Color::Yellow => {
            lemma_fold_set_bit(keys, 0, b.yellow, Color::Yellow, i, n);
            let fy = keys.fold_bits(0, b.yellow, Color::Yellow, n);
            lemma_fold_start(keys, fy, k, b.red, Color::Red, n);
            let f = keys.fold_bits(fy, b.red, Color::Red, n);
            assert((f ^ k) ^ t_next == (((f ^ t_now) ^ k) ^ t_now) ^ t_next) by (bit_vector);
        },
        Color::Red => {
            let fy = keys.fold_bits(0, b.yellow, Color::Yellow, n);
            lemma_fold_set_bit(keys, fy, b.red, Color::Red, i, n);
            let f = keys.fold_bits(fy, b.red, Color::Red, n);
            assert((f ^ k) ^ t_next == (((f ^ t_now) ^ k) ^ t_now) ^ t_next) by (bit_vector);
        },
    }
}

/// Two boards with the same pieces and the same color to move hash alike.
pub proof fn lemma_hash_of_position(keys: &ZobristKeys, b1: GameState, b2: GameState)
    requires
        b1.red == b2.red,
        b1.yellow == b2.yellow,
        b1.current_player == b2.current_player,
    ensures
        keys.hash(b1) == keys.hash(b2),
{
}

} // verus!
