use vstd::prelude::*;
use tinyvec::ArrayVec;
use crate::color::Gameover;
use crate::gamestate::{lemma_apply, GameState};
use crate::transposition::{
    eval_fits, probe_eval, probe_in, store_entry, stored_in, Entry, Table, ZobristKeys,
    WINNING_EVAL,
};

verus! {

/// The bound of the alpha-beta window at the root; every evaluation lies well inside.
pub const SEARCH_BOUND: i32 = 10_000;

/// The running maximum of a search before its first move, below every evaluation.
pub const NO_EVAL: i32 = -20_000;

/// The most plies a game can still last, and the depth of an unlimited search.
pub const MAX_DEPTH: u16 = 42;

#[verifier::external_type_specification]
#[verifier::external_body]
#[verifier::reject_recursive_types(A)]
pub struct ExArrayVec<A>(ArrayVec<A>);

/// The columns that a move list holds, in order.
pub uninterp spec fn move_list(v: ArrayVec<[u8; 7]>) -> Seq<u8>;

/// Relies on tinyvec's `ArrayVec::new`, which makes an empty list.
#[verifier::external_body]
fn empty_moves() -> (r: ArrayVec<[u8; 7]>)
    ensures
        move_list(r) == Seq::<u8>::empty(),
{
    ArrayVec::new()
}

/// Relies on tinyvec's `ArrayVec::push`, which appends an item and panics
/// only when all seven slots are taken.
#[verifier::external_body]
fn push_move(v: &mut ArrayVec<[u8; 7]>, column: u8)
    requires
        move_list(*old(v)).len() < 7,
    ensures
        move_list(*final(v)) == move_list(*old(v)).push(column),
{
    v.push(column)
}

/// Relies on tinyvec's `ArrayVec::len`, the number of items held.
#[verifier::external_body]
fn moves_len(v: &ArrayVec<[u8; 7]>) -> (r: usize)
    ensures
        r == move_list(*v).len(),
{
    v.len()
}

/// Relies on tinyvec's `ArrayVec::as_slice`, the items held, in order.
#[verifier::external_body]
fn move_at(v: &ArrayVec<[u8; 7]>, i: usize) -> (r: u8)
    requires
        i < move_list(*v).len(),
    ensures
        r == move_list(*v)[i as int],
{
    v.as_slice()[i]
}

/// The order in which columns are tried: the center first, then alternately
/// outward, since central columns take part in the most lines.
pub open spec fn column_ranking() -> Seq<u8> {
    seq![3u8, 2u8, 4u8, 1u8, 5u8, 0u8, 6u8]
}

/// The columns among the first `k` of the ranking that are not full.
pub open spec fn legal_among(b: GameState, k: nat) -> Seq<u8>
    decreases k,
{
    if k == 0 {
        Seq::empty()
    } else {
        let before = legal_among(b, (k - 1) as nat);
        let column = column_ranking()[k - 1];
        if b.height(column as u64) < 6 {
            before.push(column)
        } else {
            before
        }
    }
}

/// The columns that are not full, in ranking order.
pub open spec fn legal_columns(b: GameState) -> Seq<u8> {
    legal_among(b, 7)
}

/// Whether the move into `column` ends the game.
pub open spec fn ends_game(b: GameState, column: u8) -> bool {
    b.applied(column as u64).outcome() != Gameover::Ongoing
}

/// Whether the move into `column` wins the game for the player to move.
pub open spec fn wins_game(b: GameState, column: u8) -> bool {
    b.applied(column as u64).outcome() is Win
}

/// The first column of `s` whose move ends the game.
pub open spec fn first_ending(b: GameState, s: Seq<u8>) -> Option<u8>
    decreases s.len(),
{
    if s.len() == 0 {
        None
    } else if ends_game(b, s[0]) {
        Some(s[0])
    } else {
        first_ending(b, s.drop_first())
    }
}

/// The first column of `s` whose move wins the game.
pub open spec fn first_win(b: GameState, s: Seq<u8>) -> Option<u8>
    decreases s.len(),
{
    if s.len() == 0 {
        None
    } else if wins_game(b, s[0]) {
        Some(s[0])
    } else {
        first_win(b, s.drop_first())
    }
}

/// The value of a finished game for the player to move, `ply` plies into the
/// search: a loss counts less the later it comes, a tie is 0.
pub open spec fn leaf_eval(b: GameState, ply: int) -> Option<i32> {
    match b.outcome() {
        Gameover::Win(_) => Some((ply - WINNING_EVAL) as i32),
        Gameover::Tie => Some(0),
        Gameover::Ongoing => None,
    }
}

/// What a search of `b` returns, with the cache entries it leaves, given the
/// entries `m` it starts from: `ply` plies below the root, `depth` plies left,
/// window `alpha`..`beta`. With no depth left it is 0. Else a cached value for
/// `b` is returned as it stands. Else, when a move ends the game at once, the
/// first such move's leaf value is cached for the position it reaches and its
/// negation returned. Else the moves are searched in order by `search_fold`,
/// and the result is cached for `b`. A board with no move scores 0.
pub open spec fn search(
    b: GameState,
    alpha: int,
    beta: int,
    ply: int,
    depth: nat,
    m: Map<u64, Entry>,
    keys: ZobristKeys,
) -> (int, Map<u64, Entry>)
    decreases depth, 9nat,
{
    if depth == 0 {
        (0, m)
    } else if probe_in(m, &keys, b) is Some {
        (probe_in(m, &keys, b)->0 as int, m)
    } else {
        let moves = legal_columns(b);
        match first_ending(b, moves) {
            Some(c) => {
                let e = leaf_eval(b.applied(c as u64), ply + 1)->0;
                (-e, stored_in(m, &keys, b.applied(c as u64), e))
            },
            None => if moves.len() == 0 {
                (0, m)
            } else {
                let (v, after) = search_fold(
                    b,
                    moves,
                    0,
                    alpha,
                    beta,
                    NO_EVAL as int,
                    ply,
                    depth,
                    m,
                    keys,
                );
                (v, stored_in(after, &keys, b, v as i32))
            },
        }
    }
}

/// The alpha-beta fold over `moves` from index `i`, with running maximum
/// `best`: each move's value is the negated search of the position it reaches,
/// with the window negated and swapped and the cache passed on; the maximum
/// and then alpha are raised, and the fold stops once alpha reaches beta.
pub open spec fn search_fold(
    b: GameState,
    moves: Seq<u8>,
    i: nat,
    alpha: int,
    beta: int,
    best: int,
    ply: int,
    depth: nat,
    m: Map<u64, Entry>,
    keys: ZobristKeys,
) -> (int, Map<u64, Entry>)
    decreases depth, 8 - i,
{
    if depth == 0 || i >= moves.len() || i >= 8 {
        (best, m)
    } else {
        let (v, after) = search(
            b.applied(moves[i as int] as u64),
            -beta,
            -alpha,
            ply + 1,
            (depth - 1) as nat,
            m,
            keys,
        );
        let eval = -v;
        let best2 = if i == 0 || eval > best {
            eval
        } else {
            best
        };
        let alpha2 = if best2 > alpha {
            best2
        } else {
            alpha
        };
        if alpha2 >= beta {
            (best2, after)
        } else {
            search_fold(b, moves, i + 1, alpha2, beta, best2, ply, depth, after, keys)
        }
    }
}

/// The plies left below a root move when `depth` plies are searched in all.
pub open spec fn remaining_depth(depth: int) -> nat {
    if depth > MAX_DEPTH {
        (MAX_DEPTH - 1) as nat
    } else if depth <= 0 {
        0
    } else {
        (depth - 1) as nat
    }
}

/// The value of the root move into `column` for the player to move in `b`,
/// with the cache entries it leaves: the negated leaf value, cached, when the
/// move ends the game; else the negated search of the position it reaches.
pub open spec fn root_value(b: GameState, column: u8, depth: int, m: Map<u64, Entry>, keys: ZobristKeys) -> (
    int,
    Map<u64, Entry>,
) {
    let child = b.applied(column as u64);
    match leaf_eval(child, 0) {
        Some(e) => (-e, stored_in(m, &keys, child, e)),
        None => {
            let (v, after) = search(
                child,
                -SEARCH_BOUND,
                SEARCH_BOUND as int,
                0,
                remaining_depth(depth),
                m,
                keys,
            );
            (-v, after)
        },
    }
}

/// Each of `moves` paired with its root value, evaluated in order with the
/// cache passed from one to the next, and the entries left at the end.
pub open spec fn root_results(b: GameState, moves: Seq<u8>, depth: int, m: Map<u64, Entry>, keys: ZobristKeys) -> (
    Seq<(u8, i32)>,
    Map<u64, Entry>,
)
    decreases moves.len(),
{
    if moves.len() == 0 {
        (Seq::empty(), m)
    } else {
        let (before, m1) = root_results(b, moves.drop_last(), depth, m, keys);
        let (v, m2) = root_value(b, moves.last(), depth, m1, keys);
        (before.push((moves.last(), v as i32)), m2)
    }
}

/// `r` is the first entry of `s` with the greatest value.
pub open spec fn is_first_max(s: Seq<(u8, i32)>, r: (u8, i32)) -> bool {
    &&& exists|k: int|
        0 <= k < s.len() && s[k] == r && forall|j: int| 0 <= j < k ==> #[trigger] s[j].1 < r.1
    &&& forall|j: int| 0 <= j < s.len() ==> #[trigger] s[j].1 <= r.1
}

/// The column of the given rank in the search order.
fn ranked_column(rank: usize) -> (r: u8)
    requires
        rank < 7,
    ensures
        r == column_ranking()[rank as int],
{
    if rank == 0 {
        3
    } else if rank == 1 {
        2
    } else if rank == 2 {
        4
    } else if rank == 3 {
        1
    } else if rank == 4 {
        5
    } else if rank == 5 {
        0
    } else {
        6
    }
}

/// The columns that are not full, center first.
pub fn legal_moves(board: &GameState) -> (r: ArrayVec<[u8; 7]>)
    ensures
        move_list(r) == legal_columns(*board),
{
    let mut moves = empty_moves();
    let mut rank: usize = 0;
    while rank < 7
        invariant
            rank <= 7,
            move_list(moves) == legal_among(*board, rank as nat),
            move_list(moves).len() <= rank,
        decreases 7 - rank,
    {
        let column = ranked_column(rank);
        if board.get_height(column) < 6 {
            push_move(&mut moves, column);
        }
        rank = rank + 1;
    }
    moves
}

/// Every listed column is on the board and not full.
pub proof fn lemma_legal_among(b: GameState, k: nat)
    requires
        k <= 7,
    ensures
        legal_among(b, k).len() <= k,
        forall|i: int|
            0 <= i < legal_among(b, k).len() ==> #[trigger] legal_among(b, k)[i] < 7 && b.height(
                legal_among(b, k)[i] as u64,
            ) < 6,
    decreases k,
{
    if k > 0 {
        lemma_legal_among(b, (k - 1) as nat);
        lemma_ranking();
        let before = legal_among(b, (k - 1) as nat);
        let column = column_ranking()[k - 1];
        if b.height(column as u64) < 6 {
            assert forall|i: int| 0 <= i < before.len() implies #[trigger] before.push(column)[i]
                == before[i] by {}
        }
    }
}

/// The ranking lists each column exactly once.
pub proof fn lemma_ranking()
    ensures
        column_ranking().len() == 7,
        forall|i: int| 0 <= i < 7 ==> #[trigger] column_ranking()[i] < 7,
        forall|c: u8| c < 7 ==> #[trigger] column_ranking().contains(c),
{
    let r = column_ranking();
    assert(r[0] == 3 && r[1] == 2 && r[2] == 4 && r[3] == 1 && r[4] == 5 && r[5] == 0 && r[6] == 6);
    assert forall|c: u8| c < 7 implies #[trigger] r.contains(c) by {
        if c == 3 {
            assert(r[0] == c);
        } else if c == 2 {
            assert(r[1] == c);
        } else if c == 4 {
            assert(r[2] == c);
        } else if c == 1 {
            assert(r[3] == c);
        } else if c == 5 {
            assert(r[4] == c);
        } else if c == 0 {
            assert(r[5] == c);
        } else {
            assert(r[6] == c);
        }
    }
}

/// If the position is over, caches and returns its value for the player to
/// move, `ply` plies into the search.
fn evaluate_termination(board: &GameState, ply: u16, table: &mut Table) -> (r: Option<i32>)
    requires
        old(table).wf(),
        ply <= MAX_DEPTH,
    ensures
        r == leaf_eval(*board, ply as int),
        final(table).wf(),
        final(table).keys == old(table).keys,
        final(table).clear_size == old(table).clear_size,
        r matches Some(v) ==> final(table)@ == stored_in(old(table)@, &old(table).keys, *board, v),
        r is None ==> final(table)@ == old(table)@,
{
    let eval = match board.gameover_state() {
        Gameover::Win(_) => ply as i32 - WINNING_EVAL,
        Gameover::Tie => 0,
        Gameover::Ongoing => {
            return None;
        },
    };
    store_entry(table, board, eval);
    Some(eval)
}

/// Negamax with alpha-beta pruning over `board`, whose game goes on, `ply`
/// plies below the root and with `depth` plies left to search. Returns the
/// value for the player to move: 0 once no depth is left; the cached value on
/// a cache hit; otherwise, when a move ends the game at once, the value of the
/// first such move; otherwise the best value over the moves, searched with the
/// window narrowed as they go and cached. The board is left as it was found.
fn negamax(board: &mut GameState, alpha: i32, beta: i32, ply: u16, depth: u16, table: &mut Table) -> (r: i32)
    requires
        old(board).wf(),
        old(board).outcome() == Gameover::Ongoing,
        old(table).wf(),
        ply + depth <= MAX_DEPTH,
        -SEARCH_BOUND <= alpha <= SEARCH_BOUND,
        -SEARCH_BOUND <= beta <= SEARCH_BOUND,
    ensures
        *final(board) == *old(board),
        final(table).wf(),
        final(table).keys == old(table).keys,
        final(table).clear_size == old(table).clear_size,
        -WINNING_EVAL < r < WINNING_EVAL,
        depth == 0 ==> r == 0 && final(table)@ == old(table)@,
        depth > 0 && old(table).probe(*old(board)) is Some ==> r == old(table).probe(
            *old(board),
        )->0 && final(table)@ == old(table)@,
        depth > 0 && old(table).probe(*old(board)) is None ==> (first_ending(
            *old(board),
            legal_columns(*old(board)),
        ) matches Some(c) ==> r == -leaf_eval(old(board).applied(c as u64), ply + 1)->0),
        depth > 0 && legal_columns(*old(board)).len() > 0 && first_ending(
            *old(board),
            legal_columns(*old(board)),
        ) is None ==> final(table).probe(*old(board)) == Some(r),
        (r as int, final(table)@) == search(
            *old(board),
            alpha as int,
            beta as int,
            ply as int,
            depth as nat,
            old(table)@,
            old(table).keys,
        ),
    decreases depth,
{
    if depth == 0 {
        return 0;
    }
    if let Some(eval) = probe_eval(table, board) {
        return eval;
    }
    let ghost b = *board;
    let legal = legal_moves(board);
    let n = moves_len(&legal);
    let ghost moves = move_list(legal);
    proof {
        lemma_legal_among(b, 7);
        assert(moves.skip(0) =~= moves);
    }
    let mut i: usize = 0;
    while i < n
        invariant
            b.wf(),
            b.outcome() == Gameover::Ongoing,
            *board == b,
            b == *old(board),
            old(table).probe(b) is None,
            moves == move_list(legal),
            moves == legal_columns(b),
            n == moves.len(),
            i <= n,
            ply + depth <= MAX_DEPTH,
            depth > 0,
            table.wf(),
            table.keys == old(table).keys,
            table.clear_size == old(table).clear_size,
            table@ == old(table)@,
            forall|j: int| 0 <= j < i ==> !ends_game(b, #[trigger] moves[j]),
            first_ending(b, moves) == first_ending(b, moves.skip(i as int)),
            forall|j: int|
                0 <= j < moves.len() ==> #[trigger] moves[j] < 7 && b.height(moves[j] as u64) < 6,
        decreases n - i,
    {
        let column = move_at(&legal, i);
        proof {
            assert(moves[i as int] == column);
            lemma_apply(b, column as u64);
        }
        board.make_move(column);
        let eval = evaluate_termination(board, ply + 1, table);
        board.undo_move(column);
        proof {
            assert(moves.skip(i as int)[0] == column);
            assert(moves.skip(i as int).drop_first() =~= moves.skip(i + 1));
        }
        if let Some(e) = eval {
            return -e;
        }
        i = i + 1;
    }
    proof {
        assert(moves.skip(n as int) =~= Seq::<u8>::empty());
    }
    if n == 0 {
        return 0;
    }
    let ghost alpha0 = alpha as int;
    let ghost keys = table.keys;
    let mut alpha = alpha;
    let mut max_eval: i32 = NO_EVAL;
    let mut cut = false;
    let mut i: usize = 0;
    while i < n && !cut
        invariant
            b.wf(),
            *board == b,
            b == *old(board),
            moves == move_list(legal),
            n == moves.len(),
            0 < n,
            i <= n,
            cut ==> i > 0,
            ply + depth <= MAX_DEPTH,
            depth > 0,
            table.wf(),
            table.keys == old(table).keys,
            table.clear_size == old(table).clear_size,
            -SEARCH_BOUND <= alpha <= SEARCH_BOUND,
            -SEARCH_BOUND <= beta <= SEARCH_BOUND,
            i > 0 ==> -WINNING_EVAL < max_eval < WINNING_EVAL,
            forall|j: int| 0 <= j < n ==> !ends_game(b, #[trigger] moves[j]),
            forall|j: int|
                0 <= j < moves.len() ==> #[trigger] moves[j] < 7 && b.height(moves[j] as u64) < 6,
            n <= 7,
            keys == old(table).keys,
            search_fold(
                b,
                moves,
                0,
                alpha0,
                beta as int,
                NO_EVAL as int,
                ply as int,
                depth as nat,
                old(table)@,
                keys,
            ) == if cut {
                (max_eval as int, table@)
            } else {
                search_fold(
                    b,
                    moves,
                    i as nat,
                    alpha as int,
                    beta as int,
                    max_eval as int,
                    ply as int,
                    depth as nat,
                    table@,
                    keys,
                )
            },
        decreases n - i,
    {
        let column = move_at(&legal, i);
        proof {
            assert(moves[i as int] == column);
            lemma_apply(b, column as u64);
        }
        let ghost m_before = table@;
        board.make_move(column);
        let eval = -negamax(board, -beta, -alpha, ply + 1, depth - 1, table);
        board.undo_move(column);
        if i == 0 || eval > max_eval {
            max_eval = eval;
        }
        if max_eval > alpha {
            alpha = max_eval;
        }
        if alpha >= beta {
            cut = true;
        }
        i = i + 1;
    }
    store_entry(table, board, max_eval);
    max_eval
}

/// The value, for the player to move, of moving into `column`, searching
/// `depth` plies in all with the move itself counted: `WINNING_EVAL` when the
/// move wins, 0 when it ties, else the negated search of the reply.
pub fn evaluate_move(board: &GameState, column: u8, table: &mut Table, depth: u16) -> (r: i32)
    requires
        board.wf(),
        column < 7,
        board.height(column as u64) < 6,
        old(table).wf(),
    ensures
        final(table).wf(),
        final(table).keys == old(table).keys,
        final(table).clear_size == old(table).clear_size,
        -WINNING_EVAL <= r <= WINNING_EVAL,
        wins_game(*board, column) ==> r == WINNING_EVAL,
        !wins_game(*board, column) ==> r < WINNING_EVAL,
        board.applied(column as u64).outcome() == Gameover::Tie ==> r == 0,
        !ends_game(*board, column) ==> -WINNING_EVAL < r,
        (r as int, final(table)@) == root_value(
            *board,
            column,
            depth as int,
            old(table)@,
            old(table).keys,
        ),
{
    let remaining: u16 = if depth > MAX_DEPTH {
        MAX_DEPTH - 1
    } else if depth == 0 {
        0
    } else {
        depth - 1
    };
    let mut new_board = *board;
    proof {
        lemma_apply(*board, column as u64);
    }
    new_board.make_move(column);
    match evaluate_termination(&new_board, 0, table) {
        Some(eval) => -eval,
        None => -negamax(&mut new_board, -SEARCH_BOUND, SEARCH_BOUND, 0, remaining, table),
    }
}

/// The first of `results` with the greatest evaluation.
pub fn choose_best(results: &Vec<(u8, i32)>) -> (r: (u8, i32))
    requires
        results@.len() > 0,
    ensures
        is_first_max(results@, r),
{
    let mut best = results[0];
    let ghost mut best_at: int = 0;
    let mut i: usize = 1;
    while i < results.len()
        invariant
            1 <= i <= results@.len(),
            0 <= best_at < i,
            results@[best_at] == best,
            forall|j: int| 0 <= j < best_at ==> #[trigger] results@[j].1 < best.1,
            forall|j: int| 0 <= j < i ==> #[trigger] results@[j].1 <= best.1,
        decreases results@.len() - i,
    {
        if results[i].1 > best.1 {
            best = results[i];
            proof {
                best_at = i as int;
            }
        }
        i = i + 1;
    }
    best
}

/// The move to play, searching `depth` plies in all, and its value for the
/// player to move. Each column that is not full is evaluated, center first,
/// and the first with the greatest value is chosen; so when a move wins at
/// once, the first winning column is chosen with `WINNING_EVAL`.
pub fn best_move(board: &GameState, table: &mut Table, depth: u16) -> (r: (u8, i32))
    requires
        board.wf(),
        old(table).wf(),
        exists|c: u64| c < 7 && #[trigger] board.height(c) < 6,
    ensures
        final(table).wf(),
        final(table).keys == old(table).keys,
        final(table).clear_size == old(table).clear_size,
        r.0 < 7,
        board.height(r.0 as u64) < 6,
        -WINNING_EVAL <= r.1 <= WINNING_EVAL,
        (first_win(*board, legal_columns(*board)) matches Some(c) ==> r == (c, WINNING_EVAL)),
        first_win(*board, legal_columns(*board)) is None ==> r.1 < WINNING_EVAL,
        ({
            let (values, after) = root_results(
                *board,
                legal_columns(*board),
                depth as int,
                old(table)@,
                old(table).keys,
            );
            final(table)@ == after && is_first_max(values, r)
        }),
{
    let legal = legal_moves(board);
    let n = moves_len(&legal);
    let ghost moves = move_list(legal);
    proof {
        lemma_legal_among(*board, 7);
        let c = choose|c: u64| c < 7 && #[trigger] board.height(c) < 6;
        lemma_legal_contains(*board, 7, c as u8);
    }
    let mut results: Vec<(u8, i32)> = Vec::new();
    let mut i: usize = 0;
    while i < n
        invariant
            moves == move_list(legal),
            moves == legal_columns(*board),
            n == moves.len(),
            i <= n,
            results@.len() == i,
            board.wf(),
            table.wf(),
            table.keys == old(table).keys,
            table.clear_size == old(table).clear_size,
            forall|j: int|
                0 <= j < moves.len() ==> #[trigger] moves[j] < 7 && board.height(moves[j] as u64)
                    < 6,
            forall|j: int|
                0 <= j < i ==> (#[trigger] results@[j]).0 == moves[j] && -WINNING_EVAL
                    <= results@[j].1 <= WINNING_EVAL && (results@[j].1 == WINNING_EVAL
                    <==> wins_game(*board, moves[j])),
            (results@, table@) == root_results(
                *board,
                moves.take(i as int),
                depth as int,
                old(table)@,
                old(table).keys,
            ),
        decreases n - i,
    {
        let column = move_at(&legal, i);
        let eval = evaluate_move(board, column, table, depth);
        results.push((column, eval));
        proof {
            assert(moves.take(i + 1).drop_last() =~= moves.take(i as int));
            assert(moves.take(i + 1).last() == column);
        }
        i = i + 1;
    }
    proof {
        assert(moves.take(n as int) =~= moves);
    }
    let r = choose_best(&results);
    proof {
        lemma_first_win(*board, moves);
        let k = choose|k: int|
            0 <= k < results@.len() && results@[k] == r && forall|j: int|
                0 <= j < k ==> #[trigger] results@[j].1 < r.1;
        assert(results@[k].0 == moves[k]);
        if let Some(c) = first_win(*board, moves) {
            let w = choose|w: int|
                0 <= w < moves.len() && moves[w] == c && wins_game(*board, moves[w]) && forall|
                    j: int,
                | 0 <= j < w ==> !wins_game(*board, #[trigger] moves[j]);
            assert(results@[w].1 == WINNING_EVAL);
            assert(r.1 == WINNING_EVAL);
            if k < w {
                assert(wins_game(*board, moves[k]));
            }
            if w < k {
                assert(results@[w].1 < r.1);
            }
        } else {
            assert(results@[k].1 != WINNING_EVAL);
        }
    }
    r
}

/// The move to play with a search to the end of the game, and its value.
pub fn negamax_entrypoint(board: &GameState, table: &mut Table) -> (r: (u8, i32))
    requires
        board.wf(),
        old(table).wf(),
        exists|c: u64| c < 7 && #[trigger] board.height(c) < 6,
    ensures
        final(table).wf(),
        final(table).keys == old(table).keys,
        final(table).clear_size == old(table).clear_size,
        r.0 < 7,
        board.height(r.0 as u64) < 6,
        -WINNING_EVAL <= r.1 <= WINNING_EVAL,
        (first_win(*board, legal_columns(*board)) matches Some(c) ==> r == (c, WINNING_EVAL)),
        first_win(*board, legal_columns(*board)) is None ==> r.1 < WINNING_EVAL,
        ({
            let (values, after) = root_results(
                *board,
                legal_columns(*board),
                MAX_DEPTH as int,
                old(table)@,
                old(table).keys,
            );
            final(table)@ == after && is_first_max(values, r)
        }),
{
    best_move(board, table, MAX_DEPTH)
}

/// A column that is not full is listed once its rank is reached.
pub proof fn lemma_legal_contains(b: GameState, k: nat, c: u8)
    requires
        k <= 7,
        c < 7,
        b.height(c as u64) < 6,
    ensures
        (exists|j: int| 0 <= j < k && column_ranking()[j] == c) ==> legal_among(b, k).contains(c),
    decreases k,
{
    lemma_ranking();
    if k > 0 {
        lemma_legal_contains(b, (k - 1) as nat, c);
        let before = legal_among(b, (k - 1) as nat);
        let column = column_ranking()[k - 1];
        if column == c {
            assert(before.push(column)[before.len() as int] == c);
        } else if exists|j: int| 0 <= j < k && column_ranking()[j] == c {
            let j = choose|j: int| 0 <= j < k && column_ranking()[j] == c;
            assert(j < k - 1);
            let i = choose|i: int| 0 <= i < before.len() && before[i] == c;
            if b.height(column as u64) < 6 {
                assert(before.push(column)[i] == c);
            }
        }
    }
}

/// `first_win` is the first winning column of the list, if any.
pub proof fn lemma_first_win(b: GameState, s: Seq<u8>)
    ensures
        first_win(b, s) is None <==> forall|k: int| 0 <= k < s.len() ==> !wins_game(b, #[trigger] s[k]),
        (first_win(b, s) matches Some(c) ==> exists|w: int|
            0 <= w < s.len() && s[w] == c && wins_game(b, s[w]) && forall|j: int|
                0 <= j < w ==> !wins_game(b, #[trigger] s[j])),
    decreases s.len(),
{
    if s.len() > 0 {
        let rest = s.drop_first();
        lemma_first_win(b, rest);
        assert forall|k: int| 0 <= k < rest.len() implies #[trigger] rest[k] == s[k + 1] by {}
        if !wins_game(b, s[0]) {
            if let Some(c) = first_win(b, rest) {
                let w = choose|w: int|
                    0 <= w < rest.len() && rest[w] == c && wins_game(b, rest[w]) && forall|j: int|
                        0 <= j < w ==> !wins_game(b, #[trigger] rest[j]);
                assert forall|j: int| 0 <= j < w + 1 implies !wins_game(b, #[trigger] s[j]) by {
                    if j > 0 {
                        assert(s[j] == rest[j - 1]);
                    }
                }
                assert(s[w + 1] == c);
            } else {
                assert forall|k: int| 0 <= k < s.len() implies !wins_game(b, #[trigger] s[k]) by {
                    if k > 0 {
                        assert(s[k] == rest[k - 1]);
                    }
                }
            }
        }
    }
}

/// When exactly one column wins at once for the player to move, it is the
/// first winning column in the search order, which `best_move` returns with
/// `WINNING_EVAL`.
pub proof fn lemma_single_winning_column(b: GameState, c: u8)
    requires
        b.wf(),
        c < 7,
        b.height(c as u64) < 6,
        wins_game(b, c),
        forall|d: u8| d < 7 && d != c && b.height(d as u64) < 6 ==> !#[trigger] wins_game(b, d),
    ensures
        first_win(b, legal_columns(b)) == Some(c),
{
    let moves = legal_columns(b);
    lemma_ranking();
    lemma_legal_among(b, 7);
    lemma_legal_contains(b, 7, c);
    lemma_first_win(b, moves);
    let i = choose|i: int| 0 <= i < moves.len() && moves[i] == c;
    assert(wins_game(b, moves[i]));
}

} // verus!
