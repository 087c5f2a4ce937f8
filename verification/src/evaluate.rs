//! Depth-bounded negamax search with alpha-beta pruning.
//!
//! The exact value of a position is defined by the spec function
//! [`game_value`]: an exhaustive, unpruned negamax traversal in which a
//! checkmated mover scores negative infinity, a stalemate scores zero, a
//! depth-exhausted node scores the static evaluation oriented for the
//! mover, and an interior node scores the maximum over its children of
//! the negated child value. The executable [`Evaluator::negamax`] prunes
//! with an `(alpha, beta)` window; its contract states that pruning is
//! sound for the window — in particular, over the full window it returns
//! exactly `game_value`.

use vstd::prelude::*;
use vstd::seq_lib::group_to_multiset_ensures;

use crate::evaluations::material_evaluations::{
    get_color_material_advantage, lemma_advantage_range, material_advantage,
};
use crate::evaluations::search::order_moves;
use crate::rules::{
    apply_move, board_status, child_board, legal_seq, other_color, status, ColorKind, Status,
};
use crate::score::{window_sound, Score, INF_BOUND};

verus! {

pub struct Evaluator;

/// What one search call returns: the score of the position for the side
/// to move, the best move if one was recorded, and the leaf counter after
/// the call.
pub type EvaluationResult = (Score, Option<chess::ChessMove>, u64);

/// White-relative static evaluation: White's material total minus
/// Black's, in twentieths of a pawn.
pub open spec fn eval_value(b: chess::Board) -> int {
    material_advantage(b)
}

/// The exact, unpruned negamax value of `b` for the side `c` to move,
/// with `depth` plies of search budget left. Mate is scored as the
/// infinity sentinel with no distance-to-mate preference.
pub open spec fn game_value(b: chess::Board, depth: nat, c: ColorKind) -> int
    decreases depth, 1int, 0int,
{
    match board_status(b) {
        Status::Checkmate => -(INF_BOUND as int),
        Status::Stalemate => 0,
        Status::Ongoing => if depth == 0 {
            if c == ColorKind::White {
                eval_value(b)
            } else {
                -eval_value(b)
            }
        } else {
            best_value(b, legal_seq(b), depth, c)
        },
    }
}

/// What playing `m` from `b` is worth to the mover `c`: the negation of
/// the child's value for the opponent, one ply deeper. Meaningful only
/// with at least one ply of budget left.
pub open spec fn move_value(b: chess::Board, m: chess::ChessMove, depth: nat, c: ColorKind) -> int
    decreases depth, 0int, 0int,
{
    if depth == 0 {
        0
    } else {
        -game_value(child_board(b, m), (depth - 1) as nat, other_color(c))
    }
}

/// The best move value over `moves` (negative infinity over none).
pub open spec fn best_value(
    b: chess::Board,
    moves: Seq<chess::ChessMove>,
    depth: nat,
    c: ColorKind,
) -> int
    decreases depth, 0int, moves.len(),
{
    if moves.len() == 0 {
        -(INF_BOUND as int)
    } else {
        let head = move_value(b, moves[0], depth, c);
        let rest = best_value(b, moves.drop_first(), depth, c);
        if head >= rest {
            head
        } else {
            rest
        }
    }
}

/// The number of leaves an exhaustive, unpruned traversal of `b` with
/// `depth` plies of budget evaluates: none below a finished game, one at
/// a depth-exhausted node, and otherwise the total over all children.
pub open spec fn leaf_total(b: chess::Board, depth: nat) -> int
    decreases depth, 1int, 0int,
{
    match board_status(b) {
        Status::Checkmate => 0,
        Status::Stalemate => 0,
        Status::Ongoing => if depth == 0 {
            1
        } else {
            sum_leaves(b, legal_seq(b), depth)
        },
    }
}

/// The total number of unpruned leaves below the children of `b` reached
/// by `moves`, one ply deeper.
pub open spec fn sum_leaves(b: chess::Board, moves: Seq<chess::ChessMove>, depth: nat) -> int
    decreases depth, 0int, moves.len(),
{
    if moves.len() == 0 || depth == 0 {
        0
    } else {
        leaf_total(child_board(b, moves[0]), (depth - 1) as nat) + sum_leaves(
            b,
            moves.drop_first(),
            depth,
        )
    }
}

/// Unpruned leaf counts are never negative.
pub proof fn lemma_leaf_total_nonneg(b: chess::Board, depth: nat)
    ensures
        leaf_total(b, depth) >= 0,
    decreases depth, 1int, 0int,
{
    if board_status(b) == Status::Ongoing && depth > 0 {
        lemma_sum_leaves_nonneg(b, legal_seq(b), depth);
    }
}

/// Sums of unpruned leaf counts are never negative.
pub proof fn lemma_sum_leaves_nonneg(b: chess::Board, moves: Seq<chess::ChessMove>, depth: nat)
    ensures
        sum_leaves(b, moves, depth) >= 0,
    decreases depth, 0int, moves.len(),
{
    if moves.len() > 0 && depth > 0 {
        lemma_leaf_total_nonneg(child_board(b, moves[0]), (depth - 1) as nat);
        lemma_sum_leaves_nonneg(b, moves.drop_first(), depth);
    }
}

/// Appending a move adds exactly that child's leaves to the sum.
proof fn lemma_sum_leaves_push(
    b: chess::Board,
    moves: Seq<chess::ChessMove>,
    m: chess::ChessMove,
    depth: nat,
)
    requires
        depth >= 1,
    ensures
        sum_leaves(b, moves.push(m), depth) == sum_leaves(b, moves, depth) + leaf_total(
            child_board(b, m),
            (depth - 1) as nat,
        ),
    decreases moves.len(),
{
    if moves.len() == 0 {
        assert(moves.push(m)[0] == m);
        assert(moves.push(m).drop_first() =~= Seq::<chess::ChessMove>::empty());
        assert(sum_leaves(b, Seq::<chess::ChessMove>::empty(), depth) == 0);
        assert(sum_leaves(b, moves, depth) == 0);
    } else {
        assert(moves.push(m)[0] == moves[0]);
        assert(moves.push(m).drop_first() =~= moves.drop_first().push(m));
        lemma_sum_leaves_push(b, moves.drop_first(), m, depth);
    }
}

/// Removing the move at `j` takes exactly that child's leaves out of the
/// sum.
proof fn lemma_sum_leaves_remove(b: chess::Board, moves: Seq<chess::ChessMove>, j: int, depth: nat)
    requires
        0 <= j < moves.len(),
        depth >= 1,
    ensures
        sum_leaves(b, moves, depth) == leaf_total(child_board(b, moves[j]), (depth - 1) as nat)
            + sum_leaves(b, moves.remove(j), depth),
    decreases moves.len(),
{
    if j == 0 {
        assert(moves.remove(0) =~= moves.drop_first());
    } else {
        assert(moves.remove(j)[0] == moves[0]);
        assert(moves.remove(j).drop_first() =~= moves.drop_first().remove(j - 1));
        lemma_sum_leaves_remove(b, moves.drop_first(), j - 1, depth);
        assert(moves.drop_first()[j - 1] == moves[j]);
    }
}

/// The sum of unpruned leaf counts does not depend on the order of the
/// moves.
pub proof fn lemma_sum_leaves_perm(
    b: chess::Board,
    s1: Seq<chess::ChessMove>,
    s2: Seq<chess::ChessMove>,
    depth: nat,
)
    requires
        s1.to_multiset() == s2.to_multiset(),
    ensures
        sum_leaves(b, s1, depth) == sum_leaves(b, s2, depth),
    decreases s1.len(),
{
    broadcast use group_to_multiset_ensures;

    vstd::seq_lib::to_multiset_len(s1);
    vstd::seq_lib::to_multiset_len(s2);
    if depth == 0 {
        assert(s1.len() == s2.len());
    } else if s1.len() == 0 {
        assert(s1.len() == s2.len());
    } else {
        let m = s1[0];
        assert(s1.contains(m));
        lemma_same_multiset_contains(s1, s2, m);
        let j = choose|j: int| 0 <= j < s2.len() && s2[j] == m;
        lemma_sum_leaves_remove(b, s2, j, depth);
        assert(s1.drop_first() =~= s1.remove(0));
        assert(s1.remove(0).to_multiset() == s1.to_multiset().remove(m));
        assert(s2.remove(j).to_multiset() == s2.to_multiset().remove(m));
        lemma_sum_leaves_perm(b, s1.drop_first(), s2.remove(j), depth);
    }
}

/// A prefix of the moves reaches at most as many unpruned leaves as the
/// whole sequence.
proof fn lemma_sum_leaves_prefix_le(
    b: chess::Board,
    moves: Seq<chess::ChessMove>,
    k: int,
    depth: nat,
)
    requires
        0 <= k <= moves.len(),
        depth >= 1,
    ensures
        sum_leaves(b, moves.subrange(0, k), depth) <= sum_leaves(b, moves, depth),
    decreases moves.len() - k,
{
    if k == moves.len() {
        assert(moves.subrange(0, k) =~= moves);
    } else {
        assert(moves.subrange(0, k + 1) =~= moves.subrange(0, k).push(moves[k]));
        lemma_sum_leaves_push(b, moves.subrange(0, k), moves[k], depth);
        lemma_leaf_total_nonneg(child_board(b, moves[k]), (depth - 1) as nat);
        lemma_sum_leaves_prefix_le(b, moves, k + 1, depth);
    }
}

/// Every game value lies between the two infinity sentinels.
pub proof fn lemma_game_value_bounded(b: chess::Board, depth: nat, c: ColorKind)
    ensures
        -(INF_BOUND as int) <= game_value(b, depth, c) <= INF_BOUND as int,
    decreases depth, 1int, 0int,
{
    if board_status(b) == Status::Ongoing {
        if depth == 0 {
            lemma_advantage_range(b);
        } else {
            lemma_best_value_bounded(b, legal_seq(b), depth, c);
        }
    }
}

/// Every best-over-moves value lies between the two infinity sentinels.
pub proof fn lemma_best_value_bounded(
    b: chess::Board,
    moves: Seq<chess::ChessMove>,
    depth: nat,
    c: ColorKind,
)
    ensures
        -(INF_BOUND as int) <= best_value(b, moves, depth, c) <= INF_BOUND as int,
    decreases depth, 0int, moves.len(),
{
    if moves.len() > 0 {
        lemma_move_value_bounded(b, moves[0], depth, c);
        lemma_best_value_bounded(b, moves.drop_first(), depth, c);
        assert(-(INF_BOUND as int) <= move_value(b, moves[0], depth, c) <= INF_BOUND as int);
    }
}

/// The value of any single move lies between the two infinity sentinels.
pub proof fn lemma_move_value_bounded(b: chess::Board, m: chess::ChessMove, depth: nat, c: ColorKind)
    ensures
        -(INF_BOUND as int) <= move_value(b, m, depth, c) <= INF_BOUND as int,
    decreases depth, 0int, 0int,
{
    if depth > 0 {
        lemma_game_value_bounded(child_board(b, m), (depth - 1) as nat, other_color(c));
    }
}

/// Two sequences with the same multiset hold the same elements.
proof fn lemma_same_multiset_contains<A>(s1: Seq<A>, s2: Seq<A>, x: A)
    requires
        s1.to_multiset() == s2.to_multiset(),
        s1.contains(x),
    ensures
        s2.contains(x),
{
    broadcast use group_to_multiset_ensures;

    assert(s1.to_multiset().count(x) > 0);
    assert(s2.to_multiset().count(x) > 0);
}

/// The best value over a move sequence is an upper bound on the value of
/// each move in it.
pub proof fn lemma_best_value_ge(
    b: chess::Board,
    moves: Seq<chess::ChessMove>,
    depth: nat,
    c: ColorKind,
    i: int,
)
    requires
        0 <= i < moves.len(),
    ensures
        move_value(b, moves[i], depth, c) <= best_value(b, moves, depth, c),
    decreases moves.len(),
{
    if i > 0 {
        lemma_best_value_ge(b, moves.drop_first(), depth, c, i - 1);
        assert(moves.drop_first()[i - 1] == moves[i]);
    }
}

/// The best value over a nonempty move sequence is attained by one of
/// its moves.
pub proof fn lemma_best_value_witness(
    b: chess::Board,
    moves: Seq<chess::ChessMove>,
    depth: nat,
    c: ColorKind,
)
    requires
        moves.len() > 0,
    ensures
        exists|i: int|
            0 <= i < moves.len() && best_value(b, moves, depth, c) == move_value(
                b,
                moves[i],
                depth,
                c,
            ),
    decreases moves.len(),
{
    let head = move_value(b, moves[0], depth, c);
    let rest = moves.drop_first();
    if moves.len() == 1 {
        lemma_move_value_bounded(b, moves[0], depth, c);
        assert(rest.len() == 0);
        assert(best_value(b, rest, depth, c) == -(INF_BOUND as int));
        assert(best_value(b, moves, depth, c) == head);
    } else {
        lemma_best_value_witness(b, rest, depth, c);
        if head >= best_value(b, rest, depth, c) {
            assert(best_value(b, moves, depth, c) == move_value(b, moves[0], depth, c));
        } else {
            let j = choose|j: int|
                0 <= j < rest.len() && best_value(b, rest, depth, c) == move_value(
                    b,
                    rest[j],
                    depth,
                    c,
                );
            assert(rest[j] == moves[j + 1]);
            assert(best_value(b, moves, depth, c) == move_value(b, moves[j + 1], depth, c));
        }
    }
}

/// A score that is sound for the full window is the exact game value:
/// pruning with the widest window never changes the returned score
/// relative to the exhaustive traversal.
pub proof fn lemma_full_window_exact(r: int, v: int)
    requires
        window_sound(r, v, -(INF_BOUND as int), INF_BOUND as int),
        -(INF_BOUND as int) <= r <= INF_BOUND as int,
        -(INF_BOUND as int) <= v <= INF_BOUND as int,
    ensures
        r == v,
{
}

/// A position whose move list is a single move is worth exactly that
/// move, at every depth of at least one ply.
pub proof fn lemma_single_move_value(b: chess::Board, depth: nat, c: ColorKind)
    requires
        board_status(b) == Status::Ongoing,
        depth >= 1,
        legal_seq(b).len() == 1,
    ensures
        game_value(b, depth, c) == move_value(b, legal_seq(b)[0], depth, c),
{
    lemma_move_value_bounded(b, legal_seq(b)[0], depth, c);
    assert(legal_seq(b).drop_first().len() == 0);
    assert(best_value(b, legal_seq(b).drop_first(), depth, c) == -(INF_BOUND as int));
}

impl Evaluator {
    pub fn new() -> Self {
        Evaluator
    }

    /// White-relative static heuristic of the position: the material
    /// advantage, in twentieths of a pawn.
    pub fn heuristic(&self, board: &chess::Board) -> (score: i64)
        ensures
            score == eval_value(*board),
            -13440 <= score <= 13440,
    {
        get_color_material_advantage(board)
    }

    /// Negamax with alpha-beta pruning over the window `(alpha, beta)`.
    ///
    /// The score is sound for the window (exact inside it; a bound at or
    /// beyond its edges), a checkmated or stalemated position returns at
    /// once with the leaf counter unchanged, a depth-exhausted node
    /// counts one leaf and returns the mover-oriented static evaluation,
    /// and the returned move — present exactly when the score is above
    /// negative infinity — is one of the position's legal moves.
    pub fn negamax(
        &self,
        board: &chess::Board,
        leaf_counter: u64,
        depth: usize,
        alpha: Score,
        beta: Score,
        color: ColorKind,
    ) -> (r: EvaluationResult)
        requires
            alpha.valid(),
            beta.valid(),
            alpha.as_int() < beta.as_int(),
        ensures
            r.0.valid(),
            r.2 >= leaf_counter,
            r.2 <= leaf_counter + leaf_total(*board, depth as nat),
            window_sound(
                r.0.as_int(),
                game_value(*board, depth as nat, color),
                alpha.as_int(),
                beta.as_int(),
            ),
            board_status(*board) == Status::Checkmate ==> r.0 == Score::NegInf && r.1 is None
                && r.2 == leaf_counter,
            board_status(*board) == Status::Stalemate ==> r.0 == Score::Finite(0i64) && r.1 is None
                && r.2 == leaf_counter,
            board_status(*board) == Status::Ongoing && depth == 0 ==> r.0.as_int() == game_value(
                *board,
                0,
                color,
            ) && r.1 is None && r.2 == if leaf_counter < u64::MAX {
                leaf_counter + 1
            } else {
                leaf_counter as int
            },
            r.1 matches Some(m) ==> legal_seq(*board).contains(m),
            board_status(*board) == Status::Ongoing && depth > 0 ==> (r.1 is Some <==> r.0.as_int()
                > -(INF_BOUND as int)),
            board_status(*board) == Status::Ongoing && depth > 0 && legal_seq(*board).len() == 1
                && r.0.as_int() > -(INF_BOUND as int) ==> r.1 == Some(legal_seq(*board)[0]),
            board_status(*board) == Status::Ongoing && depth > 0 && alpha == Score::NegInf && beta
                == Score::PosInf ==> (r.1 matches Some(m) ==> move_value(*board, m, depth as nat, color)
                == r.0.as_int()),
        decreases depth,
    {
        broadcast use group_to_multiset_ensures;

        match status(board) {
            Status::Checkmate => (Score::NegInf, None, leaf_counter),
            Status::Stalemate => (Score::Finite(0), None, leaf_counter),
            Status::Ongoing => {
                if depth == 0 {
                    let new_leaf = if leaf_counter < u64::MAX {
                        leaf_counter + 1
                    } else {
                        leaf_counter
                    };
                    let val = self.heuristic(board);
                    let signed = if color == ColorKind::White {
                        val
                    } else {
                        -val
                    };
                    (Score::Finite(signed), None, new_leaf)
                } else {
                    let ghost legal = legal_seq(*board);
                    let ghost a0 = alpha.as_int();
                    let ghost d = depth as nat;
                    let ordered = order_moves(board);
                    let mut best_score = Score::NegInf;
                    let mut best_move: Option<chess::ChessMove> = None;
                    let mut alpha_cur = alpha;
                    let mut leaf = leaf_counter;
                    let mut cut = false;
                    let mut idx: usize = 0;
                    while idx < ordered.len() && !cut
                        invariant
                            legal == legal_seq(*board),
                            legal.len() > 0,
                            board_status(*board) == Status::Ongoing,
                            depth > 0,
                            d == depth as nat,
                            ordered@.to_multiset() == legal.to_multiset(),
                            ordered@.len() == legal.len(),
                            idx <= ordered@.len(),
                            alpha.valid(),
                            beta.valid(),
                            a0 == alpha.as_int(),
                            a0 < beta.as_int(),
                            best_score.valid(),
                            alpha_cur.valid(),
                            leaf >= leaf_counter,
                            leaf <= leaf_counter + sum_leaves(
                                *board,
                                ordered@.subrange(0, idx as int),
                                d,
                            ),
                            alpha_cur.as_int() == if best_score.as_int() >= a0 {
                                best_score.as_int()
                            } else {
                                a0
                            },
                            best_move matches Some(m) ==> exists|q: int|
                                0 <= q < idx && ordered@[q] == m,
                            best_move is Some <==> best_score.as_int() > -(INF_BOUND as int),
                            alpha == Score::NegInf && beta == Score::PosInf ==> (best_move matches
                                Some(m) ==> best_score.as_int() == move_value(*board, m, d, color)),
                            !cut ==> alpha_cur.as_int() < beta.as_int(),
                            !cut ==> forall|q: int|
                                0 <= q < idx ==> move_value(*board, #[trigger] ordered@[q], d, color)
                                    <= best_score.as_int(),
                            !cut ==> best_score.as_int() <= a0 || exists|q: int|
                                0 <= q < idx && best_score.as_int() <= move_value(
                                    *board,
                                    ordered@[q],
                                    d,
                                    color,
                                ),
                            cut ==> best_score.as_int() >= beta.as_int(),
                            cut ==> exists|q: int|
                                0 <= q < idx && move_value(*board, ordered@[q], d, color)
                                    >= best_score.as_int(),
                        decreases ordered@.len() - idx,
                    {
                        let mv = ordered[idx];
                        proof {
                            assert(ordered@.contains(mv));
                            lemma_same_multiset_contains(ordered@, legal, mv);
                        }
                        let child = apply_move(board, mv);
                        let (child_score, _child_best, new_leaf) = self.negamax(
                            &child,
                            leaf,
                            depth - 1,
                            beta.neg(),
                            alpha_cur.neg(),
                            color.flip(),
                        );
                        let t = child_score.neg();
                        leaf = new_leaf;
                        let ghost old_best = best_score.as_int();
                        let ghost old_alpha = alpha_cur.as_int();
                        proof {
                            assert(move_value(*board, mv, d, color) == -game_value(
                                child_board(*board, mv),
                                (d - 1) as nat,
                                other_color(color),
                            ));
                            assert(ordered@.subrange(0, idx + 1) =~= ordered@.subrange(
                                0,
                                idx as int,
                            ).push(mv));
                            lemma_sum_leaves_push(
                                *board,
                                ordered@.subrange(0, idx as int),
                                mv,
                                d,
                            );
                        }
                        if t.gt(best_score) {
                            best_score = t;
                            best_move = Some(mv);
                        }
                        alpha_cur = alpha_cur.max_with(t);
                        if alpha_cur.ge(beta) {
                            cut = true;
                        }
                        proof {
                            let v = move_value(*board, mv, d, color);
                            if cut {
                                assert(t.as_int() >= beta.as_int());
                                assert(v >= t.as_int());
                                assert(best_score.as_int() == t.as_int());
                                assert(0 <= idx < idx + 1 && move_value(
                                    *board,
                                    ordered@[idx as int],
                                    d,
                                    color,
                                ) >= best_score.as_int());
                            } else {
                                assert(t.as_int() < beta.as_int());
                                assert(v <= t.as_int());
                                if t.as_int() > old_best {
                                    if v >= t.as_int() {
                                        assert(0 <= idx < idx + 1 && best_score.as_int()
                                            <= move_value(*board, ordered@[idx as int], d, color));
                                    } else {
                                        assert(t.as_int() <= old_alpha);
                                        assert(best_score.as_int() <= a0);
                                    }
                                }
                            }
                            if alpha == Score::NegInf && beta == Score::PosInf && t.as_int()
                                > old_best {
                                // Over the full window each recorded best move
                                // attains its exact value: the child call ran
                                // with an open window down to its own alpha.
                                lemma_move_value_bounded(*board, mv, d, color);
                                assert(old_alpha == old_best);
                                assert(v == t.as_int());
                            }
                        }
                        idx = idx + 1;
                    }
                    proof {
                        match best_move {
                            Some(m) => {
                                let q0 = choose|q0: int| 0 <= q0 < idx && ordered@[q0] == m;
                                assert(ordered@.contains(m));
                                lemma_same_multiset_contains(ordered@, legal, m);
                            },
                            None => {},
                        }
                        lemma_sum_leaves_prefix_le(*board, ordered@, idx as int, d);
                        lemma_sum_leaves_perm(*board, ordered@, legal, d);
                        assert(leaf_total(*board, d) == sum_leaves(*board, legal, d));
                        let r0 = best_score.as_int();
                        let v_all = game_value(*board, d, color);
                        assert(v_all == best_value(*board, legal, d, color));
                        if cut {
                            let q = choose|q: int|
                                0 <= q < idx && move_value(*board, ordered@[q], d, color) >= r0;
                            assert(ordered@.contains(ordered@[q]));
                            lemma_same_multiset_contains(ordered@, legal, ordered@[q]);
                            let k = choose|k: int| 0 <= k < legal.len() && legal[k] == ordered@[q];
                            lemma_best_value_ge(*board, legal, d, color, k);
                            assert(v_all >= r0);
                        } else {
                            lemma_best_value_witness(*board, legal, d, color);
                            let i_w = choose|i_w: int|
                                0 <= i_w < legal.len() && best_value(*board, legal, d, color)
                                    == move_value(*board, legal[i_w], d, color);
                            assert(legal.contains(legal[i_w]));
                            lemma_same_multiset_contains(legal, ordered@, legal[i_w]);
                            let q_w = choose|q_w: int|
                                0 <= q_w < ordered@.len() && ordered@[q_w] == legal[i_w];
                            assert(move_value(*board, ordered@[q_w], d, color) <= r0);
                            assert(v_all <= r0);
                            if r0 > a0 {
                                let q2 = choose|q2: int|
                                    0 <= q2 < idx && r0 <= move_value(*board, ordered@[q2], d, color);
                                assert(ordered@.contains(ordered@[q2]));
                                lemma_same_multiset_contains(ordered@, legal, ordered@[q2]);
                                let k2 = choose|k2: int|
                                    0 <= k2 < legal.len() && legal[k2] == ordered@[q2];
                                lemma_best_value_ge(*board, legal, d, color, k2);
                                assert(v_all >= r0);
                            }
                        }
                        if legal.len() == 1 && r0 > -(INF_BOUND as int) {
                            assert(legal.contains(legal[0]));
                            lemma_same_multiset_contains(legal, ordered@, legal[0]);
                            let q3 = choose|q3: int|
                                0 <= q3 < ordered@.len() && ordered@[q3] == legal[0];
                            assert(q3 == 0);
                            assert(best_move == Some(legal[0]));
                        }
                    }
                    (best_score, best_move, leaf)
                }
            },
        }
    }
}

} // verus!
