//! Move ordering for the alpha-beta search.
//!
//! The legal moves of a position are partitioned into captures, checking
//! moves and quiet moves. Captures come first, sorted by descending
//! MVV-LVA value (most valuable victim, least valuable attacker); checks
//! follow, then quiet moves, each bucket otherwise in generation order.
//! Front-loading strong captures raises the rate of early beta cutoffs.

use vstd::prelude::*;
use vstd::seq_lib::group_to_multiset_ensures;
use vstd::seq_lib::lemma_multiset_commutative;

use crate::evaluations::material_evaluations::{base_piece_value_in_pawns, piece_worth};
use crate::rules::{
    apply_move, checker_count, checkers_on, child_board, legal_moves, legal_seq, move_dest,
    move_dest_square, move_source, move_source_square, piece_at, piece_on_square,
};

verus! {

/// Whether `m` captures: its destination square is occupied.
pub open spec fn is_capture(b: chess::Board, m: chess::ChessMove) -> bool {
    piece_at(b, move_dest(m)) is Some
}

/// Whether the non-capture `m` gives check: after playing it the opponent
/// stands in check.
pub open spec fn gives_check(b: chess::Board, m: chess::ChessMove) -> bool {
    checker_count(child_board(b, m)) != 0
}

/// MVV-LVA value of a move: ten times the worth of the piece on the
/// destination square minus the worth of the piece moving.
pub open spec fn mvv_lva(b: chess::Board, m: chess::ChessMove) -> int {
    let victim = match piece_at(b, move_dest(m)) {
        Some(p) => piece_worth(p),
        None => 0,
    };
    let attacker = match piece_at(b, move_source(m)) {
        Some(p) => piece_worth(p),
        None => 0,
    };
    victim * 10 - attacker
}

/// The ordering bucket of a move: captures before checks before quiet
/// moves.
pub open spec fn bucket(b: chess::Board, m: chess::ChessMove) -> int {
    if is_capture(b, m) {
        0
    } else if gives_check(b, m) {
        1
    } else {
        2
    }
}

/// The checking-move predicate of `b`, as a function value for filters.
pub open spec fn is_check_move(b: chess::Board) -> spec_fn(chess::ChessMove) -> bool {
    |m: chess::ChessMove| bucket(b, m) == 1
}

/// The quiet-move predicate of `b`, as a function value for filters.
pub open spec fn is_quiet_move(b: chess::Board) -> spec_fn(chess::ChessMove) -> bool {
    |m: chess::ChessMove| bucket(b, m) == 2
}

/// Filtering keeps nothing when no element satisfies the predicate.
proof fn lemma_filter_none<A>(s: Seq<A>, pred: spec_fn(A) -> bool)
    requires
        forall|i: int| 0 <= i < s.len() ==> !pred(#[trigger] s[i]),
    ensures
        s.filter(pred) == Seq::<A>::empty(),
    decreases s.len(),
{
    reveal(Seq::filter);
    if s.len() != 0 {
        lemma_filter_none(s.drop_last(), pred);
    }
}

/// Filtering keeps everything when every element satisfies the predicate.
proof fn lemma_filter_all<A>(s: Seq<A>, pred: spec_fn(A) -> bool)
    requires
        forall|i: int| 0 <= i < s.len() ==> pred(#[trigger] s[i]),
    ensures
        s.filter(pred) == s,
    decreases s.len(),
{
    reveal(Seq::filter);
    if s.len() != 0 {
        lemma_filter_all(s.drop_last(), pred);
        assert(s.drop_last().push(s.last()) =~= s);
    }
}

/// Swapping two positions of a sequence keeps its multiset of elements.
proof fn lemma_swap_keeps_multiset<A>(s: Seq<A>, i: int, j: int)
    requires
        0 <= i < s.len(),
        0 <= j < s.len(),
    ensures
        s.update(i, s[j]).update(j, s[i]).to_multiset() == s.to_multiset(),
{
    broadcast use group_to_multiset_ensures;

    if i == j {
        assert(s.update(i, s[j]).update(j, s[i]) =~= s);
    } else {
        let s1 = s.update(i, s[j]);
        assert(s1[j] == s[j]);
        assert(s1.update(j, s[i]).to_multiset() =~= s.to_multiset());
    }
}

/// The MVV-LVA value of `m`, computed from the board's occupancy.
fn capture_score(board: &chess::Board, m: &chess::ChessMove) -> (score: i64)
    ensures
        score == mvv_lva(*board, *m),
{
    let dest = move_dest_square(m);
    let source = move_source_square(m);
    let victim_value = match piece_on_square(board, dest) {
        Some(p) => base_piece_value_in_pawns(p),
        None => 0,
    };
    let attacker_value = match piece_on_square(board, source) {
        Some(p) => base_piece_value_in_pawns(p),
        None => 0,
    };
    victim_value * 10 - attacker_value
}

/// The legal moves of the position reordered for the search: captures in
/// descending MVV-LVA order, then checking moves, then quiet moves.
pub fn order_moves(board: &chess::Board) -> (r: Vec<chess::ChessMove>)
    ensures
        r@.to_multiset() == legal_seq(*board).to_multiset(),
        r@.len() == legal_seq(*board).len(),
        forall|i: int, j: int|
            0 <= i < j < r@.len() ==> bucket(*board, #[trigger] r@[i]) <= bucket(
                *board,
                #[trigger] r@[j],
            ),
        forall|i: int, j: int|
            0 <= i < j < r@.len() && is_capture(*board, #[trigger] r@[i]) && is_capture(
                *board,
                #[trigger] r@[j],
            ) ==> mvv_lva(*board, r@[i]) >= mvv_lva(*board, r@[j]),
        r@.filter(is_check_move(*board)) == legal_seq(*board).filter(is_check_move(*board)),
        r@.filter(is_quiet_move(*board)) == legal_seq(*board).filter(is_quiet_move(*board)),
{
    broadcast use group_to_multiset_ensures;
    broadcast use vstd::multiset::group_multiset_axioms;

    let moves = legal_moves(board);
    let mut cap_moves: Vec<chess::ChessMove> = Vec::new();
    let mut cap_scores: Vec<i64> = Vec::new();
    let mut checks: Vec<chess::ChessMove> = Vec::new();
    let mut non_caps: Vec<chess::ChessMove> = Vec::new();

    let mut i: usize = 0;
    while i < moves.len()
        invariant
            moves@ == legal_seq(*board),
            i <= moves.len(),
            cap_scores@.len() == cap_moves@.len(),
            forall|k: int|
                0 <= k < cap_moves@.len() ==> is_capture(*board, #[trigger] cap_moves@[k]),
            forall|k: int|
                0 <= k < cap_moves@.len() ==> cap_scores@[k] == mvv_lva(
                    *board,
                    #[trigger] cap_moves@[k],
                ),
            forall|k: int|
                0 <= k < checks@.len() ==> bucket(*board, #[trigger] checks@[k]) == 1,
            forall|k: int|
                0 <= k < non_caps@.len() ==> bucket(*board, #[trigger] non_caps@[k]) == 2,
            cap_moves@.to_multiset().add(checks@.to_multiset()).add(non_caps@.to_multiset())
                == moves@.subrange(0, i as int).to_multiset(),
            checks@ == moves@.subrange(0, i as int).filter(is_check_move(*board)),
            non_caps@ == moves@.subrange(0, i as int).filter(is_quiet_move(*board)),
        decreases moves.len() - i,
    {
        let ghost prefix = moves@.subrange(0, i as int);
        let mv = moves[i];
        assert(legal_seq(*board).contains(mv));
        match piece_on_square(board, move_dest_square(&mv)) {
            Some(_victim) => {
                let score = capture_score(board, &mv);
                let ghost caps_before = cap_moves@;
                cap_moves.push(mv);
                cap_scores.push(score);
                proof {
                    assert(bucket(*board, mv) == 0);
                    vstd::seq_lib::to_multiset_build(caps_before, mv);
                    assert(cap_moves@.to_multiset() == caps_before.to_multiset().insert(mv));
                    assert(cap_moves@.to_multiset().add(checks@.to_multiset()).add(
                        non_caps@.to_multiset(),
                    ) =~= prefix.to_multiset().insert(mv));
                }
            },
            None => {
                let next = apply_move(board, mv);
                if checkers_on(&next) == 0 {
                    let ghost quiet_before = non_caps@;
                    non_caps.push(mv);
                    proof {
                        assert(bucket(*board, mv) == 2);
                        vstd::seq_lib::to_multiset_build(quiet_before, mv);
                        assert(non_caps@.to_multiset() == quiet_before.to_multiset().insert(mv));
                        assert(cap_moves@.to_multiset().add(checks@.to_multiset()).add(
                            non_caps@.to_multiset(),
                        ) =~= prefix.to_multiset().insert(mv));
                    }
                } else {
                    let ghost checks_before = checks@;
                    checks.push(mv);
                    proof {
                        assert(bucket(*board, mv) == 1);
                        vstd::seq_lib::to_multiset_build(checks_before, mv);
                        assert(checks@.to_multiset() == checks_before.to_multiset().insert(mv));
                        assert(cap_moves@.to_multiset().add(checks@.to_multiset()).add(
                            non_caps@.to_multiset(),
                        ) =~= prefix.to_multiset().insert(mv));
                    }
                }
            },
        }
        proof {
            assert(moves@.subrange(0, i + 1 as int) =~= prefix.push(moves@[i as int]));
            vstd::seq_lib::to_multiset_build(prefix, moves@[i as int]);
            prefix.lemma_filter_push(moves@[i as int], is_check_move(*board));
            prefix.lemma_filter_push(moves@[i as int], is_quiet_move(*board));
        }
        i = i + 1;
    }
    proof {
        assert(moves@.subrange(0, moves@.len() as int) =~= moves@);
    }

    // Sort the captures by descending MVV-LVA value (insertion sort).
    let ghost caps0 = cap_moves@;
    let mut k: usize = 0;
    while k < cap_moves.len()
        invariant
            k <= cap_moves@.len(),
            cap_moves@.len() == caps0.len(),
            cap_scores@.len() == cap_moves@.len(),
            cap_moves@.to_multiset() == caps0.to_multiset(),
            forall|t: int|
                0 <= t < cap_moves@.len() ==> is_capture(*board, #[trigger] cap_moves@[t]),
            forall|t: int|
                0 <= t < cap_moves@.len() ==> cap_scores@[t] == mvv_lva(
                    *board,
                    #[trigger] cap_moves@[t],
                ),
            forall|a: int, b: int|
                0 <= a < b < k ==> cap_scores@[a] >= cap_scores@[b],
        decreases cap_moves@.len() - k,
    {
        let mut j: usize = k;
        while j > 0 && cap_scores[j - 1] < cap_scores[j]
            invariant
                j <= k < cap_moves@.len(),
                cap_moves@.len() == caps0.len(),
                cap_scores@.len() == cap_moves@.len(),
                cap_moves@.to_multiset() == caps0.to_multiset(),
                forall|t: int|
                    0 <= t < cap_moves@.len() ==> is_capture(*board, #[trigger] cap_moves@[t]),
                forall|t: int|
                    0 <= t < cap_moves@.len() ==> cap_scores@[t] == mvv_lva(
                        *board,
                        #[trigger] cap_moves@[t],
                    ),
                forall|a: int, b: int|
                    0 <= a < b <= k && b != j ==> cap_scores@[a] >= cap_scores@[b],
                forall|b: int| j < b <= k ==> cap_scores@[j as int] >= cap_scores@[b],
            decreases j,
        {
            let ghost before_m = cap_moves@;
            let ghost before_s = cap_scores@;
            let mv_hi = cap_moves[j];
            let mv_lo = cap_moves[j - 1];
            let sc_hi = cap_scores[j];
            let sc_lo = cap_scores[j - 1];
            cap_moves[j - 1] = mv_hi;
            cap_moves[j] = mv_lo;
            cap_scores[j - 1] = sc_hi;
            cap_scores[j] = sc_lo;
            proof {
                lemma_swap_keeps_multiset(before_m, j - 1, j as int);
                assert(cap_moves@ =~= before_m.update(j - 1, before_m[j as int]).update(
                    j as int,
                    before_m[j - 1],
                ));
            }
            j = j - 1;
        }
        k = k + 1;
    }

    // Concatenate: captures, then checks, then quiet moves.
    let mut ordered: Vec<chess::ChessMove> = Vec::new();
    let mut t: usize = 0;
    while t < cap_moves.len()
        invariant
            t <= cap_moves@.len(),
            ordered@ == cap_moves@.subrange(0, t as int),
        decreases cap_moves@.len() - t,
    {
        ordered.push(cap_moves[t]);
        proof {
            assert(cap_moves@.subrange(0, t + 1 as int) =~= cap_moves@.subrange(0, t as int).push(
                cap_moves@[t as int],
            ));
        }
        t = t + 1;
    }
    proof {
        assert(cap_moves@.subrange(0, cap_moves@.len() as int) =~= cap_moves@);
    }
    let mut t2: usize = 0;
    while t2 < checks.len()
        invariant
            t2 <= checks@.len(),
            ordered@ == cap_moves@ + checks@.subrange(0, t2 as int),
        decreases checks@.len() - t2,
    {
        ordered.push(checks[t2]);
        proof {
            assert(cap_moves@ + checks@.subrange(0, t2 + 1 as int) =~= (cap_moves@
                + checks@.subrange(0, t2 as int)).push(checks@[t2 as int]));
        }
        t2 = t2 + 1;
    }
    proof {
        assert(cap_moves@ + checks@.subrange(0, checks@.len() as int) =~= cap_moves@ + checks@);
    }
    let mut t3: usize = 0;
    while t3 < non_caps.len()
        invariant
            t3 <= non_caps@.len(),
            ordered@ == cap_moves@ + checks@ + non_caps@.subrange(0, t3 as int),
        decreases non_caps@.len() - t3,
    {
        ordered.push(non_caps[t3]);
        proof {
            assert(cap_moves@ + checks@ + non_caps@.subrange(0, t3 + 1 as int) =~= (cap_moves@
                + checks@ + non_caps@.subrange(0, t3 as int)).push(non_caps@[t3 as int]));
        }
        t3 = t3 + 1;
    }
    proof {
        assert(cap_moves@ + checks@ + non_caps@.subrange(0, non_caps@.len() as int) =~= cap_moves@
            + checks@ + non_caps@);
        lemma_multiset_commutative(cap_moves@ + checks@, non_caps@);
        lemma_multiset_commutative(cap_moves@, checks@);
        assert(ordered@.to_multiset() == legal_seq(*board).to_multiset());
        assert(ordered@.to_multiset().len() == legal_seq(*board).to_multiset().len());
        let cp = is_check_move(*board);
        let qp = is_quiet_move(*board);
        Seq::filter_distributes_over_add(cap_moves@ + checks@, non_caps@, cp);
        Seq::filter_distributes_over_add(cap_moves@, checks@, cp);
        lemma_filter_none(cap_moves@, cp);
        lemma_filter_all(checks@, cp);
        lemma_filter_none(non_caps@, cp);
        assert(ordered@.filter(cp) =~= checks@);
        Seq::filter_distributes_over_add(cap_moves@ + checks@, non_caps@, qp);
        Seq::filter_distributes_over_add(cap_moves@, checks@, qp);
        lemma_filter_none(cap_moves@, qp);
        lemma_filter_none(checks@, qp);
        lemma_filter_all(non_caps@, qp);
        assert(ordered@.filter(qp) =~= non_caps@);
    }
    ordered
}

} // verus!
