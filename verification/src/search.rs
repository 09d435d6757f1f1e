//! The minimax search engine: exhaustive negamax over the game tree, with a
//! depth cutoff, randomized tie-breaking among equally good moves, and an
//! occasional deliberate blunder.
//!
//! Scoring convention: a position is scored after the last mark was placed
//! and the turn has already advanced, so at a won position the seat to move
//! is the loser. `spec_score` returns `1` at a won position when the seat to
//! move equals the seat evaluated for, `-1` otherwise, `0` at a full board,
//! and `-10` (a conservative "assume worst" floor) at the depth cutoff;
//! everywhere else it is the negated maximum over the children.

use vstd::prelude::*;

use crate::game::Cell;
use crate::game::GameState;
use crate::game::Seat;
use crate::game::count_empty;
use crate::game::empties_upto;
use crate::game::lemma_empties_upto_bounds;
use crate::game::lemma_empties_upto_update;
use crate::game::spec_has_winner;
use crate::rng::RandomSource;

verus! {

/// The score the search assigns to `b` with `turn` to move, evaluated for
/// seat `eval`, after `depth` plies out of at most `max_depth` (`-1` for
/// unlimited).
pub open spec fn spec_score(b: Seq<Cell>, turn: Seat, eval: Seat, max_depth: int, depth: int) -> int
    decreases count_empty(b), 10int,
{
    if spec_has_winner(b) {
        if eval == turn {
            1
        } else {
            -1
        }
    } else if count_empty(b) == 0 {
        0
    } else if depth == max_depth {
        -10
    } else {
        -1 * spec_fold(b, turn, eval, max_depth, depth, 9).0
    }
}

/// The running (best child score, best move) pair of the deterministic
/// search loop after it has considered every legal move at an index below
/// `k`, starting from the sentinel pair `(-10, 99)`. A candidate replaces
/// the incumbent only on a strictly greater score, so the final best move
/// is the first legal move achieving the maximum.
pub open spec fn spec_fold(
    b: Seq<Cell>,
    turn: Seat,
    eval: Seat,
    max_depth: int,
    depth: int,
    k: int,
) -> (int, int)
    decreases count_empty(b), k,
{
    if k <= 0 {
        (-10int, 99int)
    } else {
        let prev = spec_fold(b, turn, eval, max_depth, depth, k - 1);
        if 0 <= k - 1 < b.len() && b[k - 1] is Empty {
            proof {
                assert(!(turn.spec_cell() is Empty));
                lemma_empties_upto_update(b, k - 1, turn.spec_cell(), b.len() as int);
                lemma_empties_upto_bounds(b.update(k - 1, turn.spec_cell()), b.len() as int);
            }
            let c = spec_score(
                b.update(k - 1, turn.spec_cell()),
                turn.spec_other(),
                eval.spec_other(),
                max_depth,
                depth + 1,
            );
            if c > prev.0 {
                (c, k - 1)
            } else {
                prev
            }
        } else {
            prev
        }
    }
}

/// Scores stay within the sentinel band: `-10` to `10`.
pub proof fn lemma_score_bounds(b: Seq<Cell>, turn: Seat, eval: Seat, max_depth: int, depth: int)
    ensures
        -10 <= spec_score(b, turn, eval, max_depth, depth) <= 10,
    decreases count_empty(b), 11int,
{
    if !spec_has_winner(b) && count_empty(b) != 0 && depth != max_depth {
        lemma_fold_props(b, turn, eval, max_depth, depth, 9);
    }
}

/// What the running pair satisfies: the score is bounded, the best move is
/// the sentinel `99` exactly when the score is still the floor `-10`, and
/// otherwise names a legal move whose child scores the pair's score.
pub proof fn lemma_fold_props(
    b: Seq<Cell>,
    turn: Seat,
    eval: Seat,
    max_depth: int,
    depth: int,
    k: int,
)
    requires
        0 <= k <= 9,
    ensures
        -10 <= spec_fold(b, turn, eval, max_depth, depth, k).0 <= 10,
        (spec_fold(b, turn, eval, max_depth, depth, k).1 == 99) <==> (spec_fold(
            b,
            turn,
            eval,
            max_depth,
            depth,
            k,
        ).0 == -10),
        spec_fold(b, turn, eval, max_depth, depth, k).1 != 99 ==> {
            let m = spec_fold(b, turn, eval, max_depth, depth, k).1;
            &&& 0 <= m < k
            &&& m < b.len()
            &&& b[m] is Empty
            &&& spec_score(
                b.update(m, turn.spec_cell()),
                turn.spec_other(),
                eval.spec_other(),
                max_depth,
                depth + 1,
            ) == spec_fold(b, turn, eval, max_depth, depth, k).0
        },
    decreases count_empty(b), k,
{
    if k > 0 {
        lemma_fold_props(b, turn, eval, max_depth, depth, k - 1);
        if 0 <= k - 1 < b.len() && b[k - 1] is Empty {
            assert(!(turn.spec_cell() is Empty));
            lemma_empties_upto_update(b, k - 1, turn.spec_cell(), b.len() as int);
            assert(b.update(k - 1, turn.spec_cell()).len() == b.len());
            assert(count_empty(b.update(k - 1, turn.spec_cell())) < count_empty(b));
            lemma_empties_upto_bounds(b.update(k - 1, turn.spec_cell()), b.len() as int);
            lemma_score_bounds(
                b.update(k - 1, turn.spec_cell()),
                turn.spec_other(),
                eval.spec_other(),
                max_depth,
                depth + 1,
            );
        }
    }
}

/// With unlimited depth the cutoff floor is unreachable: every score of a
/// position that still has a legal move is a true game value, `-1`, `0` or
/// `1`.
pub proof fn lemma_score_unlimited(b: Seq<Cell>, turn: Seat, eval: Seat, depth: int)
    requires
        depth >= 0,
        b.len() == 9,
    ensures
        -1 <= spec_score(b, turn, eval, -1, depth) <= 1,
    decreases count_empty(b), 11int,
{
    if !spec_has_winner(b) && count_empty(b) != 0 {
        lemma_empties_upto_bounds(b, 9);
        lemma_some_empty_below(b, 9);
        lemma_fold_unlimited(b, turn, eval, depth, 9);
    }
}

/// A positive count up to `n` names an empty cell below `n`.
pub proof fn lemma_some_empty_below(b: Seq<Cell>, n: int)
    requires
        empties_upto(b, n) > 0,
    ensures
        exists|i: int| 0 <= i < n && b[i] is Empty,
    decreases n,
{
    if n > 0 {
        if b[n - 1] is Empty {
            assert(0 <= n - 1 < n && b[n - 1] is Empty);
        } else {
            lemma_some_empty_below(b, n - 1);
        }
    }
}

/// With unlimited depth, once some legal move below `k` exists the running
/// best is a true game value.
pub proof fn lemma_fold_unlimited(b: Seq<Cell>, turn: Seat, eval: Seat, depth: int, k: int)
    requires
        depth >= 0,
        0 <= k <= 9,
        b.len() == 9,
    ensures
        (exists|i: int| 0 <= i < k && i < b.len() && b[i] is Empty) ==> -1 <= spec_fold(
            b,
            turn,
            eval,
            -1,
            depth,
            k,
        ).0 <= 1,
    decreases count_empty(b), k,
{
    if k > 0 {
        lemma_fold_unlimited(b, turn, eval, depth, k - 1);
        lemma_fold_props(b, turn, eval, -1, depth, k - 1);
        if 0 <= k - 1 < b.len() && b[k - 1] is Empty {
            assert(!(turn.spec_cell() is Empty));
            lemma_empties_upto_update(b, k - 1, turn.spec_cell(), b.len() as int);
            assert(b.update(k - 1, turn.spec_cell()).len() == b.len());
            assert(count_empty(b.update(k - 1, turn.spec_cell())) < count_empty(b));
            lemma_empties_upto_bounds(b.update(k - 1, turn.spec_cell()), b.len() as int);
            lemma_score_unlimited(
                b.update(k - 1, turn.spec_cell()),
                turn.spec_other(),
                eval.spec_other(),
                depth + 1,
            );
        } else {
            assert forall|i: int| 0 <= i < k && i < b.len() && #[trigger] (b[i]) is Empty implies 0
                <= i < k - 1 by {}
        }
    }
}

/// One node of the negamax search. Returns `(score, chosen move)`. The move
/// is `None` exactly at a won position, a full board, or the depth cutoff;
/// otherwise it is `Some` of the chosen cell index, with `99` as the
/// never-updated sentinel (reachable only when every child scored the
/// floor). The score never depends on the randomness; with
/// `tie_randomness == 0` no draw is made and the move is pinned to the
/// first legal move achieving the maximum.
pub fn search(
    state: &GameState,
    max_depth: i32,
    depth: i32,
    evaluating_for: Seat,
    tie_randomness: u8,
    rng: &mut RandomSource,
) -> (r: (i8, Option<u8>))
    requires
        state.wf(),
        old(rng).wf(),
        0 <= depth,
        depth + count_empty(state.board@) <= 9,
        max_depth == -1 || max_depth >= 1,
    ensures
        final(rng).wf(),
        final(rng).use_thread == old(rng).use_thread,
        r.0 as int == spec_score(
            state.board@,
            state.turn,
            evaluating_for,
            max_depth as int,
            depth as int,
        ),
        (r.1 is None) == (spec_has_winner(state.board@) || count_empty(state.board@) == 0
            || depth == max_depth),
        r.1 matches Some(m) ==> {
            let f = spec_fold(
                state.board@,
                state.turn,
                evaluating_for,
                max_depth as int,
                depth as int,
                9,
            );
            &&& (m == 99 ==> f.0 == -10)
            &&& (m != 99 ==> m < 9 && state.board@[m as int] is Empty && spec_score(
                state.board@.update(m as int, state.turn.spec_cell()),
                state.turn.spec_other(),
                evaluating_for.spec_other(),
                max_depth as int,
                depth as int + 1,
            ) == f.0)
            &&& (tie_randomness == 0 ==> m as int == f.1)
        },
        tie_randomness == 0 ==> *final(rng) == *old(rng),
    decreases 9 - depth,
{
    if state.has_winner() {
        if state.turn == evaluating_for {
            return (1, None);
        } else {
            return (-1, None);
        }
    }
    let moves = state.legal_moves();
    if moves.len() == 0 {
        return (0, None);
    }
    if depth == max_depth {
        return (-10, None);
    }
    let ghost rng0 = *rng;
    let mut max_score: i8 = -10;
    let mut best_move: u8 = 99;
    let mut i: usize = 0;
    while i < 9
        invariant
            state.wf(),
            rng.wf(),
            rng.use_thread == rng0.use_thread,
            0 <= depth,
            depth + count_empty(state.board@) <= 9,
            count_empty(state.board@) > 0,
            max_depth == -1 || max_depth >= 1,
            depth != max_depth,
            !spec_has_winner(state.board@),
            i <= 9,
            -10 <= max_score <= 10,
            max_score as int == spec_fold(
                state.board@,
                state.turn,
                evaluating_for,
                max_depth as int,
                depth as int,
                i as int,
            ).0,
            best_move == 99 ==> max_score == -10,
            best_move != 99 ==> best_move < 9 && state.board@[best_move as int] is Empty
                && spec_score(
                state.board@.update(best_move as int, state.turn.spec_cell()),
                state.turn.spec_other(),
                evaluating_for.spec_other(),
                max_depth as int,
                depth as int + 1,
            ) == max_score as int,
            tie_randomness == 0 ==> (*rng == rng0 && best_move as int == spec_fold(
                state.board@,
                state.turn,
                evaluating_for,
                max_depth as int,
                depth as int,
                i as int,
            ).1),
        decreases 9 - i,
    {
        if state.cell_at(i) == Cell::Empty {
            let child = state.move_and_new_state(i);
            proof {
                assert(!(state.turn.spec_cell() is Empty));
                lemma_empties_upto_update(state.board@, i as int, state.turn.spec_cell(), 9);
                lemma_empties_upto_bounds(child.board@, 9);
            }
            let sub = search(
                &child,
                max_depth,
                depth + 1,
                evaluating_for.other(),
                tie_randomness,
                rng,
            );
            let score = sub.0;
            proof {
                lemma_score_bounds(
                    child.board@,
                    child.turn,
                    evaluating_for.spec_other(),
                    max_depth as int,
                    depth as int + 1,
                );
            }
            let mut take = score > max_score;
            if !take && score == max_score && tie_randomness != 0 {
                let d = rng.draw_below(tie_randomness as u64 + 1);
                take = d == 1;
            }
            if take {
                max_score = score;
                best_move = i as u8;
            }
        }
        i = i + 1;
    }
    (-1 * max_score, Some(best_move))
}

/// Play a uniformly random legal move. Exactly one empty cell gets the
/// mover's mark and the turn advances. With a fixed source the filled cell
/// is pinned: its rank among the empty cells is the drawn value.
pub fn random_move(state: &mut GameState, rng: &mut RandomSource) -> (mv: u8)
    requires
        old(state).wf(),
        old(rng).wf(),
        count_empty(old(state).board@) > 0,
    ensures
        final(state).wf(),
        final(rng).wf(),
        final(rng).use_thread == old(rng).use_thread,
        mv < 9,
        old(state).board@[mv as int] is Empty,
        final(state).board@ == old(state).board@.update(mv as int, old(state).turn.spec_cell()),
        final(state).turn == old(state).turn.spec_other(),
        final(state).x_cfg == old(state).x_cfg,
        final(state).o_cfg == old(state).o_cfg,
        count_empty(final(state).board@) == count_empty(old(state).board@) - 1,
        !old(rng).use_thread ==> empties_upto(old(state).board@, mv as int) == old(
            rng,
        ).spec_fixed_draw(count_empty(old(state).board@)) && *final(rng) == old(
            rng,
        ).spec_stepped(),
{
    let ghost b0 = state.board@;
    let moves = state.legal_moves();
    let idx = rng.draw_below(moves.len() as u64);
    let spot = moves[idx as usize];
    let mv = spot as u8;
    proof {
        assert(!(state.turn.spec_cell() is Empty));
        lemma_empties_upto_update(b0, mv as int, state.turn.spec_cell(), 9);
    }
    let ok = state.apply_move(mv % 3, mv / 3);
    proof {
        assert(mv / 3 <= 2 && mv % 3 <= 2);
        assert((mv / 3) as int * 3 + (mv % 3) as int == mv as int);
        assert(ok);
    }
    mv
}

/// The blunder die: with rate `0` it never fires and no draw is made;
/// otherwise it fires on a drawn `1` out of `[0, rate]`, one chance in
/// `rate + 1`. With a fixed source the outcome is a function of the state.
pub fn blunder_roll(blunder_rate: u8, rng: &mut RandomSource) -> (b: bool)
    requires
        old(rng).wf(),
    ensures
        final(rng).wf(),
        final(rng).use_thread == old(rng).use_thread,
        blunder_rate == 0 ==> !b && *final(rng) == *old(rng),
        blunder_rate != 0 && !old(rng).use_thread ==> b == (old(rng).spec_fixed_draw(
            blunder_rate as int + 1,
        ) == 1) && *final(rng) == old(rng).spec_stepped(),
{
    if blunder_rate == 0 {
        false
    } else {
        rng.draw_below(blunder_rate as u64 + 1) == 1
    }
}

/// Pick and apply the acting seat's move: roll the blunder die; on a
/// blunder play a random legal move; otherwise run the search at the
/// seat's configured depth and apply its move, falling back to a random
/// legal move only when the search returned the never-updated sentinel
/// (reachable only under a depth limit). Exactly one empty cell gets the
/// mark and the turn advances. With both knobs at zero and the sentinel
/// not hit, no draw is made and the move is the search's first-found best.
pub fn choose_move(state: &mut GameState, acting_seat: Seat, rng: &mut RandomSource) -> (mv: u8)
    requires
        old(state).wf(),
        old(rng).wf(),
        acting_seat == old(state).turn,
        !spec_has_winner(old(state).board@),
        count_empty(old(state).board@) > 0,
        old(state).spec_cfg(acting_seat).search_depth == -1 || old(state).spec_cfg(
            acting_seat,
        ).search_depth >= 1,
    ensures
        final(state).wf(),
        final(rng).wf(),
        final(rng).use_thread == old(rng).use_thread,
        mv < 9,
        old(state).board@[mv as int] is Empty,
        final(state).board@ == old(state).board@.update(mv as int, old(state).turn.spec_cell()),
        final(state).turn == old(state).turn.spec_other(),
        final(state).x_cfg == old(state).x_cfg,
        final(state).o_cfg == old(state).o_cfg,
        count_empty(final(state).board@) == count_empty(old(state).board@) - 1,
        ({
            let cfg = old(state).spec_cfg(acting_seat);
            let f = spec_fold(
                old(state).board@,
                old(state).turn,
                old(state).turn,
                cfg.search_depth as int,
                0,
                9,
            );
            &&& (cfg.blunder_rate == 0 && cfg.tie_randomness == 0 && f.1 != 99 ==> mv as int
                == f.1 && *final(rng) == *old(rng))
            &&& (cfg.search_depth == -1 ==> f.1 != 99)
        }),
{
    let cfg = match acting_seat {
        Seat::X => state.x_cfg,
        Seat::O => state.o_cfg,
    };
    proof {
        lemma_empties_upto_bounds(state.board@, 9);
        if cfg.search_depth == -1 {
            lemma_some_empty_below(state.board@, 9);
            lemma_fold_unlimited(state.board@, state.turn, state.turn, 0, 9);
            lemma_fold_props(state.board@, state.turn, state.turn, -1, 0, 9);
        }
    }
    if blunder_roll(cfg.blunder_rate, rng) {
        return random_move(state, rng);
    }
    let result = search(state, cfg.search_depth as i32, 0, acting_seat, cfg.tie_randomness, rng);
    match result.1 {
        Some(spot) => {
            if spot == 99 {
                random_move(state, rng)
            } else {
                proof {
                    assert(!(state.turn.spec_cell() is Empty));
                    lemma_empties_upto_update(state.board@, spot as int, state.turn.spec_cell(), 9);
                    assert((spot / 3) as int * 3 + (spot % 3) as int == spot as int);
                }
                let ok = state.apply_move(spot % 3, spot / 3);
                proof {
                    assert(ok);
                }
                spot
            }
        },
        None => unreached(),
    }
}

/// Terminal scoring convention, as a law: a position is scored after the
/// winning mark was placed and the turn has advanced, so the mover who
/// completed the line is the other seat from `turn`; the score is `1` when
/// the seat evaluated for is the seat now to move (the loser's seat carries
/// the positive sign under this engine's negated-maximum convention) and
/// `-1` otherwise, at any depth, limited or not.
pub proof fn lemma_terminal_scoring(
    b: Seq<Cell>,
    turn: Seat,
    eval: Seat,
    max_depth: int,
    depth: int,
)
    requires
        spec_has_winner(b),
    ensures
        spec_score(b, turn, eval, max_depth, depth) == if eval == turn {
            1int
        } else {
            -1int
        },
{
}

/// The fragment of depth-limit monotonicity that holds of this engine: a
/// limit that leaves at least as many plies as there are empty cells is
/// never hit, so its score is exactly the unlimited one, and growing the
/// limit further cannot change, in particular cannot lower, any move's
/// value. (Below that point the negated cutoff floor can make a truncated
/// branch look best, and a larger limit can lower the chosen move's true
/// value.)
pub proof fn lemma_sufficient_depth_exact(
    b: Seq<Cell>,
    turn: Seat,
    eval: Seat,
    max_depth: int,
    depth: int,
)
    requires
        depth >= 0,
        max_depth - depth >= count_empty(b),
    ensures
        spec_score(b, turn, eval, max_depth, depth) == spec_score(b, turn, eval, -1, depth),
    decreases count_empty(b), 11int,
{
    if !spec_has_winner(b) && count_empty(b) != 0 {
        lemma_empties_upto_bounds(b, b.len() as int);
        lemma_sufficient_depth_fold(b, turn, eval, max_depth, depth, 9);
    }
}

/// The running pair of the search loop under a limit that covers the rest
/// of the game equals the unlimited one.
pub proof fn lemma_sufficient_depth_fold(
    b: Seq<Cell>,
    turn: Seat,
    eval: Seat,
    max_depth: int,
    depth: int,
    k: int,
)
    requires
        depth >= 0,
        max_depth - depth >= count_empty(b),
        count_empty(b) > 0,
        0 <= k <= 9,
    ensures
        spec_fold(b, turn, eval, max_depth, depth, k) == spec_fold(b, turn, eval, -1, depth, k),
    decreases count_empty(b), k,
{
    if k > 0 {
        lemma_sufficient_depth_fold(b, turn, eval, max_depth, depth, k - 1);
        if 0 <= k - 1 < b.len() && b[k - 1] is Empty {
            assert(!(turn.spec_cell() is Empty));
            lemma_empties_upto_update(b, k - 1, turn.spec_cell(), b.len() as int);
            lemma_empties_upto_bounds(b.update(k - 1, turn.spec_cell()), b.len() as int);
            lemma_sufficient_depth_exact(
                b.update(k - 1, turn.spec_cell()),
                turn.spec_other(),
                eval.spec_other(),
                max_depth,
                depth + 1,
            );
        }
    }
}

/// Search optimality: the running best is at least the score of every legal
/// move already considered, so the move the loop settles on attains the
/// maximum over all legal moves; with an unlimited depth those scores are
/// the true game values, never the cutoff floor.
pub proof fn lemma_fold_is_max(
    b: Seq<Cell>,
    turn: Seat,
    eval: Seat,
    max_depth: int,
    depth: int,
    k: int,
    i: int,
)
    requires
        0 <= i < k <= 9,
        i < b.len(),
        b[i] is Empty,
    ensures
        spec_fold(b, turn, eval, max_depth, depth, k).0 >= spec_score(
            b.update(i, turn.spec_cell()),
            turn.spec_other(),
            eval.spec_other(),
            max_depth,
            depth + 1,
        ),
    decreases k,
{
    if i < k - 1 {
        lemma_fold_is_max(b, turn, eval, max_depth, depth, k - 1, i);
    }
}

} // verus!
