use tictactoe::game::Cell;
use tictactoe::game::GameState;
use tictactoe::game::Seat;
use tictactoe::game::SeatConfig;
use tictactoe::rng::RandomSource;
use tictactoe::search::blunder_roll;
use tictactoe::search::choose_move;
use tictactoe::search::random_move;
use tictactoe::search::search;

fn ai(search_depth: i8, tie_randomness: u8, blunder_rate: u8) -> SeatConfig {
    SeatConfig { is_ai: true, search_depth, tie_randomness, blunder_rate }
}

fn board_from(pattern: &str) -> Vec<Cell> {
    assert_eq!(pattern.len(), 9);
    pattern
        .chars()
        .map(|c| match c {
            'x' => Cell::X,
            'o' => Cell::O,
            _ => Cell::Empty,
        })
        .collect()
}

fn state_with(pattern: &str, turn: Seat, cfg: SeatConfig) -> GameState {
    GameState { board: board_from(pattern), turn, x_cfg: cfg, o_cfg: cfg }
}

fn fixed(values: Vec<u64>) -> RandomSource {
    RandomSource::from_values(values)
}

#[test]
fn terminal_scoring_convention() {
    // X just completed the top row, so it is O's turn: the mover who won is
    // the other seat from `turn`, and the score carries the engine's sign
    // convention: +1 when the seat evaluated for is the seat now to move.
    let g = state_with("xxxoo    ", Seat::O, ai(-1, 0, 0));
    let mut rng = fixed(vec![]);
    let (score, mv) = search(&g, -1, 0, Seat::O, 0, &mut rng);
    assert_eq!(score, 1);
    assert_eq!(mv, None);
    let (score, mv) = search(&g, -1, 0, Seat::X, 0, &mut rng);
    assert_eq!(score, -1);
    assert_eq!(mv, None);
    // the win check precedes the depth cutoff
    let (score, _) = search(&g, 1, 0, Seat::O, 0, &mut rng);
    assert_eq!(score, 1);
}

#[test]
fn full_board_scores_zero() {
    let g = state_with("xoxxoooxx", Seat::X, ai(-1, 0, 0));
    let mut rng = fixed(vec![]);
    let (score, mv) = search(&g, -1, 0, Seat::X, 0, &mut rng);
    assert_eq!(score, 0);
    assert_eq!(mv, None);
}

#[test]
fn empty_board_full_search_is_never_a_loss() {
    // tic-tac-toe is a forced draw: with unlimited depth the search from the
    // empty board scores 0 for either seat and picks the first-found best
    let g = state_with("         ", Seat::X, ai(-1, 0, 0));
    let mut rng = fixed(vec![]);
    let (score, mv) = search(&g, -1, 0, Seat::X, 0, &mut rng);
    assert_eq!(score, 0);
    assert_eq!(mv, Some(0));
    // nor for the other seat, once it is O's turn to be evaluated
    let after_first = g.move_and_new_state(0);
    let (score, _) = search(&after_first, -1, 0, Seat::O, 0, &mut rng);
    assert_eq!(score, 0);
}

#[test]
fn finds_the_immediate_win() {
    // X completes the top row at cell 2
    let g = state_with("xx oo    ", Seat::X, ai(-1, 0, 0));
    let mut rng = fixed(vec![]);
    let (score, mv) = search(&g, -1, 0, Seat::X, 0, &mut rng);
    assert_eq!(mv, Some(2));
    // the returned score is negated once more at the root: a forced win for
    // the mover comes back as -1 under the engine's convention
    assert_eq!(score, -1);
}

#[test]
fn blocks_the_immediate_loss() {
    // X threatens cell 2; O's only non-losing move is to block it
    let g = state_with("xx  o    ", Seat::O, ai(-1, 0, 0));
    let mut rng = fixed(vec![]);
    let (score, mv) = search(&g, -1, 0, Seat::O, 0, &mut rng);
    assert_eq!(mv, Some(2));
    assert_eq!(score, 0);
}

#[test]
fn depth_limit_bias_can_change_the_chosen_move() {
    // the cutoff floor -10 is negated on the way up, so at an odd distance a
    // truncated branch looks best to the parent: at a two-ply limit the
    // engine passes over the immediate win at cell 2 for cell 5, whose true
    // value is lower. A deeper or unlimited search picks the win again.
    let g = state_with("xx oo    ", Seat::X, ai(-1, 0, 0));
    let expected = [(1, Some(2)), (2, Some(5)), (3, Some(2)), (-1, Some(2))];
    for (depth, want) in expected {
        let mut rng = fixed(vec![]);
        let (_, mv) = search(&g, depth, 0, Seat::X, 0, &mut rng);
        assert_eq!(mv, want, "depth {}", depth);
    }
}

#[test]
fn depth_cutoff_returns_floor_and_sentinel() {
    // from the empty board with a one-ply limit every child hits the cutoff:
    // the best move is never updated and the sentinel comes back
    let g = state_with("         ", Seat::X, ai(1, 0, 0));
    let mut rng = fixed(vec![]);
    let (score, mv) = search(&g, 1, 0, Seat::X, 0, &mut rng);
    assert_eq!(score, 10);
    assert_eq!(mv, Some(99));
}

#[test]
fn choose_move_falls_back_to_random_on_full_cutoff() {
    // with the sentinel back, choose_move plays a random legal move: the
    // fixed draw 3 picks the cell of rank 3 among the empties
    let mut g = state_with("         ", Seat::X, ai(1, 0, 0));
    let mut rng = fixed(vec![3]);
    let mv = choose_move(&mut g, Seat::X, &mut rng);
    assert_eq!(mv, 3);
    assert_eq!(g.board[3], Cell::X);
    assert_eq!(g.turn, Seat::O);
}

#[test]
fn tie_randomness_zero_picks_first_found() {
    let mut g = state_with("         ", Seat::X, ai(-1, 0, 0));
    let mut rng = fixed(vec![7, 7, 7]);
    let mv = choose_move(&mut g, Seat::X, &mut rng);
    assert_eq!(mv, 0);
    // no draw was made: the cursor never moved
    assert_eq!(rng.next, 0);
}

#[test]
fn tie_randomness_all_hits_picks_last_equal() {
    // a fixed source that always draws 1 makes every exact tie replace the
    // incumbent, so the last of the nine equal opening moves wins
    let g = state_with("         ", Seat::X, ai(-1, 1, 0));
    let mut rng = fixed(vec![1]);
    let (score, mv) = search(&g, -1, 0, Seat::X, 1, &mut rng);
    assert_eq!(score, 0);
    assert_eq!(mv, Some(8));
}

#[test]
fn self_play_unlimited_depth_is_a_draw() {
    // end to end: both seats perfect, no randomness; the game ends drawn
    let mut g = GameState::new_game(ai(-1, 0, 0), ai(-1, 0, 0));
    let mut rng = fixed(vec![]);
    let mut plies = 0;
    loop {
        let turn = g.turn;
        choose_move(&mut g, turn, &mut rng);
        plies += 1;
        if g.has_winner() {
            panic!("perfect self-play produced a winner");
        }
        if g.is_draw() {
            break;
        }
        assert!(plies <= 9);
    }
    assert_eq!(plies, 9);
}

#[test]
fn blunder_rate_zero_never_fires() {
    let mut rng = fixed(vec![1, 1, 1, 1]);
    for _ in 0..20 {
        assert!(!blunder_roll(0, &mut rng));
    }
    // no draw was ever made
    assert_eq!(rng.next, 0);
}

#[test]
fn blunder_rate_one_fires_half_the_time() {
    let mut rng = fixed(vec![0, 1]);
    let fired = (0..100).filter(|_| blunder_roll(1, &mut rng)).count();
    assert_eq!(fired, 50);
}

#[test]
fn blunder_rate_two_fires_a_third_of_the_time() {
    let mut rng = fixed(vec![0, 1, 2]);
    let fired = (0..99).filter(|_| blunder_roll(2, &mut rng)).count();
    assert_eq!(fired, 33);
}

#[test]
fn choose_move_blunders_on_a_hit() {
    // first draw 1 out of [0,1] fires the blunder; second draw 4 picks the
    // cell of rank 4 among the empties
    let mut g = state_with("         ", Seat::X, ai(-1, 0, 1));
    let mut rng = fixed(vec![1, 4]);
    let mv = choose_move(&mut g, Seat::X, &mut rng);
    assert_eq!(mv, 4);
    assert_eq!(g.board[4], Cell::X);
}

#[test]
fn choose_move_searches_on_a_miss() {
    let mut g = state_with("         ", Seat::X, ai(-1, 0, 1));
    let mut rng = fixed(vec![0]);
    let mv = choose_move(&mut g, Seat::X, &mut rng);
    assert_eq!(mv, 0);
}

#[test]
fn random_move_follows_the_fixed_draw() {
    // empties are 1, 3, 5, 7, 8; the draw 6 % 5 = 1 picks rank 1, cell 3
    let mut g = state_with("x o x o  ", Seat::X, ai(-1, 0, 0));
    let mut rng = fixed(vec![6]);
    let mv = random_move(&mut g, &mut rng);
    assert_eq!(mv, 3);
    assert_eq!(g.board[3], Cell::X);
}

#[test]
fn a_limit_covering_the_whole_game_is_exact() {
    // nine plies cover any game from the empty board: the score and the
    // chosen move equal the unlimited search's
    let g = state_with("         ", Seat::X, ai(9, 0, 0));
    let mut rng = fixed(vec![]);
    let limited = search(&g, 9, 0, Seat::X, 0, &mut rng);
    let unlimited = search(&g, -1, 0, Seat::X, 0, &mut rng);
    assert_eq!(limited, unlimited);
    assert_eq!(limited, (0, Some(0)));
}

#[test]
fn thread_source_draws_stay_in_range() {
    let mut rng = RandomSource::from_thread();
    assert_eq!(rng.draw_below(1), 0);
    for _ in 0..200 {
        assert!(rng.draw_below(3) < 3);
    }
}

#[test]
fn fixed_source_cycles_and_reduces() {
    let mut rng = fixed(vec![5, 11]);
    assert_eq!(rng.draw_below(9), 5);
    assert_eq!(rng.draw_below(9), 2); // 11 % 9
    assert_eq!(rng.draw_below(9), 5); // wrapped around
    // an empty cycle always draws zero
    let mut empty = fixed(vec![]);
    assert_eq!(empty.draw_below(7), 0);
}
