use blobwar::claim::ClaimGame;
use blobwar::game::Game;
use blobwar::positions::{Position, Positions};
use blobwar::slot::{decode_slot, encode_slot};
use blobwar::strategy::alphabeta::{alpha_beta_anytime, alpha_beta_rec, AlphaBeta};
use blobwar::strategy::alphabetapar::{alpha_beta_par_anytime, alpha_beta_par_rec, AlphaBetaPar};
use blobwar::strategy::greedy::Greedy;
use blobwar::strategy::minmax::{min_max_anytime, min_max_rec, MinMax};
use blobwar::strategy::Strategy;

/// Two free cells (0 and 1), blue holding 32 cells and red 30, blue to move.
fn two_free_cells() -> ClaimGame {
    ClaimGame {
        blue: Positions(0xffff_ffff_0000_0000),
        red: Positions(0x0000_0000_ffff_fffc),
        side: false,
    }
}

/// Every cell claimed: a terminal state without a legal move.
fn full_board() -> ClaimGame {
    ClaimGame {
        blue: Positions(0xffff_ffff_ffff_0000),
        red: Positions(0x0000_0000_0000_ffff),
        side: false,
    }
}

#[test]
fn minmax_reports_exact_values() {
    let g = two_free_cells();
    assert_eq!(min_max_rec(false, &g, 0), Some((-2, None)));
    assert_eq!(min_max_rec(false, &g, 1), Some((-3, Some(0))));
    assert_eq!(min_max_rec(false, &g, 2), Some((-2, Some(0))));
    assert_eq!(min_max_rec(false, &g, 3), Some((-2, Some(0))));
}

#[test]
fn minmax_strategy_picks_first_optimal_move() {
    let g = two_free_cells();
    assert_eq!(MinMax(1).compute_next_move(&g), Some(0));
    assert_eq!(MinMax(2).compute_next_move(&g), Some(0));
    assert_eq!(MinMax(0).compute_next_move(&g), None);
    assert_eq!(MinMax(5).compute_next_move(&full_board()), None);
}

#[test]
fn alpha_beta_agrees_with_minmax() {
    let g = two_free_cells();
    for depth in 0..6u8 {
        let mm = min_max_rec(false, &g, depth).unwrap().0;
        let ab = alpha_beta_rec(false, &g, depth, i8::MIN, i8::MAX).unwrap().0;
        assert_eq!(ab, mm);
    }
    let h = ClaimGame {
        blue: Positions(0xffff_ffff_ff00_0000),
        red: Positions(0x0000_0000_00ff_f000),
        side: true,
    };
    for depth in 0..5u8 {
        let mm = min_max_rec(true, &h, depth).unwrap().0;
        let ab = alpha_beta_rec(true, &h, depth, i8::MIN, i8::MAX).unwrap().0;
        assert_eq!(ab, mm);
    }
}

#[test]
fn parallel_alpha_beta_agrees_with_sequential() {
    let g = two_free_cells();
    for depth in 0..6u8 {
        let seq = alpha_beta_rec(false, &g, depth, i8::MIN, i8::MAX).unwrap().0;
        let par = alpha_beta_par_rec(false, &g, depth, i8::MIN, i8::MAX).unwrap().0;
        assert_eq!(par, seq);
    }
    let h = ClaimGame {
        blue: Positions(0x0f0f_0f0f_0f0f_0f0f),
        red: Positions(0xf0f0_f0f0_f0f0_f000),
        side: true,
    };
    for depth in 0..4u8 {
        let seq = alpha_beta_rec(true, &h, depth, i8::MIN, i8::MAX).unwrap().0;
        let par = alpha_beta_par_rec(true, &h, depth, i8::MIN, i8::MAX).unwrap().0;
        assert_eq!(par, seq);
    }
}

#[test]
fn alpha_beta_strategies_pick_a_best_move() {
    let g = two_free_cells();
    assert_eq!(AlphaBeta(2).compute_next_move(&g), Some(0));
    assert_eq!(AlphaBetaPar(2).compute_next_move(&g), Some(0));
    assert_eq!(AlphaBeta(0).compute_next_move(&g), None);
    assert_eq!(AlphaBeta(3).compute_next_move(&full_board()), None);
    assert_eq!(AlphaBetaPar(3).compute_next_move(&full_board()), None);
}

#[test]
fn greedy_takes_single_legal_move() {
    let g = ClaimGame {
        blue: Positions(0xffff_ffff_0000_0000),
        red: Positions(0x0000_0000_ffff_fffe),
        side: false,
    };
    assert_eq!(Greedy().compute_next_move(&g), Some(0));
    let h = ClaimGame {
        blue: Positions(!(1u64 << 42) & 0x00ff_ffff_ffff_ffff),
        red: Positions(0xff00_0000_0000_0000),
        side: true,
    };
    assert_eq!(Greedy().compute_next_move(&h), Some(42));
}

#[test]
fn greedy_passes_without_a_move() {
    assert_eq!(Greedy().compute_next_move(&full_board()), None);
}

#[test]
fn anytime_on_terminal_state_publishes_every_pass() {
    let g = full_board();
    let log = min_max_anytime(&g);
    assert_eq!(log.len(), 99);
    assert!(log.iter().all(|entry| entry.is_none()));
    let log = alpha_beta_anytime(&g);
    assert_eq!(log.len(), 98);
    assert!(log.iter().all(|entry| entry.is_none()));
    let log = alpha_beta_par_anytime(&g);
    assert_eq!(log.len(), 98);
    assert!(log.iter().all(|entry| entry.is_none()));
}

/// Drives a full game between two greedy strategies and returns the claimed
/// cells in order.
fn play_out(mut game: ClaimGame) -> Vec<Position> {
    let mut first = Greedy();
    let mut second = Greedy();
    let mut trace: Vec<Position> = Vec::new();
    let mut plies = 0u32;
    while !game.game_over() {
        let attempt = if game.current_player() {
            second.compute_next_move(&game)
        } else {
            first.compute_next_move(&game)
        };
        let mov = attempt.expect("a non-terminal claiming position offers a move");
        assert!(game.check_move(&mov));
        game.apply_movement(&mov);
        trace.push(mov);
        plies += 1;
        assert!(plies <= 64, "a claiming game ends within 64 plies");
    }
    trace
}

#[test]
fn full_greedy_game_terminates() {
    let start = ClaimGame {
        blue: Positions(1),
        red: Positions(1 << 9),
        side: false,
    };
    let trace = play_out(start);
    assert_eq!(trace.len(), 62);
}

#[test]
fn mirrored_game_replays_the_same_cells() {
    let start = ClaimGame {
        blue: Positions(1),
        red: Positions(1 << 9),
        side: false,
    };
    let mirrored = ClaimGame {
        blue: Positions(1 << 9),
        red: Positions(1),
        side: true,
    };
    assert_eq!(play_out(start), play_out(mirrored));
    let empty = ClaimGame::empty_board();
    let empty_mirrored = ClaimGame {
        blue: Positions(0),
        red: Positions(0),
        side: true,
    };
    assert_eq!(play_out(empty), play_out(empty_mirrored));
}

#[test]
fn slot_encoding_round_trips() {
    let answers = [None, Some(0u32), Some(42), Some(63), Some(u32::MAX)];
    for answer in answers {
        assert_eq!(decode_slot(encode_slot(answer)), answer);
    }
    assert_eq!(encode_slot(None), 0);
    assert_eq!(encode_slot(Some(5)), (1u64 << 32) | 5);
    assert_eq!(decode_slot(7), None);
}

#[test]
fn claim_game_heuristic_is_mover_deficit() {
    let g = two_free_cells();
    assert_eq!(g.value(), -2);
    let flipped = ClaimGame { side: true, ..g };
    assert_eq!(flipped.value(), 2);
    assert!(!g.game_over());
    assert!(full_board().game_over());
}
