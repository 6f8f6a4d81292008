use rubik_cage::game::GameState;
use rubik_cage::search::{evaluate, Evaluation, SearchMode};

#[test]
fn test_1_1_game_draw() {
    let game = GameState::new(1, 1);
    let evaluated = evaluate(&game, SearchMode::Full);
    assert_eq!(
        evaluated.get(game.zobrist_hash).unwrap(),
        Evaluation {
            score: 0,
            moves_to_wl: 0
        }
    );
}

#[test]
fn test_3_0_game_won_by_p1() {
    let game = GameState::new(3, 0);
    let evaluated = evaluate(&game, SearchMode::Full);
    assert_eq!(
        evaluated.get(game.zobrist_hash).unwrap(),
        Evaluation {
            score: 1,
            moves_to_wl: 5
        }
    );
}

#[test]
fn test_1_4_game_won_by_p2() {
    let game = GameState::new(1, 4);
    let evaluated = evaluate(&game, SearchMode::Pruned);
    assert_eq!(evaluated.get(game.zobrist_hash).unwrap().score, -1);
}

#[test]
fn test_every_entry_is_sane() {
    let game = GameState::new(2, 2);
    let evaluated = evaluate(&game, SearchMode::Full);
    assert!(evaluated.len() > 0);
    for (_k, v) in evaluated.entries().iter() {
        assert!(v.score == -1 || v.score == 0 || v.score == 1);
        if v.score == 0 {
            assert_eq!(v.moves_to_wl, 0);
        } else {
            assert!(v.moves_to_wl >= 1);
        }
    }
}

#[test]
fn test_pruned_and_optimal_agree_on_outcome() {
    // solving the same empty starting boards under Pruned and OptimalWL
    // must agree on outcome for every canonical position both report
    for (p1, p2) in [(2u8, 2u8), (3u8, 1u8)] {
        let game = GameState::new(p1, p2);
        let pruned = evaluate(&game, SearchMode::Pruned);
        let optimal = evaluate(&game, SearchMode::OptimalWL);
        let mut common = 0usize;
        for (k, v) in pruned.entries().iter() {
            if let Some(o) = optimal.get(*k) {
                common += 1;
                assert_eq!(v.score, o.score);
            }
        }
        assert!(common > 0);
        // both report the starting position with the same outcome
        let root_p = pruned.get(game.zobrist_hash).unwrap();
        let root_o = optimal.get(game.zobrist_hash).unwrap();
        assert_eq!(root_p.score, root_o.score);
    }
}

#[test]
fn test_solve_is_deterministic() {
    let game = GameState::new(2, 2);
    let first = evaluate(&game, SearchMode::Full);
    let second = evaluate(&game, SearchMode::Full);
    assert_eq!(first.entries(), second.entries());
}
