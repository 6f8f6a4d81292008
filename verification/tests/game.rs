use rubik_cage::game::GameState;
use rubik_cage::moves::{Layer, Move, Rotation};

#[test]
fn test_legal_moves_initial_state() {
    let game = GameState::new(4, 4);
    let legal_moves = game.legal_moves();
    assert!(legal_moves.len() == 15);
}

#[test]
fn test_full_column_drop_illegal() {
    let mut game = GameState::new(4, 4);
    for _ in 0..3 {
        game.cage.drop(game.player_to_move.color, (0, 0)).unwrap();
    }

    let legal_moves = game.legal_moves();
    assert!(legal_moves.len() == 14);
    assert!(!legal_moves.contains(&Move::Drop {
        color: game.player_to_move.color,
        column: (0, 0)
    }));
}

#[test]
fn test_out_of_turn_drop_illegal() {
    let mut game = GameState::new(4, 4);
    game.apply_move(Move::Drop {
        color: game.players[0].color,
        column: (1, 2),
    })
    .unwrap();

    // Now it's player 1's turn, so player 0 cannot drop a cubie
    assert!(!game.legal_moves().contains(&Move::Drop {
        color: game.players[0].color,
        column: (1, 2)
    }));
    // Player 1 can
    assert!(game.legal_moves().contains(&Move::Drop {
        color: game.players[1].color,
        column: (1, 2)
    }));
}

#[test]
fn test_inverting_moves_illegal() {
    let mut game = GameState::new(4, 4);
    game.apply_move(Move::Flip).unwrap();
    assert!(!game.legal_moves().contains(&Move::Flip));

    game.apply_move(Move::RotateLayer {
        layer: Layer::Down,
        rotation: Rotation::Clockwise,
    })
    .unwrap();
    assert!(!game.legal_moves().contains(&Move::RotateLayer {
        layer: Layer::Down,
        rotation: Rotation::CounterClockwise,
    }));
}

#[test]
fn test_no_drops_after_cubies_spent() {
    let mut game = GameState::new(1, 1);
    game.apply_move(Move::Drop {
        color: game.player_to_move.color,
        column: (0, 0),
    })
    .unwrap();
    game.apply_move(Move::Flip).unwrap();

    // First player's turn again, but has no more cubies
    assert!(
        !game
            .legal_moves()
            .iter()
            .any(|m| matches!(m, Move::Drop { .. }))
    );
}

#[test]
fn test_zobrist_single_drop() {
    let mut game = GameState::new(2, 2);
    game.apply_move(Move::Drop {
        color: game.player_to_move.color,
        column: (0, 0),
    })
    .unwrap();
    let zobrist1 = game.zobrist_hash;

    game.rebuild_zobrist_hash();
    let zobrist2 = game.zobrist_hash;

    assert_eq!(zobrist1, zobrist2);
}

#[test]
fn test_zobrist_drop_and_rotate() {
    let mut game1 = GameState::new(2, 2);
    game1
        .apply_move(Move::Drop {
            color: game1.player_to_move.color,
            column: (0, 0),
        })
        .unwrap();

    let mut game2 = GameState::new(2, 2);
    game2
        .apply_move(Move::Drop {
            color: game2.player_to_move.color,
            column: (2, 0),
        })
        .unwrap();
    game2
        .apply_move(Move::RotateLayer {
            layer: Layer::Down,
            rotation: Rotation::CounterClockwise,
        })
        .unwrap();

    // Same cage, different player to move
    assert_ne!(game1.zobrist_hash, game2.zobrist_hash);

    // Pass the turn to player 1
    game1
        .apply_move(Move::RotateLayer {
            layer: Layer::Up,
            rotation: Rotation::Clockwise,
        })
        .unwrap();
    assert_eq!(game1.zobrist_hash, game2.zobrist_hash);
}

#[test]
fn test_zobrist_after_move_sequence() {
    // after any sequence of moves, the incrementally maintained fingerprint
    // matches a recomputation from scratch
    let mut game = GameState::new(3, 3);
    let moves = [
        Move::Drop { color: game.players[0].color, column: (0, 0) },
        Move::Drop { color: game.players[1].color, column: (2, 2) },
        Move::Flip,
        Move::RotateLayer { layer: Layer::Down, rotation: Rotation::Clockwise },
        Move::Drop { color: game.players[0].color, column: (1, 0) },
    ];
    for m in moves {
        game.apply_move(m).unwrap();
        let incremental = game.zobrist_hash;
        game.rebuild_zobrist_hash();
        assert_eq!(incremental, game.zobrist_hash);
    }
}

#[test]
fn test_fingerprint_not_constant() {
    let mut game = GameState::new(2, 2);
    let empty_hash = game.zobrist_hash;
    game.apply_move(Move::Drop {
        color: game.player_to_move.color,
        column: (0, 0),
    })
    .unwrap();
    assert_ne!(game.zobrist_hash, empty_hash);
}

#[test]
fn test_won_detects_each_player() {
    let mut game = GameState::new(5, 5);
    // blue (player 0) builds a vertical line in column (0, 0)
    game.cage.drop(game.players[0].color, (0, 0)).unwrap();
    game.cage.drop(game.players[0].color, (0, 0)).unwrap();
    assert!(game.won().is_none());
    game.cage.drop(game.players[0].color, (0, 0)).unwrap();
    let (winner, _line) = game.won().unwrap();
    assert_eq!(winner.id, 0);

    let mut game2 = GameState::new(5, 5);
    game2.cage.drop(game2.players[1].color, (0, 0)).unwrap();
    game2.cage.drop(game2.players[1].color, (1, 0)).unwrap();
    game2.cage.drop(game2.players[1].color, (2, 0)).unwrap();
    let (winner2, _line2) = game2.won().unwrap();
    assert_eq!(winner2.id, 1);
}
