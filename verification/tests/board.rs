use rubik_cage::cage::{Cage, LegalityError};
use rubik_cage::cubie::Cubie;
use rubik_cage::line::slot_to_lines;
use rubik_cage::moves::{Layer, Rotation};

#[test]
fn test_line_detection() {
    assert!(Cage::parse("R........,R........,R........").unwrap().has_line().is_some());
    assert!(Cage::parse(".........,....Y....,......BBB").unwrap().has_line().is_some());
    assert!(Cage::parse(".O......O,W.GWG.W..,R..Y....Y").unwrap().has_line().is_some());
    assert!(Cage::parse("R........,...R.....,......R..").unwrap().has_line().is_some());
    assert!(Cage::parse("..O......,.....O...,........O").unwrap().has_line().is_some());
    assert!(Cage::parse("R........,O........,R........").unwrap().has_line().is_none());

    let cage_full = Cage::parse("WYRBOGGOB,OGBYRYWBG,ROWBYGOWB").unwrap();
    assert!(cage_full.has_line().is_none());
}

#[test]
fn test_flip_horizontal() {
    let mut cage = Cage::parse("R........,G........,B........").unwrap();
    cage.flip_horizontal();

    let flipped = Cage::parse("..R......,..G......,..B......").unwrap();
    assert_eq!(cage, flipped);
}

#[test]
fn test_rotate_cage() {
    let mut cage = Cage::parse("R........,G........,BY.......").unwrap();
    cage.rotate_cage();

    let rotated = Cage::parse("......R..,......G..,...Y..B..").unwrap();
    assert_eq!(cage, rotated);
}

#[test]
fn test_normalize() {
    // we expect lexicographically largest symmetry
    let mut cage = Cage::parse("........R,........G,.......YB").unwrap();
    cage.normalize();
    let normalized = Cage::parse("R........,G........,B..Y.....").unwrap();
    assert_eq!(cage, normalized);
}

#[test]
fn test_normalize_idempotent() {
    let mut cage = Cage::parse("........R,..W.....G,O......YB").unwrap();
    cage.normalize();
    let once = cage.clone();
    cage.normalize();
    assert_eq!(cage, once);
}

#[test]
fn test_normalize_symmetry_invariant() {
    // all 8 symmetry images of a board share one canonical form
    let base = Cage::parse("R........,G.W......,BY.....O.").unwrap();
    let mut reference = base.clone();
    reference.normalize();

    let mut rotated = base.clone();
    for turns in 0..4 {
        for _ in 0..turns {
            rotated.rotate_cage();
        }
        let mut n = rotated.clone();
        n.normalize();
        assert_eq!(n, reference);
        let mut mirrored = rotated.clone();
        mirrored.flip_horizontal();
        let mut nm = mirrored.clone();
        nm.normalize();
        assert_eq!(nm, reference);
        rotated = base.clone();
    }
}

#[test]
fn test_drop_cubie_basic() {
    let mut cage = Cage::new();
    assert!(cage.drop(Cubie::Red, (0, 1)).is_ok());
}

#[test]
fn test_drop_cubie_full_column() {
    let mut cage = Cage::new();
    let col = (1, 2);
    assert!(cage.drop(Cubie::Red, col).is_ok());
    assert!(cage.drop(Cubie::Green, col).is_ok());
    assert!(cage.drop(Cubie::Blue, col).is_ok());
    assert!(cage.drop(Cubie::Yellow, col).is_err());
}

#[test]
fn test_drop_error_variants() {
    let mut cage = Cage::new();
    assert_eq!(cage.drop(Cubie::Red, (1, 1)), Err(LegalityError::DropOnCenterColumn));
    assert_eq!(cage.drop(Cubie::Red, (5, 0)), Err(LegalityError::InvalidColumnIndex));
    cage.drop(Cubie::Red, (0, 0)).unwrap();
    cage.drop(Cubie::Red, (0, 0)).unwrap();
    cage.drop(Cubie::Red, (0, 0)).unwrap();
    assert_eq!(cage.drop(Cubie::Red, (0, 0)), Err(LegalityError::DropOnFullColumn));
}

#[test]
fn test_rotate_layer() {
    let mut cage = Cage::parse("O........,W........,Y........").unwrap();
    cage.rotate_layer(Layer::Down, Rotation::Clockwise);

    let expected = Cage::parse(".........,O........,W.Y......").unwrap();
    assert_eq!(cage, expected);
}

#[test]
fn test_flip() {
    let mut cage = Cage::parse("R........,GB.......,YWO......").unwrap();
    cage.flip();

    let expected = Cage::parse("......Y..,......GW.,......RBO").unwrap();
    assert_eq!(cage, expected);
}

#[test]
fn test_rotate_layer_four_times_restores() {
    // only the bottom layer is occupied, so nothing can fall between turns
    let original = Cage::parse(".........,.........,RG.B...O.").unwrap();
    for rotation in [Rotation::Clockwise, Rotation::CounterClockwise, Rotation::HalfTurn] {
        let mut cage = original.clone();
        for _ in 0..4 {
            cage.rotate_layer(Layer::Down, rotation);
        }
        assert_eq!(cage, original);
    }
}

#[test]
fn test_flip_twice_restores() {
    let mut cage = Cage::new();
    cage.drop(Cubie::Red, (0, 0)).unwrap();
    cage.drop(Cubie::Green, (0, 0)).unwrap();
    cage.drop(Cubie::Blue, (2, 1)).unwrap();
    let original = cage.clone();
    cage.flip();
    cage.flip();
    assert_eq!(cage, original);
}

#[test]
fn test_slot_to_lines() {
    let lines_from_0 = slot_to_lines([0, 0, 0]);
    assert_eq!(
        lines_from_0,
        vec![
            [[0, 0, 0], [1, 0, 0], [2, 0, 0]],
            [[0, 0, 0], [0, 1, 0], [0, 2, 0]],
            [[0, 0, 0], [0, 0, 1], [0, 0, 2]],
            [[0, 0, 0], [0, 1, 1], [0, 2, 2]],
            [[0, 0, 0], [1, 0, 1], [2, 0, 2]]
        ]
    )
}

#[test]
fn test_from_char() {
    assert_eq!(Cubie::from_char('R'), Ok(Cubie::Red));
    assert_eq!(Cubie::from_char('W'), Ok(Cubie::White));
    assert!(Cubie::from_char('X').is_err());
}

#[test]
fn test_parse_rejects_bad_input() {
    assert!(Cage::parse("").is_err());
    assert!(Cage::parse("R........,R........").is_err());
    assert!(Cage::parse("X........,.........,.........").is_err());
    // an unknown character in the unusable center position is ignored
    assert!(Cage::parse("....Q....,.........,.........").is_ok());
}

#[test]
fn line_test_slot_to_lines() {
    let lines_from_0 = slot_to_lines([0, 0, 0]);
    assert_eq!(
        lines_from_0,
        vec![
            [[0, 0, 0], [1, 0, 0], [2, 0, 0]],
            [[0, 0, 0], [0, 1, 0], [0, 2, 0]],
            [[0, 0, 0], [0, 0, 1], [0, 0, 2]],
            [[0, 0, 0], [0, 1, 1], [0, 2, 2]],
            [[0, 0, 0], [1, 0, 1], [2, 0, 2]]
        ]
    )
}
