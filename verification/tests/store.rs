use rubik_cage::game::GameState;
use rubik_cage::search::{codec_round_trip, decode, encode, evaluate, filter, SearchMode};

#[test]
fn test_encode_decode_round_trip() {
    let game = GameState::new(1, 4);
    let evaluated = evaluate(&game, SearchMode::Pruned);
    assert!(evaluated.len() > 0);
    let bytes = encode(&evaluated);
    assert!(!bytes.is_empty());
    let decoded = decode(bytes.as_slice()).unwrap();
    assert_eq!(decoded.entries(), evaluated.entries());
}

#[test]
fn test_round_trip_law_runs() {
    let game = GameState::new(1, 1);
    let evaluated = evaluate(&game, SearchMode::Full);
    let back = codec_round_trip(&evaluated);
    assert_eq!(back.entries(), evaluated.entries());
}

#[test]
fn test_decode_rejects_corrupt_bytes() {
    assert!(decode(&[]).is_err());
    assert!(decode(&[255, 255, 255]).is_err());
    // a 9-byte buffer announcing the largest possible element count must
    // come back as an error, not as an attempted allocation
    assert!(decode(&[253, 255, 255, 255, 255, 255, 255, 255, 255]).is_err());
}

#[test]
fn test_filter_keeps_only_far_entries() {
    let game = GameState::new(1, 4);
    let evaluated = evaluate(&game, SearchMode::Pruned);
    let threshold = 3;
    let filtered = filter(&evaluated, threshold);

    // every retained entry comes from the map and meets the threshold
    for (k, v) in filtered.entries().iter() {
        let orig = evaluated.get(*k).unwrap();
        assert_eq!(orig, *v);
        assert!(v.moves_to_wl >= threshold);
    }
    // nothing meeting the threshold is dropped
    let expected = evaluated
        .entries()
        .iter()
        .filter(|(_k, v)| v.moves_to_wl >= threshold)
        .count();
    assert_eq!(filtered.len(), expected);
    assert!(filtered.len() < evaluated.len());
}

#[test]
fn test_filter_round_trips_too() {
    let game = GameState::new(1, 4);
    let evaluated = evaluate(&game, SearchMode::Pruned);
    let filtered = filter(&evaluated, 2);
    let bytes = encode(&filtered);
    let decoded = decode(bytes.as_slice()).unwrap();
    assert_eq!(decoded.entries(), filtered.entries());
}
