use tetris_core::highscore::Highscores;

#[test]
fn serialize_joins_with_commas() {
    let mut h = Highscores::new();
    h.scores = vec![40, 10, 30];
    assert_eq!(h.serialize(), b"40,10,30".to_vec());
}

#[test]
fn serialize_empty_is_empty() {
    let h = Highscores::new();
    assert_eq!(h.serialize(), Vec::<u8>::new());
}

#[test]
fn round_trip_keeps_order() {
    let mut h = Highscores::new();
    h.scores = vec![40, 10, 30];
    let wire = h.serialize();
    let back = Highscores::deserialize(&wire).unwrap();
    assert_eq!(back.scores, vec![40, 10, 30]);
}

#[test]
fn round_trip_empty() {
    let h = Highscores::new();
    let wire = h.serialize();
    let back = Highscores::deserialize(&wire).unwrap();
    assert!(back.scores.is_empty());
}

#[test]
fn deserialize_parses_decimals() {
    let back = Highscores::deserialize(b"0,4294967295,7").unwrap();
    assert_eq!(back.scores, vec![0, u32::MAX, 7]);
}

#[test]
fn deserialize_rejects_non_digits() {
    assert!(Highscores::deserialize(b"4a").is_err());
    assert!(Highscores::deserialize(b"1,-2").is_err());
    assert!(Highscores::deserialize(b"1, 2").is_err());
}

#[test]
fn deserialize_rejects_empty_fields() {
    assert!(Highscores::deserialize(b"1,,2").is_err());
    assert!(Highscores::deserialize(b",1").is_err());
    assert!(Highscores::deserialize(b"1,").is_err());
}

#[test]
fn deserialize_rejects_overflow() {
    assert!(Highscores::deserialize(b"4294967296").is_err());
    assert!(Highscores::deserialize(b"999999999999").is_err());
}

#[test]
fn add_score_sorts_descending() {
    let mut h = Highscores::new();
    h.add_score(40);
    h.add_score(10);
    h.add_score(30);
    assert_eq!(h.scores, vec![40, 30, 10]);
}

#[test]
fn add_score_keeps_ten_best() {
    let mut h = Highscores::new();
    for s in [5, 80, 30, 10, 90, 20, 70, 40, 60, 50, 100] {
        h.add_score(s);
    }
    assert_eq!(h.scores, vec![100, 90, 80, 70, 60, 50, 40, 30, 20, 10]);
}

#[test]
fn add_score_keeps_duplicates() {
    let mut h = Highscores::new();
    h.add_score(10);
    h.add_score(10);
    h.add_score(20);
    assert_eq!(h.scores, vec![20, 10, 10]);
}

#[test]
fn serialize_single_value() {
    let mut h = Highscores::new();
    h.scores = vec![4072];
    assert_eq!(h.serialize(), b"4072".to_vec());
    let back = Highscores::deserialize(b"4072").unwrap();
    assert_eq!(back.scores, vec![4072]);
}

#[test]
fn deserialize_accepts_leading_zeros() {
    let back = Highscores::deserialize(b"007,0").unwrap();
    assert_eq!(back.scores, vec![7, 0]);
}
