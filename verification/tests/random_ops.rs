use media_retention::rng::{secs, shuffle, string, time_from_now_secs};

#[test]
fn random_string_shape() {
    let s = string(16);
    assert_eq!(s.chars().count(), 16);
    assert!(s.chars().all(|c| c.is_ascii_alphanumeric()));
    let empty = string(0);
    assert!(empty.is_empty());
}

#[test]
fn shuffle_permutes() {
    let mut v: Vec<u32> = (0..64).collect();
    shuffle(&mut v);
    assert_eq!(v.len(), 64);
    let mut sorted = v.clone();
    sorted.sort_unstable();
    let expected: Vec<u32> = (0..64).collect();
    assert_eq!(sorted, expected);
}

#[test]
fn random_secs_in_range() {
    for _ in 0..32 {
        let d = secs(5..9);
        assert!((5..9).contains(&d.as_secs()));
    }
}

#[test]
fn time_from_now_advances() {
    let now = std::time::SystemTime::now();
    let t = time_from_now_secs(60..120);
    let offset = t
        .duration_since(now)
        .expect("the drawn time lies in the future");
    assert!(offset.as_secs() >= 59 && offset.as_secs() <= 121);
}

#[test]
fn random_secs_whole_seconds() {
    for _ in 0..8 {
        let d = secs(1..1_000_000);
        assert_eq!(d.subsec_nanos(), 0);
    }
}
