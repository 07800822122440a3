use media_retention::set_ops::{intersection, intersection_sorted};
use media_retention::util;

fn svec(items: &[&str]) -> Vec<String> {
    items.iter().map(|s| s.to_string()).collect()
}

fn views(items: &[String]) -> Vec<&str> {
    items.iter().map(|s| s.as_str()).collect()
}

#[test]
fn increment_none() {
    let bytes: [u8; 8] = util::increment(None);
    let res = u64::from_be_bytes(bytes);
    assert_eq!(res, 1);
}

#[test]
fn increment_fault() {
    let start: u8 = 127;
    let bytes: [u8; 1] = start.to_be_bytes();
    let bytes: [u8; 8] = util::increment(Some(&bytes));
    let res = u64::from_be_bytes(bytes);
    assert_eq!(res, 1);
}

#[test]
fn increment_norm() {
    let start: u64 = 1_234_567;
    let bytes: [u8; 8] = start.to_be_bytes();
    let bytes: [u8; 8] = util::increment(Some(&bytes));
    let res = u64::from_be_bytes(bytes);
    assert_eq!(res, 1_234_568);
}

#[test]
fn increment_wrap() {
    let start = u64::MAX;
    let bytes: [u8; 8] = start.to_be_bytes();
    let bytes: [u8; 8] = util::increment(Some(&bytes));
    let res = u64::from_be_bytes(bytes);
    assert_eq!(res, 0);
}

#[test]
fn checked_add() {
    let a = 1234;
    let res = util::checked_add(a, 1).unwrap();
    assert_eq!(res, 1235);
}

#[test]
#[should_panic(expected = "overflow")]
fn checked_add_overflow() {
    let a = u64::MAX;
    let res = util::checked_add(a, 1).expect("overflow");
    assert_eq!(res, 0);
}

#[test]
fn be_round_trip() {
    for v in [0u64, 1, 255, 256, 1 << 40, u64::MAX] {
        let bytes = util::u64_to_be(v);
        assert_eq!(bytes, v.to_be_bytes());
        assert_eq!(util::u64_from_be(&bytes), v);
    }
}

#[test]
fn set_intersection_none() {
    let a: Vec<String> = svec(&[]);
    let b: Vec<String> = svec(&[]);
    let r = intersection(vec![a, b]);
    assert_eq!(r.len(), 0);

    let a: Vec<String> = svec(&[]);
    let b = svec(&["abc", "def"]);
    let r = intersection(vec![a.clone(), b.clone()]);
    assert_eq!(r.len(), 0);
    let r = intersection(vec![b, a.clone()]);
    assert_eq!(r.len(), 0);
    let r = intersection(vec![a]);
    assert_eq!(r.len(), 0);

    let a = svec(&["foo", "bar", "baz"]);
    let b = svec(&["def", "hij", "klm", "nop"]);
    let r = intersection(vec![a, b]);
    assert_eq!(r.len(), 0);
}

#[test]
fn set_intersection_all() {
    let a = svec(&["foo"]);
    let b = svec(&["foo"]);
    let r = intersection(vec![a, b]);
    assert_eq!(views(&r), ["foo"]);

    let a = svec(&["foo", "bar"]);
    let b = svec(&["bar", "foo"]);
    let r = intersection(vec![a, b.clone()]);
    assert_eq!(views(&r), ["foo", "bar"]);
    let r = intersection(vec![b]);
    assert_eq!(views(&r), ["bar", "foo"]);

    let a = svec(&["foo", "bar", "baz"]);
    let b = svec(&["baz", "foo", "bar"]);
    let c = svec(&["bar", "baz", "foo"]);
    let r = intersection(vec![a, b, c]);
    assert_eq!(views(&r), ["foo", "bar", "baz"]);
}

#[test]
fn set_intersection_some() {
    let a = svec(&["foo"]);
    let b = svec(&["bar", "foo"]);
    let r = intersection(vec![a.clone(), b.clone()]);
    assert_eq!(views(&r), ["foo"]);
    let r = intersection(vec![b, a]);
    assert_eq!(views(&r), ["foo"]);

    let a = svec(&["abcdef", "foo", "hijkl", "abc"]);
    let b = svec(&["hij", "bar", "baz", "abc", "foo"]);
    let c = svec(&["abc", "xyz", "foo", "ghi"]);
    let r = intersection(vec![a, b, c]);
    assert_eq!(views(&r), ["foo", "abc"]);
}

#[test]
fn set_intersection_sorted_some() {
    let a = svec(&["bar"]);
    let b = svec(&["bar", "foo"]);
    let r = intersection_sorted(vec![a.clone(), b.clone()]);
    assert_eq!(views(&r), ["bar"]);
    let r = intersection_sorted(vec![b, a]);
    assert_eq!(views(&r), ["bar"]);

    let a = svec(&["aaa", "ccc", "eee", "ggg"]);
    let b = svec(&["aaa", "bbb", "ccc", "ddd", "eee"]);
    let c = svec(&["bbb", "ccc", "eee", "fff"]);
    let r = intersection_sorted(vec![a, b, c]);
    assert_eq!(views(&r), ["ccc", "eee"]);
}

#[test]
fn set_intersection_sorted_all() {
    let a = svec(&["foo"]);
    let b = svec(&["foo"]);
    let r = intersection_sorted(vec![a, b]);
    assert_eq!(views(&r), ["foo"]);

    let a = svec(&["bar", "foo"]);
    let b = svec(&["bar", "foo"]);
    let r = intersection_sorted(vec![a, b.clone()]);
    assert_eq!(views(&r), ["bar", "foo"]);
    let r = intersection_sorted(vec![b]);
    assert_eq!(views(&r), ["bar", "foo"]);

    let a = svec(&["bar", "baz", "foo"]);
    let b = svec(&["bar", "baz", "foo"]);
    let c = svec(&["bar", "baz", "foo"]);
    let r = intersection_sorted(vec![a, b, c]);
    assert_eq!(views(&r), ["bar", "baz", "foo"]);
}
