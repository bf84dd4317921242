use gisor::warp_scheduler::prioritize;

#[test]
fn test_0() {
    let mut v: Vec<(usize, usize, usize, usize)> = Vec::new();
    prioritize(&mut v);
    assert!(v.is_empty());
}

#[test]
fn test_1() {
    let mut v = vec![(0, 0, 2, 7), (0, 1, 0, 5), (1, 0, 1, 1), (1, 1, 0, 2)];
    prioritize(&mut v);

    assert_eq!(v[0], (1, 1, 0, 2));
    assert_eq!(v[1], (0, 1, 0, 5));

    assert_eq!(v[2], (1, 0, 1, 1));
    assert_eq!(v[3], (0, 0, 2, 7));
}

#[test]
fn test_2() {
    let mut v = vec![(2, 3, 1, 4), (0, 1, 1, 4), (1, 0, 1, 4), (0, 0, 1, 4)];
    prioritize(&mut v);

    assert_eq!(v, vec![(0, 0, 1, 4), (0, 1, 1, 4), (1, 0, 1, 4), (2, 3, 1, 4)]);
}

#[test]
fn test_3() {
    let mut v = vec![(0, 0, 0, 1), (0, 1, 0, 2), (1, 0, 1, 0), (1, 1, 2, 9)];
    let expected = v.clone();

    prioritize(&mut v);

    assert_eq!(v, expected);
}

#[test]
fn prioritize_is_idempotent_on_example() {
    let mut v = vec![(3, 1, 2, 0), (0, 2, 0, 9), (1, 1, 0, 9), (0, 0, 1, 3)];
    prioritize(&mut v);
    let once = v.clone();
    prioritize(&mut v);
    assert_eq!(v, once);
    assert_eq!(once, vec![(0, 2, 0, 9), (1, 1, 0, 9), (0, 0, 1, 3), (3, 1, 2, 0)]);
}

#[test]
fn prioritize_keeps_every_candidate() {
    let mut v = vec![(5, 5, 1, 1), (5, 5, 1, 1), (0, 0, 2, 0)];
    prioritize(&mut v);
    assert_eq!(v, vec![(5, 5, 1, 1), (5, 5, 1, 1), (0, 0, 2, 0)]);
}
