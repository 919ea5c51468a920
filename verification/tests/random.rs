use simulation::random::GrRandom;

#[test]
fn matches_the_native_ran_state_attack_stream() {
    let mut random = GrRandom::new(4_444);
    let actual = (0..12).map(|_| random.next_in_range(6)).collect::<Vec<_>>();
    assert_eq!(actual, [5, -1, 5, 4, 0, -2, -4, 1, 0, 3, 4, -4]);
}

#[test]
fn the_first_interval_stagger_is_this_stream() {
    let mut random = GrRandom::new(4_444);
    let drawn = (0..3).map(|_| random.next_in_range(12)).collect::<Vec<_>>();
    assert_eq!(drawn, [-7, 3, -6]);
    let stored = drawn.iter().map(|draw| 62 + draw).collect::<Vec<_>>();
    assert_eq!(stored, [55, 65, 56], "what the game stored for each");
}

#[test]
fn a_draw_stays_inside_its_bounds() {
    let mut random = GrRandom::new(7);
    for _ in 0..200 {
        let drawn = random.next_between_inclusive(-3, 9);
        assert!((-3..=9).contains(&drawn));
    }
    assert_eq!(random.next_inclusive(5, 5), 5);
    let whole = random.next_inclusive(i64::MIN / 2, i64::MAX / 2);
    assert!((i64::MIN / 2..=i64::MAX / 2).contains(&whole));
}

#[test]
fn one_seed_gives_one_stream() {
    let mut first = GrRandom::new(99);
    let mut second = GrRandom::new(99);
    for _ in 0..20 {
        assert_eq!(first.next_u64(), second.next_u64());
    }
}
