use lua_arch::{align_up, rng_next};

#[test]
fn align_up_rounds_to_the_next_multiple() {
    assert_eq!(align_up(0, 16), 0);
    assert_eq!(align_up(1, 16), 16);
    assert_eq!(align_up(16, 16), 16);
    assert_eq!(align_up(17, 16), 32);
    assert_eq!(align_up(100, 8), 104);
    assert_eq!(align_up(5, 1), 5);
    assert_eq!(align_up(3, 4), 4);
}

#[test]
fn rng_steps_follow_the_linear_congruence() {
    let (s1, r1) = rng_next(0);
    assert_eq!(s1, 1);
    assert_eq!(r1, 0);
    let (s2, r2) = rng_next(s1);
    assert_eq!(s2, 6364136223846793006);
    assert_eq!(r2, 6364136223846793006 >> 33);
    // the same seed always gives the same step
    let (s2b, _) = rng_next(s1);
    assert_eq!(s2, s2b);
}
