use ann_dataset::score_key;

#[test]
fn score_key_of_given_numbers() {
    assert_eq!(0, score_key(0.0_f32.to_bits()));
    assert_eq!(0, score_key((-0.0_f32).to_bits()));
    assert_eq!(0x3f80_0000, score_key(1.0_f32.to_bits()));
    assert_eq!(-0x3f80_0000, score_key((-1.0_f32).to_bits()));
    assert_eq!(0x4000_0000, score_key(2.0_f32.to_bits()));
    assert_eq!(1, score_key(1));
    assert_eq!(-1, score_key(0x8000_0001));
    assert_eq!(0x7f80_0000, score_key(f32::INFINITY.to_bits()));
    assert_eq!(-0x7f80_0000, score_key(f32::NEG_INFINITY.to_bits()));
    assert_eq!(0x7f7f_ffff, score_key(f32::MAX.to_bits()));
    assert_eq!(-0x7f7f_ffff, score_key(f32::MIN.to_bits()));
}

#[test]
fn score_key_orders_as_the_numbers_do() {
    let scores = [
        f32::NEG_INFINITY,
        f32::MIN,
        -3.5,
        -1.0,
        -0.25,
        -f32::MIN_POSITIVE,
        -1.0e-45,
        0.0,
        1.0e-45,
        f32::MIN_POSITIVE,
        0.25,
        1.0,
        3.5,
        f32::MAX,
        f32::INFINITY,
    ];
    for (i, a) in scores.iter().enumerate() {
        for (j, b) in scores.iter().enumerate() {
            assert_eq!(
                i.cmp(&j),
                score_key(a.to_bits()).cmp(&score_key(b.to_bits()))
            );
            assert_eq!(a < b, score_key(a.to_bits()) < score_key(b.to_bits()));
        }
    }
}

#[test]
fn score_key_of_many_numbers() {
    let mut state = 99_u64;
    let mut previous = 0.5_f32;
    for _ in 0..20000 {
        state = state
            .wrapping_mul(6364136223846793005)
            .wrapping_add(1442695040888963407);
        let next = f32::from_bits((state >> 32) as u32);
        if next.is_nan() {
            continue;
        }
        assert_eq!(
            previous.partial_cmp(&next).unwrap(),
            score_key(previous.to_bits()).cmp(&score_key(next.to_bits()))
        );
        previous = next;
    }
}

#[test]
fn score_key_of_what_is_no_number() {
    assert_eq!(i64::MIN, score_key(f32::NAN.to_bits()));
    assert_eq!(i64::MIN, score_key((0.0_f32 / 0.0).to_bits()));
    assert_eq!(i64::MIN, score_key(0x7f80_0001));
    assert_eq!(i64::MIN, score_key(0xffff_ffff));
    assert!(score_key(f32::NAN.to_bits()) < score_key(f32::NEG_INFINITY.to_bits()));
}
