use lcars_ops::binary32::{less, max_so_far, not_a_number, rank_of};

fn samples() -> Vec<f32> {
    vec![
        0.0,
        -0.0,
        1.0,
        -1.0,
        0.5,
        49.0,
        80.0,
        100.0,
        1.0e-40,
        -1.0e-40,
        f32::MIN_POSITIVE,
        f32::MAX,
        f32::MIN,
        f32::INFINITY,
        f32::NEG_INFINITY,
        f32::NAN,
        -f32::NAN,
        f32::EPSILON,
        3.4,
        3.4000001,
    ]
}

#[test]
fn less_is_the_order_of_the_numbers() {
    for a in samples() {
        for b in samples() {
            assert_eq!(less(a.to_bits(), b.to_bits()), a < b, "for {} and {}", a, b);
        }
    }
}

#[test]
fn not_a_number_is_told_from_the_bits() {
    for a in samples() {
        assert_eq!(not_a_number(a.to_bits()), a.is_nan(), "for {}", a);
    }
}

#[test]
fn both_zeros_have_rank_zero() {
    assert_eq!(rank_of(0.0f32.to_bits()), 0);
    assert_eq!(rank_of((-0.0f32).to_bits()), 0);
    assert!(rank_of(1.0f32.to_bits()) > 0);
    assert!(rank_of((-1.0f32).to_bits()) < 0);
}

#[test]
fn running_maximum_only_rises() {
    let readings = [40.0f32, 55.5, 54.0, f32::NAN, 70.25, 10.0, -3.0];
    let mut highest = readings[0].to_bits();
    let mut expected = readings[0];
    for r in readings {
        let next = max_so_far(highest, r.to_bits());
        if r > expected {
            expected = r;
        }
        assert!(!(f32::from_bits(next) < f32::from_bits(highest)));
        highest = next;
        assert_eq!(f32::from_bits(highest), expected);
    }
    assert_eq!(f32::from_bits(highest), 70.25);
}

#[test]
fn a_maximum_that_is_no_number_stays() {
    let nan = f32::NAN.to_bits();
    assert_eq!(max_so_far(nan, 50.0f32.to_bits()), nan);
    assert_eq!(max_so_far(50.0f32.to_bits(), nan), 50.0f32.to_bits());
}
