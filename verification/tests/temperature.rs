use tellstickreport::temperature::Temperature;

fn t(x: f32) -> Temperature {
    Temperature { bits: x.to_bits() }
}

#[test]
fn orders_like_floats() {
    let values = [
        f32::NEG_INFINITY, -100.5, -2.0, -1.0, -0.0, 0.0, 0.25, 1.0, 21.5, 1.0e30, f32::INFINITY,
        f32::NAN,
    ];
    for a in values {
        for b in values {
            assert_eq!(t(a).less_than(&t(b)), a < b, "{} < {}", a, b);
        }
    }
}

#[test]
fn zeros_and_nan() {
    assert!(!t(0.0).less_than(&t(-0.0)));
    assert!(!t(-0.0).less_than(&t(0.0)));
    assert!(!t(f32::NAN).less_than(&t(1.0)));
    assert!(!t(1.0).less_than(&t(f32::NAN)));
    assert_eq!(Temperature::zero(), t(0.0));
}
