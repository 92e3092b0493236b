use cryptomeria_historic::price::{order_key, price_gt};

fn samples() -> Vec<f64> {
    vec![
        0.0,
        -0.0,
        1.0,
        -1.0,
        1.5,
        -1.5,
        63724.3,
        63724.4,
        f64::MIN_POSITIVE,
        -f64::MIN_POSITIVE,
        f64::MAX,
        f64::MIN,
        f64::INFINITY,
        f64::NEG_INFINITY,
        f64::NAN,
        -f64::NAN,
        f64::from_bits(0x7ff0_0000_0000_0001),
        f64::from_bits(0xfff8_0000_0000_0001),
        f64::from_bits(1),
        f64::from_bits(0x8000_0000_0000_0001),
    ]
}

#[test]
fn order_key_orders_like_total_cmp() {
    for a in samples() {
        for b in samples() {
            assert_eq!(
                order_key(a.to_bits()).cmp(&order_key(b.to_bits())),
                a.total_cmp(&b),
                "{a} vs {b}"
            );
        }
    }
}

#[test]
fn price_gt_matches_ieee_greater_than() {
    for a in samples() {
        for b in samples() {
            assert_eq!(price_gt(a.to_bits(), b.to_bits()), a > b, "{a:?} > {b:?}");
        }
    }
}
