use koch_curve::algebra::alg_lt_exec;
use koch_curve::screen::{conv, Frac};

#[test]
fn conv_of_zero_is_zero() {
    let r = conv(
        Frac { num: 0, den: 1 },
        Frac { num: 5, den: 1 },
        Frac { num: 7, den: 2 },
    );
    assert_eq!(r.num, 0);
    assert_ne!(r.den, 0);
}

#[test]
fn conv_of_maximum_is_scale() {
    let m = Frac { num: 2500, den: 1 };
    let s = Frac { num: 7, den: 3 };
    let r = conv(m, m, s);
    // r == s as rational numbers.
    assert_eq!(r.num * s.den, s.num * r.den);
    assert_ne!(r.den, 0);
}

#[test]
fn conv_exact_value() {
    // (3/1) * (1/2) / (2/1) == 3/4.
    let r = conv(
        Frac { num: 1, den: 2 },
        Frac { num: 2, den: 1 },
        Frac { num: 3, den: 1 },
    );
    assert_eq!(r.num * 4, 3 * r.den);
}

#[test]
fn alg_lt_decides_exactly() {
    // 4 < 5 and not 5 < 5: the comparison is strict.
    assert!(alg_lt_exec(4, 0, 5));
    assert!(!alg_lt_exec(5, 0, 5));
    // sqrt(3) against nearby rationals: 1 < sqrt(3) < 2.
    assert!(alg_lt_exec(0, 1, 2));
    assert!(!alg_lt_exec(0, 1, 1));
    // Negative sqrt(3) part: -2 < -sqrt(3) < -1.
    assert!(alg_lt_exec(0, -1, -1));
    assert!(!alg_lt_exec(0, -1, -2));
    // 1732050/1000000 < sqrt(3) < 1732051/1000000, so the squared comparison
    // must get 48-bit products right: 1000000*sqrt(3) - 1732051 < 0 but
    // 1000000*sqrt(3) - 1732050 > 0.
    assert!(alg_lt_exec(-1732051, 1000000, 0));
    assert!(!alg_lt_exec(-1732050, 1000000, 0));
}
