use arca::error::CoreError;
use arca::money::Cents;

#[test]
fn parse_basic() {
    assert_eq!(Cents::from_dollars_str("123.45").unwrap(), Cents(12_345));
    assert_eq!(Cents::from_dollars_str("0").unwrap(), Cents(0));
    assert_eq!(Cents::from_dollars_str("0.5").unwrap(), Cents(50));
    assert_eq!(Cents::from_dollars_str("-1.99").unwrap(), Cents(-199));
    assert_eq!(
        Cents::from_dollars_str("$1,234.56").unwrap(),
        Cents(123_456)
    );
}

#[test]
fn parse_rejects_garbage() {
    assert!(Cents::from_dollars_str("").is_err());
    assert!(Cents::from_dollars_str("abc").is_err());
    assert!(Cents::from_dollars_str("1.234").is_err());
    assert!(Cents::from_dollars_str("1.a").is_err());
}

#[test]
fn parse_refuses_with_the_offending_text() {
    match Cents::from_dollars_str("abc") {
        Err(CoreError::InvalidMoney(s)) => assert_eq!(s, "abc"),
        other => panic!("unexpected {:?}", other),
    }
    // One cent more than fits.
    assert!(Cents::from_dollars_str("92233720368547758.07").is_ok());
    assert!(Cents::from_dollars_str("92233720368547758.08").is_err());
}

#[test]
fn display_formats() {
    assert_eq!(Cents(0).to_string(), "$0.00");
    assert_eq!(Cents(123_456).to_string(), "$1,234.56");
    assert_eq!(Cents(-50).to_string(), "-$0.50");
    assert_eq!(Cents(1_000_000_00).to_string(), "$1,000,000.00");
}

#[test]
fn display_of_the_extremes() {
    assert_eq!(Cents(i64::MAX).to_string(), "$92,233,720,368,547,758.07");
    assert_eq!(Cents(i64::MIN).to_string(), "-$92,233,720,368,547,758.08");
}

#[test]
fn arithmetic() {
    let a = Cents(100);
    let b = Cents(250);
    assert_eq!(a + b, Cents(350));
    assert_eq!(b - a, Cents(150));
    assert_eq!(-a, Cents(-100));
    let sum: Cents = Cents::sum(&[a, b, Cents(50)]);
    assert_eq!(sum, Cents(400));
}

#[test]
fn parse_trailing_dot_yields_empty_fraction() {
    // A trailing dot leaves an empty fraction, which counts as no cents.
    assert_eq!(Cents::from_dollars_str("1.").unwrap(), Cents(100));
    assert_eq!(Cents::from_dollars_str("-5.").unwrap(), Cents(-500));
}

#[test]
fn sub_assign_subtracts_in_place() {
    let mut c = Cents(100);
    c -= Cents(30);
    assert_eq!(c, Cents(70));
}

const BOUND: i64 = 1_000_000_000_000;

fn samples() -> Vec<i64> {
    let mut v = vec![0, 1, -1, 99, -99, 100, -100, 101, 12_345, -12_345, BOUND, -BOUND];
    let mut x: i64 = 7;
    for _ in 0..200 {
        x = (x.wrapping_mul(6_364_136_223_846_793_005)).wrapping_add(1_442_695_040_888_963_407);
        v.push(x % BOUND);
    }
    v
}

#[test]
fn prop_cents_display_roundtrips() {
    for n in samples() {
        let c = Cents(n);
        assert_eq!(Cents::from_dollars_str(&c.to_string()).unwrap(), c);
    }
}

#[test]
fn prop_from_dollars_str_parses_canonical() {
    for neg in [false, true] {
        for whole in [0u64, 1, 9, 10, 999, 1_000, 10_000_000_000] {
            for frac in [0u64, 1, 9, 10, 50, 99] {
                let s = format!("{}{}.{:02}", if neg { "-" } else { "" }, whole, frac);
                let sign = if neg { -1 } else { 1 };
                let expected = sign * (whole as i64 * 100 + frac as i64);
                assert_eq!(Cents::from_dollars_str(&s).unwrap(), Cents(expected));
            }
        }
    }
}

#[test]
fn prop_add_commutative_with_identity() {
    let v = samples();
    for i in 1..v.len() {
        let (a, b) = (Cents(v[i - 1]), Cents(v[i]));
        assert_eq!(a + b, b + a);
        assert_eq!(a + Cents::zero(), a);
        assert_eq!(b - b, Cents::zero());
    }
}

#[test]
fn prop_neg_involution() {
    for n in samples() {
        assert_eq!(-(-Cents(n)), Cents(n));
    }
}

#[test]
fn prop_sum_equals_fold() {
    let v = samples();
    for n in 0..32 {
        let cents: Vec<Cents> = v.iter().take(n).map(|x| Cents(*x)).collect();
        let mut folded = Cents::zero();
        for c in &cents {
            folded = folded + *c;
        }
        assert_eq!(Cents::sum(&cents), folded);
    }
}

#[test]
fn sums_saturate() {
    assert_eq!(Cents(i64::MAX) + Cents(1), Cents(i64::MAX));
    assert_eq!(Cents(i64::MIN) - Cents(1), Cents(i64::MIN));
}
