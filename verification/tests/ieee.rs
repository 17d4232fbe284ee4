use purezen::ieee::{eq_double, eq_single, is_nan_double, is_nan_single, lt_double, lt_single};
use purezen::message::Timestamp;
use purezen::utils::{find_delimiter, split};

fn doubles() -> Vec<f64> {
    vec![
        0.0,
        -0.0,
        1.0,
        -1.0,
        0.5,
        -0.5,
        1250.25,
        f64::MIN_POSITIVE,
        -f64::MIN_POSITIVE,
        5e-324,
        -5e-324,
        f64::MAX,
        f64::MIN,
        f64::INFINITY,
        f64::NEG_INFINITY,
        f64::NAN,
        -f64::NAN,
        f64::from_bits(0x7ff0_0000_0000_0001),
    ]
}

fn singles() -> Vec<f32> {
    vec![
        0.0,
        -0.0,
        1.0,
        -1.0,
        3.14,
        -3.14,
        f32::MIN_POSITIVE,
        1e-45,
        -1e-45,
        f32::MAX,
        f32::MIN,
        f32::INFINITY,
        f32::NEG_INFINITY,
        f32::NAN,
        -f32::NAN,
        f32::from_bits(0x7f80_0001),
    ]
}

#[test]
fn double_order_is_that_of_the_numbers() {
    for a in doubles() {
        for b in doubles() {
            assert_eq!(lt_double(a.to_bits(), b.to_bits()), a < b, "{} < {}", a, b);
            assert_eq!(eq_double(a.to_bits(), b.to_bits()), a == b, "{} == {}", a, b);
        }
        assert_eq!(is_nan_double(a.to_bits()), a.is_nan());
    }
}

#[test]
fn single_order_is_that_of_the_numbers() {
    for a in singles() {
        for b in singles() {
            assert_eq!(lt_single(a.to_bits(), b.to_bits()), a < b, "{} < {}", a, b);
            assert_eq!(eq_single(a.to_bits(), b.to_bits()), a == b, "{} == {}", a, b);
        }
        assert_eq!(is_nan_single(a.to_bits()), a.is_nan());
    }
}

#[test]
fn timestamp_comparisons() {
    let early = Timestamp::from_bits(10.0f64.to_bits());
    let late = Timestamp::from_bits(10.5f64.to_bits());
    let nan = Timestamp::from_bits(f64::NAN.to_bits());
    assert!(early.is_before(late));
    assert!(!late.is_before(early));
    assert!(!early.is_before(early));
    assert!(late.is_at_or_after(early));
    assert!(early.is_at_or_after(early));
    assert!(!early.is_at_or_after(late));
    assert!(!nan.is_before(early) && !early.is_before(nan));
    assert!(!nan.is_at_or_after(early) && !nan.is_at_or_after(nan));
    assert_eq!(early, Timestamp(10.0f64.to_bits()));
    assert_ne!(early, late);
    assert_ne!(nan, nan);
    assert_eq!(Timestamp(0.0f64.to_bits()), Timestamp((-0.0f64).to_bits()));
    assert_eq!(Timestamp::default().to_bits(), 0);
    assert_eq!(late.to_bits(), 10.5f64.to_bits());
}

#[test]
fn split_is_str_split() {
    let samples = [
        "",
        " ;",
        "a",
        "a ;b",
        "a ;b ;c",
        " ;a",
        "a ;",
        " ; ;",
        "a  ;b",
        "a ; ;b",
        "a;b",
        " a",
        "a ",
        "ä ;ö ;ü",
        "1 ;2 ;3 ;4",
        "  ;;",
        "x ;;y",
    ];
    for s in samples {
        let expected: Vec<&str> = s.split(" ;").collect();
        assert_eq!(split(s, ' ', ';'), expected, "splitting {:?}", s);
    }
    let expected: Vec<&str> = "a\\$1b\\$\\$2".split("\\$").collect();
    assert_eq!(split("a\\$1b\\$\\$2", '\\', '$'), expected);
}

#[test]
fn find_delimiter_finds_the_first() {
    assert_eq!(find_delimiter("ab ;cd ;", 0, 8, ' ', ';'), 2);
    assert_eq!(find_delimiter("ab ;cd ;", 3, 8, ' ', ';'), 6);
    assert_eq!(find_delimiter("ab ;cd ;", 7, 8, ' ', ';'), 8);
    assert_eq!(find_delimiter("abc", 0, 3, ' ', ';'), 3);
    assert_eq!(find_delimiter("", 0, 0, ' ', ';'), 0);
}

#[test]
fn timestamps_compare_as_their_numbers_do() {
    for a in doubles() {
        for b in doubles() {
            let (x, y) = (Timestamp(a.to_bits()), Timestamp(b.to_bits()));
            assert_eq!(x.partial_cmp(&y), a.partial_cmp(&b), "{} and {}", a, b);
            assert_eq!(x < y, a < b);
            assert_eq!(x <= y, a <= b);
            assert_eq!(x > y, a > b);
            assert_eq!(x >= y, a >= b);
            assert_eq!(x == y, a == b);
        }
    }
}
