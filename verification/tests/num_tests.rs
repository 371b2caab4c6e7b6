use lox::num::Num;

#[test]
fn make_reduces_to_lowest_terms() {
    assert_eq!(Num::make(101234, 10000), Some(Num { n: 50617, d: 5000 }));
    assert_eq!(Num::make(4, 2), Some(Num { n: 2, d: 1 }));
    assert_eq!(Num::make(0, 7), Some(Num { n: 0, d: 1 }));
    assert_eq!(Num::make(-6, 4), Some(Num { n: -3, d: 2 }));
    assert_eq!(Num::make(1, 0), None);
}

#[test]
fn arithmetic_is_exact() {
    let half = Num::make(1, 2).unwrap();
    let third = Num::make(1, 3).unwrap();
    assert_eq!(half.add(&third), Some(Num { n: 5, d: 6 }));
    assert_eq!(half.sub(&third), Some(Num { n: 1, d: 6 }));
    assert_eq!(half.mul(&third), Some(Num { n: 1, d: 6 }));
    assert_eq!(half.div(&third), Some(Num { n: 3, d: 2 }));
}

#[test]
fn comparisons_follow_value() {
    let half = Num::make(1, 2).unwrap();
    let third = Num::make(1, 3).unwrap();
    assert!(third.lt(&half));
    assert!(third.le(&half));
    assert!(!half.lt(&third));
    assert!(half.eq_val(&Num::make(2, 4).unwrap()));
}

#[test]
fn rendering_is_shortest_decimal() {
    assert_eq!(Num::from_int(7).to_bytes(), b"7".to_vec());
    assert_eq!(Num::from_int(-3).to_bytes(), b"-3".to_vec());
    assert_eq!(Num::make(101234, 10000).unwrap().to_bytes(), b"10.1234".to_vec());
    assert_eq!(Num::make(7, 2).unwrap().to_bytes(), b"3.5".to_vec());
    assert_eq!(Num::make(0, 1).unwrap().to_bytes(), b"0".to_vec());
    // A denominator with a factor other than 2 and 5 renders as a fraction.
    assert_eq!(Num::make(1, 3).unwrap().to_bytes(), b"1/3".to_vec());
}

#[test]
fn overflow_is_reported_not_wrapped() {
    let big = Num::from_int(0x7FFF_FFFF_FFFF_FFFF);
    assert_eq!(big.add(&Num::from_int(1)), None);
    assert_eq!(big.mul(&Num::from_int(2)), None);
}
