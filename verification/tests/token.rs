use secret_math::asserter::MathAsserter;
use secret_math::token::{
    denormalize_amount, normalize_amount, normalize_amount_to_precision, PriceMath, TokenMath,
};
use secret_math::{UD60x18Error, U256};

fn n(v: u128) -> U256 {
    U256::new(v)
}

struct Rounded;

impl TokenMath for Rounded {
    const NORMALIZED_PRECISION: u8 = 18;
    const BANKERS_ROUNDING_ENABLED: bool = true;

    fn token_decimals_spec(&self) -> u8 {
        6
    }

    fn token_decimals(&self) -> u8 {
        6
    }
}

struct Truncated;

impl TokenMath for Truncated {
    const NORMALIZED_PRECISION: u8 = 18;
    const BANKERS_ROUNDING_ENABLED: bool = false;

    fn token_decimals_spec(&self) -> u8 {
        6
    }

    fn token_decimals(&self) -> u8 {
        6
    }
}

struct Priced(U256);

impl PriceMath for Priced {
    const PRICE_PRECISION: u8 = 18;

    fn price_spec(&self) -> U256 {
        self.0
    }

    fn price(&self) -> U256 {
        self.0
    }
}

#[test]
fn test_normalize() {
    assert_eq!(normalize_amount(n(1_500_000), 6, 18).unwrap(), n(1_500_000_000_000_000_000));
    assert_eq!(normalize_amount(n(7), 18, 18).unwrap(), n(7));
    assert_eq!(normalize_amount(n(1_999), 20, 18).unwrap(), n(19));
    assert_eq!(
        Rounded.normalize_amount_from_utokens(n(2)).unwrap(),
        n(2_000_000_000_000)
    );
    assert_eq!(
        Rounded::normalize_amount_from_any_utokens(n(2), 8).unwrap(),
        n(20_000_000_000)
    );
    assert!(matches!(
        normalize_amount(U256::from_words(u128::MAX, 0), 0, 18),
        Err(UD60x18Error::MulOverflow(_, _))
    ));
}

#[test]
fn test_denormalize() {
    // 1.2345675 rounds to the even 1.234568, 1.2345665 to the even 1.234566
    assert_eq!(denormalize_amount(n(1_234_567_500_000_000_000), 6, 18, true).unwrap(), n(1_234_568));
    assert_eq!(denormalize_amount(n(1_234_566_500_000_000_000), 6, 18, true).unwrap(), n(1_234_566));
    assert_eq!(denormalize_amount(n(1_234_567_500_000_000_000), 6, 18, false).unwrap(), n(1_234_567));
    assert_eq!(denormalize_amount(n(42), 18, 18, true).unwrap(), n(42));
    assert_eq!(
        denormalize_amount(n(42), 19, 18, true),
        Err(UD60x18Error::TokenDecimalsTooLarge(19, 18))
    );
    assert_eq!(
        Rounded.denormalize_amount_to_utokens(n(1_234_567_600_000_000_000)).unwrap(),
        n(1_234_568)
    );
    assert_eq!(
        Truncated.denormalize_amount_to_utokens(n(1_234_567_600_000_000_000)).unwrap(),
        n(1_234_567)
    );
}

#[test]
fn test_to_token_precision() {
    assert_eq!(
        normalize_amount_to_precision(n(1_234_567_600_000_000_000), 6, 18, true).unwrap(),
        n(1_234_568_000_000_000_000)
    );
    assert_eq!(
        normalize_amount_to_precision(n(1_234_567_600_000_000_000), 6, 18, false).unwrap(),
        n(1_234_567_000_000_000_000)
    );
    assert_eq!(normalize_amount_to_precision(n(5), 18, 18, false).unwrap(), n(5));
    assert_eq!(
        normalize_amount_to_precision(n(5), 19, 18, false),
        Err(UD60x18Error::TokenDecimalsTooLarge(19, 18))
    );
    assert_eq!(
        Rounded.normalize_amount_to_token_precision(n(1_234_567_500_000_000_000)).unwrap(),
        n(1_234_568_000_000_000_000)
    );
    assert_eq!(
        Truncated::normalize_amount_to_any_token_precision(n(1_999), 16).unwrap(),
        n(1_900)
    );
}

#[test]
fn test_price_math() {
    // a price of 2.5 with 18 decimals
    let priced = Priced(n(2_500_000_000_000_000_000));
    assert_eq!(priced.calc_value_from_amount(n(4_000_000)).unwrap(), n(10_000_000));
    assert_eq!(
        priced.calc_amount_from_value(n(10_000_000), 6, 6).unwrap(),
        n(4_000_000)
    );
    assert_eq!(
        priced.calc_amount_from_value(n(10_000_000), 6, 8).unwrap(),
        n(400_000_000)
    );
    assert_eq!(
        Priced(n(0)).calc_amount_from_value(n(1), 6, 6),
        Err(UD60x18Error::DivideByZero)
    );
}

#[test]
fn test_asserter() {
    let unit = 1_000_000_000_000_000_000u128;
    // within one percent
    assert!(MathAsserter::close_u128(100 * unit, 101 * unit, unit / 100));
    assert!(MathAsserter::close_u128(101 * unit, 100 * unit, unit / 100));
    assert!(!MathAsserter::close_u128(100 * unit, 102 * unit, unit / 100));
    assert!(!MathAsserter::close_u128(102 * unit, 100 * unit, unit / 100));
    // 7 scaled by 1.1 is 7.7, which rounds to 8: a distance of 1 is allowed
    assert!(MathAsserter::close_u128(7, 8, unit / 10));
    assert!(!MathAsserter::close_u128(7, 9, unit / 10));
    // 7 scaled by 0.9 is 6.3, which rounds to 6
    assert!(MathAsserter::close_u128(7, 6, unit / 10));
    assert!(!MathAsserter::close_u128(7, 5, unit / 10));
    assert!(MathAsserter::close_u256(n(740), n(735), 1));
    assert!(MathAsserter::close_u256(n(740), n(745), 1));
    assert!(!MathAsserter::close_u256(n(750), n(745), 1));
    assert!(MathAsserter::bigint(n(760), n(755)));
    assert!(MathAsserter::close_trim_u256(n(12), n(12_999), 3));
    assert!(!MathAsserter::close_trim_u256(n(13), n(12_999), 3));
    assert!(MathAsserter::close_trim_u256x18(n(1_234), n(1_234_999_999_999_999_999), 3));
    assert_eq!(MathAsserter::get_deviation(n(0), n(5)).unwrap(), n(0));
    assert_eq!(MathAsserter::get_deviation(n(200), n(150)).unwrap(), n(unit / 4));
    assert_eq!(MathAsserter::get_deviation(n(200), n(250)).unwrap(), n(unit / 4));
    assert!(MathAsserter::within_deviation(n(200), n(150), n(unit / 4)).unwrap());
    assert!(!MathAsserter::within_deviation(n(200), n(149), n(unit / 4)).unwrap());
    assert!(matches!(
        MathAsserter::get_deviation(n(1), U256::from_words(u128::MAX, 0)),
        Err(UD60x18Error::MulOverflow(_, _))
    ));
}
