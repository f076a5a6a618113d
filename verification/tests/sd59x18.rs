use secret_math::sd59x18::{
    exp, exp2, ln, log2, max_sd59x18, max_whole_sd59x18, min_sd59x18, min_whole_sd59x18, mul,
    pow, scale, sqrt,
};
use secret_math::{SD59x18Error, UD60x18Error, I256, U256};

fn lib(v: ethnum::I256) -> I256 {
    let (hi, lo) = v.into_words();
    I256::from_words(hi, lo as u128)
}

fn eth(v: I256) -> ethnum::I256 {
    ethnum::I256::from_words(v.hi, v.lo as i128)
}

fn dec(s: &str) -> I256 {
    lib(ethnum::I256::from_str_prefixed(s).unwrap())
}

#[test]
fn test() {
    let int2 = ethnum::I256::from_str_prefixed(
        "-57896044618658097711785492504343953926634992332820282019728000000000000000000",
    )
    .unwrap();
    let int = ethnum::I256::from_str_prefixed(
        "57896044618658097711785492504343953926634992332820282019728000000000000000000",
    )
    .unwrap();
    assert_eq!(eth(min_whole_sd59x18()), int2);
    assert_eq!(eth(max_whole_sd59x18()), int);
}

#[test]
fn test_signed_words() {
    assert_eq!(eth(I256::new(-1)), ethnum::I256::MINUS_ONE);
    assert_eq!(eth(I256::new(i128::MIN)), ethnum::I256::new(i128::MIN));
    assert_eq!(eth(I256::new(i128::MAX)), ethnum::I256::new(i128::MAX));
    assert_eq!(eth(max_sd59x18()), ethnum::I256::MAX);
    assert_eq!(eth(min_sd59x18()), ethnum::I256::MIN);
    assert_eq!(eth(scale()), ethnum::I256::new(1_000_000_000_000_000_000));
    assert_eq!(dec("-5").unsigned_abs(), U256::new(5));
    assert_eq!(min_sd59x18().unsigned_abs(), U256::from_words(1 << 127, 0));
    assert_eq!(I256::from_sign_magnitude(true, U256::new(7)), dec("-7"));
    assert_eq!(I256::from_sign_magnitude(false, U256::new(7)), dec("7"));
    assert!(dec("-7").lt(dec("-6")));
    assert!(dec("-7").lt(dec("6")));
    assert!(dec("-1").is_negative());
}

#[test]
fn sd_test_mul() {
    assert_eq!(
        mul(dec("-2000000000000000000"), dec("3000000000000000000")).unwrap(),
        dec("-6000000000000000000")
    );
    assert_eq!(
        mul(dec("-2000000000000000000"), dec("-3000000000000000000")).unwrap(),
        dec("6000000000000000000")
    );
    assert_eq!(mul(dec("6"), dec("-100000000000000000")).unwrap(), dec("-1"));
    assert_eq!(mul(dec("4"), dec("-100000000000000000")).unwrap(), dec("0"));
    assert_eq!(
        mul(min_sd59x18(), dec("1")),
        Err(SD59x18Error::MulInputTooSmall(min_sd59x18()))
    );
    assert_eq!(
        mul(dec("1"), min_sd59x18()),
        Err(SD59x18Error::MulInputTooSmall(dec("1")))
    );
    assert_eq!(
        mul(max_sd59x18(), dec("2000000000000000000")),
        Err(SD59x18Error::MulOverflow(U256::from_words(u128::MAX, u128::MAX - 1)))
    );
    assert!(matches!(
        mul(max_sd59x18(), max_sd59x18()),
        Err(SD59x18Error::Magnitude(UD60x18Error::MulDiv18Overflow(_)))
    ));
}

#[test]
fn sd_test_exp2() {
    assert_eq!(exp2(dec("0")).unwrap(), dec("1000000000000000000"));
    assert_eq!(exp2(dec("3000000000000000000")).unwrap(), dec("8000000000000000000"));
    assert_eq!(exp2(dec("-1000000000000000000")).unwrap(), dec("500000000000000000"));
    assert_eq!(exp2(dec("-2500000000000000000")).unwrap(), dec("176776695296636881"));
    assert_eq!(exp2(dec("-59794705707972522261")).unwrap(), dec("1"));
    assert_eq!(exp2(dec("-59794705707972522262")).unwrap(), dec("0"));
    assert_eq!(exp2(min_sd59x18()).unwrap(), dec("0"));
    assert_eq!(
        exp2(dec("192000000000000000000")),
        Err(SD59x18Error::Exp2InputTooBig(dec("192000000000000000000")))
    );
}

#[test]
fn sd_test_exp() {
    assert_eq!(exp(dec("0")).unwrap(), dec("1000000000000000000"));
    assert_eq!(exp(dec("1000000000000000000")).unwrap(), dec("2718281828459045234"));
    assert_eq!(exp(dec("-1000000000000000000")).unwrap(), dec("367879441171442322"));
    assert_eq!(exp(dec("-41446531673892822323")).unwrap(), dec("0"));
    assert_eq!(
        exp(dec("133084258667509499441")),
        Err(SD59x18Error::ExpInputTooBig(dec("133084258667509499441")))
    );
}

#[test]
fn sd_test_log2() {
    assert_eq!(log2(dec("1000000000000000000")).unwrap(), dec("0"));
    assert_eq!(log2(dec("4000000000000000000")).unwrap(), dec("2000000000000000000"));
    assert_eq!(log2(dec("500000000000000000")).unwrap(), dec("-1000000000000000000"));
    assert_eq!(log2(dec("300000000000000000")).unwrap(), dec("-1736965594166206154"));
    assert_eq!(log2(dec("0")), Err(SD59x18Error::LogInputTooSmall(dec("0"))));
    assert_eq!(log2(dec("-1")), Err(SD59x18Error::LogInputTooSmall(dec("-1"))));
}

#[test]
fn sd_test_ln() {
    assert_eq!(ln(dec("1000000000000000000")).unwrap(), dec("0"));
    assert_eq!(ln(dec("2718281828459045235")).unwrap(), dec("999999999999999990"));
    assert_eq!(ln(dec("500000000000000000")).unwrap(), dec("-693147180559945309"));
    assert!(ln(dec("0")).is_err());
}

#[test]
fn sd_test_pow() {
    assert_eq!(pow(dec("0"), dec("0")).unwrap(), dec("1000000000000000000"));
    assert_eq!(pow(dec("0"), dec("5")).unwrap(), dec("0"));
    assert_eq!(
        pow(dec("2000000000000000000"), dec("-1000000000000000000")).unwrap(),
        dec("500000000000000000")
    );
    assert_eq!(
        pow(dec("4000000000000000000"), dec("2000000000000000000")).unwrap(),
        dec("16000000000000000000")
    );
    assert_eq!(
        pow(dec("500000000000000000"), dec("2000000000000000000")).unwrap(),
        dec("250000000000000000")
    );
    assert_eq!(
        pow(dec("-1"), dec("2000000000000000000")),
        Err(SD59x18Error::LogInputTooSmall(dec("-1")))
    );
}

#[test]
fn sd_test_sqrt() {
    assert_eq!(sqrt(dec("0")).unwrap(), dec("0"));
    assert_eq!(sqrt(dec("4000000000000000000")).unwrap(), dec("2000000000000000000"));
    assert_eq!(sqrt(dec("2000000000000000000")).unwrap(), dec("1414213562373095048"));
    assert_eq!(sqrt(dec("-1")), Err(SD59x18Error::SqrtNegativeInput(dec("-1"))));
    let max_permitted = "57896044618658097711785492504343953926634992332820282019728";
    assert_eq!(
        sqrt(dec(max_permitted)).unwrap(),
        dec("240615969168004511545033772477625056927")
    );
    let above = "57896044618658097711785492504343953926634992332820282019729";
    assert_eq!(sqrt(dec(above)), Err(SD59x18Error::SqrtOverflow(dec(above))));
}
