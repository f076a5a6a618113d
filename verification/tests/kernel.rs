use secret_math::common::{
    abs_diff, avg, bankers_round, checked_add, checked_bankers_round, checked_sub, exp10, is_odd, most_significant_bit,
    msb, muldiv, muldiv18, muldiv_fp, nth_digit, sqrt,
};
use secret_math::muldiv::{div_wide, full_mul, unit_inverse};
use secret_math::{Asm, UD60x18Error, U256};

fn lib(v: ethnum::U256) -> U256 {
    let (hi, lo) = v.into_words();
    U256::from_words(hi, lo)
}

fn eth(v: U256) -> ethnum::U256 {
    let (hi, lo) = v.into_words();
    ethnum::U256::from_words(hi, lo)
}

fn dec(s: &str) -> U256 {
    lib(ethnum::U256::from_str_prefixed(s).unwrap())
}

fn max() -> U256 {
    lib(ethnum::U256::MAX)
}

#[test]
fn common_test_const() {
    let int2 = dec("78156646155174841979727994598816262306175212592076161876661508869554232690281");
    assert_eq!(unit_inverse(), int2);
}

#[test]
fn core_test_const() {
    let int2 = ethnum::U256::from_str_prefixed(
        "78156646155174841979727994598816262306175212592076161876661508869554232690281",
    )
    .unwrap();
    assert_eq!(eth(unit_inverse()), int2);
}

#[test]
fn common_test_checked_err() {
    let max = max();
    let one = U256::one();
    assert!(checked_add(max, one).is_err());
    assert!(checked_sub(one, max).is_err());
}

#[test]
fn core_test_checked_err() {
    let max = max();
    let one = U256::one();
    assert_eq!(checked_add(max, one), Err(UD60x18Error::AddOverflow(max, one)));
    assert_eq!(checked_sub(one, max), Err(UD60x18Error::SubUnderflow(one, max)));
}

#[test]
fn test_checked_ok() {
    let (x, y) = (dec("12443"), dec("443"));
    assert_eq!(checked_add(x, y).unwrap(), dec("12886"));
    assert_eq!(checked_sub(x, y).unwrap(), dec("12000"));
}

#[test]
fn test_nth_digit() {
    assert_eq!(nth_digit(dec("99958"), 2), 5);
    assert_eq!(nth_digit(dec("99958"), 1), 8);
    assert_eq!(nth_digit(dec("99958"), 5), 9);
    assert_eq!(nth_digit(dec("99958"), 6), 0);
}

#[test]
fn test_bankers_rounding() {
    assert_eq!(bankers_round(dec("99958"), 2), dec("100000"));
    assert_eq!(bankers_round(dec("99955"), 2), dec("100000"));
    assert_eq!(bankers_round(dec("99945"), 2), dec("99900"));
    assert_eq!(bankers_round(dec("735"), 1), dec("740"));
    assert_eq!(bankers_round(dec("745"), 1), dec("740"));
    assert_eq!(bankers_round(dec("755"), 1), dec("760"));
    assert_eq!(bankers_round(dec("765"), 1), dec("760"));
}

#[test]
fn test_checked_bankers_rounding() {
    assert_eq!(checked_bankers_round(dec("99958"), 2), Some(dec("100000")));
    assert_eq!(checked_bankers_round(dec("99945"), 2), Some(dec("99900")));
    assert_eq!(checked_bankers_round(dec("99945"), 0), None);
    assert_eq!(checked_bankers_round(dec("99945"), 78), None);
    // 2^256 - 1 ends in ...935: rounding up at the second digit does not fit
    assert_eq!(checked_bankers_round(max(), 1), None);
    assert_eq!(
        checked_bankers_round(max(), 2),
        Some(dec("115792089237316195423570985008687907853269984665640564039457584007913129639900"))
    );
}

#[test]
fn test_bankers_rounding_is_a_fixed_point() {
    for s in ["99958", "99945", "735", "745", "5", "0", "123456789012345678901234567890"] {
        for digit in 1u8..6 {
            let once = bankers_round(dec(s), digit);
            assert_eq!(bankers_round(once, digit), once);
        }
    }
}

#[test]
fn test_abs_diff() {
    assert_eq!(abs_diff(dec("20"), dec("10")), dec("10"));
    assert_eq!(abs_diff(dec("1"), dec("9999")), dec("9998"));
}

#[test]
fn test_kernel_avg() {
    assert_eq!(avg(dec("12000"), dec("12000")), dec("12000"));
    assert_eq!(avg(dec("11"), dec("13")), dec("12"));
    assert_eq!(avg(max(), max()), max());
    assert_eq!(avg(dec("1"), dec("2")), dec("1"));
}

#[test]
fn test_is_odd() {
    assert!(!is_odd(dec("0")));
    assert!(is_odd(dec("2323421")));
    assert!(!is_odd(dec("232323232320")));
}

#[test]
fn test_exp10() {
    assert_eq!(exp10(0), U256::one());
    assert_eq!(exp10(18), U256::new(1_000_000_000_000_000_000));
    assert_eq!(eth(exp10(77)), ethnum::U256::new(10).pow(77));
}

#[test]
fn test_muldiv() {
    assert_eq!(
        muldiv(dec("19318389123"), dec("1319320194941"), dec("219031831291")).unwrap(),
        dec("116362725698")
    );
    assert_eq!(muldiv(max(), max(), max()).unwrap(), max());
}

#[test]
fn test_muldiv_wide_products() {
    // (2^255 * 6) / 4 needs the 512-bit path with an even denominator
    let two_255 = lib(ethnum::U256::ONE << 255);
    assert_eq!(
        eth(muldiv(two_255, dec("6"), dec("4")).unwrap()),
        (ethnum::U256::ONE << 254) * 3u128
    );
    // an odd denominator
    let x = dec("115792089237316195423570985008687907853269984665640564039457584007913129639000");
    let y = dec("1000000007");
    let d = dec("1000000009");
    let expected =
        dec("115792089005732019033196181674919167839812829080214994977006577491057020274878");
    assert_eq!(muldiv(x, y, d).unwrap(), expected);
    // a denominator with a single high bit
    assert_eq!(
        eth(muldiv(max(), two_255, two_255).unwrap()),
        ethnum::U256::MAX
    );
}

#[test]
fn test_muldiv_errors() {
    assert_eq!(
        muldiv(dec("1"), dec("1"), dec("0")),
        Err(UD60x18Error::DivideByZero)
    );
    assert_eq!(
        muldiv(max(), dec("2"), dec("1")),
        Err(UD60x18Error::MulOverflow(dec("1"), dec("1")))
    );
    assert_eq!(
        muldiv(max(), dec("7"), dec("1")),
        Err(UD60x18Error::MulOverflow(dec("6"), dec("1")))
    );
    assert_eq!(muldiv(max(), dec("1"), dec("1")).unwrap(), max());
}

#[test]
fn test_muldiv18_rounds_half_up() {
    assert_eq!(muldiv18(dec("6"), exp10(17)).unwrap(), dec("1"));
    assert_eq!(muldiv18(dec("5"), exp10(17)).unwrap(), dec("1"));
    assert_eq!(muldiv18(dec("4"), exp10(17)).unwrap(), dec("0"));
    assert_eq!(muldiv18(exp10(9), exp10(9)).unwrap(), dec("1"));
    assert_eq!(
        muldiv18(dec("3141592653589793238"), dec("2718281828459045235")).unwrap(),
        dec("8539734222673567063")
    );
    let sqrt_max = dec("340282366920938463463374607431768211455999999999");
    assert_eq!(
        muldiv18(sqrt_max, sqrt_max).unwrap(),
        dec("115792089237316195423570985008687907853269984664959999305615707080986380425072")
    );
    let too_big = lib(eth(sqrt_max) + 1);
    assert!(matches!(
        muldiv18(too_big, too_big),
        Err(UD60x18Error::MulDiv18Overflow(_))
    ));
    // both names give the same result
    for (x, y) in [("6", "100000000000000000"), ("7", "71428571428571428"), ("1", "1")] {
        assert_eq!(muldiv18(dec(x), dec(y)), muldiv_fp(dec(x), dec(y)));
    }
}

#[test]
fn test_muldiv_fp_rounds_half_up() {
    assert_eq!(muldiv_fp(dec("6"), exp10(17)).unwrap(), dec("1"));
    assert_eq!(muldiv_fp(dec("5"), exp10(17)).unwrap(), dec("1"));
    assert_eq!(muldiv_fp(dec("4"), exp10(17)).unwrap(), dec("0"));
    assert_eq!(muldiv_fp(dec("1"), dec("1")).unwrap(), dec("0"));
    assert_eq!(
        muldiv_fp(dec("2324323000000000000000000"), dec("2323442230000000000000000")).unwrap(),
        dec("5400430214360290000000000000000")
    );
}

#[test]
fn test_msb() {
    for f in [msb, most_significant_bit] {
        assert_eq!(f(dec("0")), dec("0"));
        assert_eq!(f(dec("1")), dec("0"));
        assert_eq!(f(dec("2")), dec("1"));
        assert_eq!(f(dec("3")), dec("1"));
        assert_eq!(f(dec("255")), dec("7"));
        assert_eq!(f(dec("256")), dec("8"));
        assert_eq!(f(lib(ethnum::U256::ONE << 128)), dec("128"));
        assert_eq!(f(lib((ethnum::U256::ONE << 128) - 1u128)), dec("127"));
        assert_eq!(f(max()), dec("255"));
    }
}

#[test]
fn test_sqrt_brackets_its_argument() {
    let samples = [
        ethnum::U256::ZERO,
        ethnum::U256::ONE,
        ethnum::U256::new(2),
        ethnum::U256::new(3),
        ethnum::U256::new(4),
        ethnum::U256::new(15),
        ethnum::U256::new(16),
        ethnum::U256::new(99),
        ethnum::U256::new(u128::MAX),
        ethnum::U256::ONE << 128,
        (ethnum::U256::ONE << 128) - 1u128,
        ethnum::U256::MAX,
        ethnum::U256::MAX - 1,
        ethnum::U256::from_words(u128::MAX - 1, 0),
        ethnum::U256::new(10).pow(76),
    ];
    for x in samples {
        let s = eth(sqrt(lib(x)));
        assert!(s * s <= x);
        // (s + 1)^2 > x, written without overflow
        assert!(s + 1 > x / (s + 1));
    }
    assert_eq!(sqrt(max()), dec("340282366920938463463374607431768211455"));
    assert_eq!(sqrt(dec("4000000000000000000000000000000000000")), dec("2000000000000000000"));
}

#[test]
fn test_mulmod() {
    let two_255 = lib(ethnum::U256::ONE << 255);
    assert_eq!(Asm::mulmod(dec("3"), dec("4"), dec("5")), dec("2"));
    assert_eq!(Asm::mulmod(max(), dec("1"), max()), dec("0"));
    assert_eq!(
        Asm::mulmod(two_255, two_255, max()),
        dec("28948022309329048855892746252171976963317496166410141009864396001978282409984")
    );
    assert_eq!(Asm::mulmod(dec("3"), dec("4"), dec("0")), dec("0"));
}

#[test]
fn test_addmod() {
    let two_255 = lib(ethnum::U256::ONE << 255);
    assert_eq!(Asm::addmod(dec("3"), dec("4"), dec("5")), dec("2"));
    assert_eq!(Asm::addmod(max(), dec("1"), dec("10")), dec("6"));
    assert_eq!(Asm::addmod(max(), max(), max()), dec("0"));
    assert_eq!(Asm::addmod(two_255, two_255, max()), dec("1"));
}

#[test]
fn test_shl() {
    assert_eq!(Asm::shl(dec("7"), U256::one()), dec("128"));
    assert_eq!(Asm::shl(dec("6"), U256::one()), dec("64"));
}

#[test]
fn test_wrapping_primitives() {
    assert_eq!(Asm::add(max(), dec("2")), dec("1"));
    assert_eq!(Asm::u_sub(dec("0"), dec("1")), max());
    assert_eq!(Asm::mul(max(), dec("2")), lib(ethnum::U256::MAX - 1));
    assert_eq!(Asm::div(dec("7"), dec("2")), dec("3"));
    assert_eq!(Asm::gt(dec("2"), dec("1")), dec("1"));
    assert_eq!(Asm::gt(dec("1"), dec("1")), dec("0"));
    assert_eq!(Asm::lt(dec("1"), dec("2")), dec("1"));
    assert_eq!(Asm::or(dec("5"), dec("2")), dec("7"));
}

#[test]
fn test_full_mul() {
    let (high, low) = full_mul(max(), max());
    // (2^256 - 1)^2 = (2^256 - 2) * 2^256 + 1
    assert_eq!(high, lib(ethnum::U256::MAX - 1));
    assert_eq!(low, dec("1"));
    let (high, low) = full_mul(dec("3"), dec("4"));
    assert_eq!((high, low), (dec("0"), dec("12")));
    let two_255 = lib(ethnum::U256::ONE << 255);
    let (high, low) = full_mul(two_255, dec("6"));
    assert_eq!((high, low), (dec("3"), dec("0")));
}

#[test]
fn test_div_wide() {
    assert_eq!(div_wide(dec("3"), dec("5"), dec("7")), dec("49625181101706940895816136432294817651401421999560241731196107431962769845687"));
    let two_255 = lib(ethnum::U256::ONE << 255);
    assert_eq!(
        div_wide(two_255, max(), lib((ethnum::U256::ONE << 255) + 12345u128)),
        dec("115792089237316195423570985008687907853269984665640564039457584007913129615248")
    );
    assert_eq!(
        div_wide(dec("999999999999999999"), dec("12345678901234567890"), exp10(18)),
        dec("115792089237316195307778895771371712429698999656952656186187599342272565600490")
    );
    assert_eq!(div_wide(dec("0"), dec("100"), dec("1")), dec("100"));
}

#[test]
fn test_muldiv_is_exact_where_the_product_fits() {
    let samples: [u128; 7] = [
        0,
        1,
        7,
        1_000_000_007,
        u64::MAX as u128,
        340_282_366_920_938_463_463,
        u128::MAX,
    ];
    for x in samples {
        for y in samples {
            for z in samples {
                if z == 0 {
                    continue;
                }
                let (x, y, z) = (ethnum::U256::new(x), ethnum::U256::new(y), ethnum::U256::new(z));
                assert_eq!(eth(muldiv(lib(x), lib(y), lib(z)).unwrap()), x * y / z);
            }
        }
    }
}
