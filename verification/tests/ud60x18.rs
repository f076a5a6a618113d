use secret_math::common::exp10;
use secret_math::constants::{
    e, max_scaled_ud60x18, max_ud60x18, max_whole_ud60x18, sqrt_max_ud60x18, two_to_128,
    two_to_255,
};
use secret_math::ud60x18::{
    avg, ceil, div, exp, exp2, floor, frac, from_UD60x18, gm, inv, ln, log10, log2, mul,
    mul_ratio, pi, pow, powu, scale, sqrt, to_UD60x18,
};
use secret_math::{UD60x18Error, U256};

fn lib(v: ethnum::U256) -> U256 {
    let (hi, lo) = v.into_words();
    U256::from_words(hi, lo)
}

fn eth(v: U256) -> ethnum::U256 {
    let (hi, lo) = v.into_words();
    ethnum::U256::from_words(hi, lo)
}

fn dec(s: &str) -> U256 {
    lib(ethnum::U256::from_str_prefixed(s).unwrap())
}

fn units(n: u128) -> U256 {
    lib(ethnum::U256::new(n) * ethnum::U256::new(1_000_000_000_000_000_000))
}

fn times(n: u128, power: u8) -> U256 {
    lib(ethnum::U256::new(n) * eth(exp10(power)))
}

#[test]
fn test_constants() {
    assert_eq!(eth(two_to_128()).to_string(), "340282366920938463463374607431768211456");
    assert_eq!(
        eth(sqrt_max_ud60x18()).to_string(),
        "340282366920938463463374607431768211455999999999"
    );
    assert_eq!(
        eth(max_scaled_ud60x18()).to_string(),
        "115792089237316195423570985008687907853269984665640564039457"
    );
    assert_eq!(
        eth(two_to_255()).to_string(),
        "57896044618658097711785492504343953926634992332820282019728792003956564819968"
    );
    assert_eq!(eth(max_ud60x18()), ethnum::U256::MAX);
    assert_eq!(
        eth(max_whole_ud60x18()),
        ethnum::U256::MAX - ethnum::U256::MAX % ethnum::U256::new(1_000_000_000_000_000_000)
    );
    assert_eq!(scale(), exp10(18));
}

#[test]
fn log2_test_too_small() {
    assert!(log2(lib(eth(exp10(18)) - 1)).is_err());
    assert_eq!(
        log2(lib(eth(exp10(18)) - 1)),
        Err(UD60x18Error::LogInputTooSmall(dec("999999999999999999")))
    );
}

#[test]
fn test_log2_power_of_two() {
    assert_eq!(log2(exp10(18)).unwrap(), U256::zero());
    assert_eq!(log2(units(2)).unwrap(), units(1));
    assert_eq!(log2(units(4)).unwrap(), units(2));
    assert_eq!(log2(units(8)).unwrap(), units(3));
    assert_eq!(log2(units(16)).unwrap(), units(4));
    assert_eq!(log2(units(18446744073709551616)).unwrap(), units(64));
}

#[test]
fn test_log2_not_power_of_two() {
    assert_eq!(log2(times(1_125, 15)).unwrap(), dec("169925001442312346"));
    assert_eq!(log2(e()).unwrap(), dec("1442695040888963394"));
    assert_eq!(log2(pi()).unwrap(), dec("1651496129472318782"));
    assert_eq!(log2(exp10(24)).unwrap(), dec("19931568569324174075"));
    assert_eq!(log2(max_whole_ud60x18()).unwrap(), dec("196205294292027477728"));
    assert_eq!(log2(max_ud60x18()).unwrap(), dec("196205294292027477728"));
}

#[test]
fn test_exp2_then_log2_recovers_whole_exponents() {
    for n in 0u128..192 {
        assert_eq!(log2(exp2(units(n)).unwrap()).unwrap(), units(n));
    }
}

#[test]
fn test_exp2_then_log2_stays_close_to_the_exponent() {
    // the approximations of both directions add up to a few units in the
    // last place
    assert_eq!(
        log2(exp2(times(25, 17)).unwrap()).unwrap(),
        dec("2499999999999999976")
    );
    assert_eq!(
        log2(exp2(exp10(17)).unwrap()).unwrap(),
        dec("99999999999999989")
    );
    for x in [units(1), units(3), times(25, 17), units(64), times(1_125, 15), units(191)] {
        let back = eth(log2(exp2(x).unwrap()).unwrap());
        let x = eth(x);
        let distance = if back > x { back - x } else { x - back };
        assert!(distance <= ethnum::U256::new(100), "{} -> {}", x, back);
    }
}

#[test]
fn test_exp2_then_log2_keeps_the_whole_part() {
    let unit = ethnum::U256::new(1_000_000_000_000_000_000);
    for x in [
        dec("0"),
        dec("2"),
        dec("999999999999999999"),
        times(25, 17),
        dec("63999999999999999999"),
        dec("191999999999999999999"),
    ] {
        let back = eth(log2(exp2(x).unwrap()).unwrap());
        assert_eq!(back / unit, eth(x) / unit);
    }
    // two units in the last place come back as none
    assert_eq!(log2(exp2(dec("2")).unwrap()).unwrap(), dec("0"));
}

#[test]
fn ln_test_too_small() {
    assert!(ln(lib(eth(exp10(18)) - 1)).is_err());
}

#[test]
fn test_ln() {
    assert_eq!(ln(exp10(18)).unwrap(), U256::zero());
    assert_eq!(ln(times(1_125, 15)).unwrap(), dec("117783035656383442"));
    assert_eq!(ln(units(2)).unwrap(), dec("693147180559945309"));
    assert_eq!(ln(e()).unwrap(), dec("999999999999999990"));
    assert_eq!(ln(pi()).unwrap(), dec("1144729885849400163"));
    assert_eq!(ln(units(4)).unwrap(), dec("1386294361119890619"));
    assert_eq!(ln(units(8)).unwrap(), dec("2079441541679835928"));
    assert_eq!(ln(exp10(24)).unwrap(), dec("13815510557964274099"));
    assert_eq!(ln(max_whole_ud60x18()).unwrap(), dec("135999146549453176925"));
    assert_eq!(ln(max_ud60x18()).unwrap(), dec("135999146549453176925"));
}

#[test]
fn log10_test_too_small() {
    assert!(log10(lib(eth(exp10(18)) - 1)).is_err());
}

#[test]
fn test_log10_power_of_tens() {
    assert_eq!(log10(exp10(18)).unwrap(), U256::zero());
    assert_eq!(log10(exp10(19)).unwrap(), units(1));
    assert_eq!(log10(exp10(20)).unwrap(), units(2));
    assert_eq!(log10(exp10(24)).unwrap(), units(6));
    assert_eq!(log10(exp10(67)).unwrap(), units(49));
    assert_eq!(log10(exp10(75)).unwrap(), units(57));
    assert_eq!(log10(exp10(76)).unwrap(), units(58));
    assert_eq!(log10(exp10(77)).unwrap(), units(59));
}

#[test]
fn test_log10_not_power_of_tens() {
    assert_eq!(log10(e()).unwrap(), dec("434294481903251823"));
    assert_eq!(log10(pi()).unwrap(), dec("497149872694133849"));
    assert_eq!(log10(units(4)).unwrap(), dec("602059991327962390"));
    assert_eq!(log10(units(16)).unwrap(), dec("1204119982655924781"));
    assert_eq!(log10(units(32)).unwrap(), dec("1505149978319905976"));
    assert_eq!(log10(times(42_12, 16)).unwrap(), dec("1624488362513448905"));
    assert_eq!(
        log10(times(1_000_000_000_000_000_000_000_000_000_001, 6)).unwrap(),
        dec("17999999999999999999")
    );
    assert_eq!(log10(max_whole_ud60x18()).unwrap(), dec("59063678889979185987"));
    assert_eq!(log10(max_ud60x18()).unwrap(), dec("59063678889979185987"));
}

#[test]
fn exp2_test_zero() {
    let actual = exp2(U256::zero()).unwrap();
    assert_eq!(actual, exp10(18));
}

#[test]
fn exp2_test_greater_than_max() {
    let max_permitted = ethnum::U256::new(192_000_000_000_000_000_000u128 - 1u128);
    assert!(exp2(lib(max_permitted + eth(exp10(18)))).is_err());
    assert_eq!(
        exp2(lib(max_permitted + 1)),
        Err(UD60x18Error::Exp2InputTooBig(dec("192000000000000000000")))
    );
    assert_eq!(
        exp2(lib(max_permitted)).unwrap(),
        dec("6277101735386680759401282518710514696272033118492751795945000000000000000000")
    );
}

#[test]
fn test_exp2() {
    assert_eq!(exp2(U256::one()).unwrap(), exp10(18));
    assert_eq!(exp2(exp10(3)).unwrap(), dec("1000000000000000693"));
    assert_eq!(exp2(times(3212, 14)).unwrap(), dec("1249369313012024883"));
    assert_eq!(exp2(exp10(18)).unwrap(), units(2));
    assert_eq!(exp2(units(2)).unwrap(), units(4));
    assert_eq!(exp2(e()).unwrap(), dec("6580885991017920969"));
    assert_eq!(exp2(pi()).unwrap(), dec("8824977827076287621"));
    assert_eq!(exp2(units(3)).unwrap(), units(8));
    assert_eq!(exp2(units(4)).unwrap(), units(16));
    assert_eq!(exp2(units(8)).unwrap(), units(256));
    assert_eq!(exp2(times(25, 17)).unwrap(), dec("5656854249492380195"));
    assert_eq!(exp2(times(11_89215, 13)).unwrap(), dec("3800964933301542754377"));
    assert_eq!(exp2(units(16)).unwrap(), units(65536));
    assert_eq!(exp2(times(20_82, 16)).unwrap(), dec("1851162354076939434682641"));
    assert_eq!(exp2(times(33_333333, 12)).unwrap(), dec("10822636909120553492168423503"));
    assert_eq!(exp2(units(64)).unwrap(), units(18_446744073709551616));
}

#[test]
fn exp_test_exp_zero() {
    let actual = exp(U256::zero()).unwrap();
    assert_eq!(actual, exp10(18));
}

#[test]
fn exp_test_greater_than_max() {
    let max_permitted = ethnum::U256::new(133_084258667509499440u128);
    assert!(exp(lib(max_permitted + eth(exp10(18)))).is_err());
    assert_eq!(
        exp(lib(max_permitted + 1)),
        Err(UD60x18Error::ExpInputTooBig(dec("133084258667509499441")))
    );
    assert_eq!(
        exp(lib(max_permitted)).unwrap(),
        dec("6277101735386680754977611748738314679353920434623901771623000000000000000000")
    );
}

#[test]
fn test_exp() {
    assert_eq!(exp(U256::one()).unwrap(), exp10(18));
    assert_eq!(exp(exp10(18)).unwrap(), dec("2718281828459045234"));
    assert_eq!(exp(units(2)).unwrap(), dec("7389056098930650223"));
    assert_eq!(exp(e()).unwrap(), dec("15154262241479264171"));
    assert_eq!(exp(units(3)).unwrap(), dec("20085536923187667724"));
    assert_eq!(exp(pi()).unwrap(), dec("23140692632779268977"));
    assert_eq!(exp(units(4)).unwrap(), dec("54598150033144239019"));
    assert_eq!(exp(units(16)).unwrap(), dec("8886110520507872601090007"));
    assert_eq!(
        exp(times(33_333333, 12)).unwrap(),
        dec("299559147061116199277615819889397")
    );
}

#[test]
fn floor_test_exp_zero() {
    let actual = floor(U256::zero());
    assert_eq!(actual, U256::zero());
}

#[test]
fn test_floor() {
    assert_eq!(floor(exp10(17)), U256::zero());
    assert_eq!(floor(times(5, 17)), U256::zero());
    assert_eq!(floor(exp10(18)), exp10(18));
    assert_eq!(floor(times(1_125, 15)), exp10(18));
    assert_eq!(floor(pi()), units(3));
    assert_eq!(floor(times(4_2, 17)), units(4));
    assert_eq!(floor(exp10(24)), exp10(24));
    assert_eq!(floor(max_whole_ud60x18()), max_whole_ud60x18());
    assert_eq!(floor(max_ud60x18()), max_whole_ud60x18());
}

#[test]
fn test_ceil() {
    assert_eq!(ceil(U256::zero()).unwrap(), U256::zero());
    assert_eq!(ceil(exp10(17)).unwrap(), exp10(18));
    assert_eq!(ceil(exp10(18)).unwrap(), exp10(18));
    assert_eq!(ceil(times(1_125, 15)).unwrap(), units(2));
    assert_eq!(ceil(pi()).unwrap(), units(4));
    assert_eq!(ceil(max_whole_ud60x18()).unwrap(), max_whole_ud60x18());
    let above = lib(eth(max_whole_ud60x18()) + 1);
    assert_eq!(ceil(above), Err(UD60x18Error::CeilOverflow(above)));
    assert_eq!(
        ceil(max_ud60x18()),
        Err(UD60x18Error::CeilOverflow(max_ud60x18()))
    );
}

#[test]
fn frac_test_zero() {
    let actual = frac(U256::zero());
    assert_eq!(actual, U256::zero());
}

#[test]
fn test_frac() {
    assert_eq!(frac(exp10(17)), exp10(17));
    assert_eq!(frac(times(5, 17)), times(5, 17));
    assert_eq!(frac(exp10(18)), U256::zero());
    assert_eq!(frac(times(1_125, 15)), times(125, 15));
    assert_eq!(frac(pi()), dec("141592653589793238"));
    assert_eq!(frac(times(4_2, 17)), times(2, 17));
    assert_eq!(frac(max_whole_ud60x18()), U256::zero());
    assert_eq!(frac(max_ud60x18()), dec("584007913129639935"));
}

#[test]
fn test_error() {
    let x = lib(eth(sqrt_max_ud60x18()) + eth(exp10(18)));
    assert!(gm(x, x).is_err());
    assert_eq!(gm(x, x), Err(UD60x18Error::GmOverflow(x, x)));
}

#[test]
fn test_gm() {
    let sqrt_max_uint256 = dec("340282366920938463463374607431768211455");
    assert_eq!(gm(U256::zero(), pi()).unwrap(), U256::zero());
    assert_eq!(gm(pi(), U256::zero()).unwrap(), U256::zero());
    assert_eq!(gm(exp10(18), exp10(18)).unwrap(), exp10(18));
    assert_eq!(gm(exp10(18), units(4)).unwrap(), units(2));
    assert_eq!(gm(units(2), units(8)).unwrap(), units(4));
    assert_eq!(gm(e(), times(89_01, 16)).unwrap(), dec("15554879155787087514"));
    assert_eq!(gm(pi(), times(8_2, 17)).unwrap(), dec("5075535416036056441"));
    assert_eq!(
        gm(times(32_247, 16), times(67_477, 16)).unwrap(),
        dec("466468736251423392217")
    );
    assert_eq!(gm(sqrt_max_uint256, sqrt_max_uint256).unwrap(), sqrt_max_uint256);
    assert_eq!(gm(max_whole_ud60x18(), U256::one()).unwrap(), sqrt_max_uint256);
    assert_eq!(gm(max_ud60x18(), U256::one()).unwrap(), sqrt_max_uint256);
}

#[test]
fn test_err() {
    assert!(inv(U256::zero()).is_err());
    assert_eq!(inv(U256::zero()), Err(UD60x18Error::DivideByZero));
}

#[test]
fn test_inv() {
    assert_eq!(inv(U256::one()).unwrap(), exp10(36));
    assert_eq!(inv(times(5, 16)).unwrap(), units(20));
    assert_eq!(inv(exp10(18)).unwrap(), exp10(18));
    assert_eq!(inv(units(2)).unwrap(), times(5, 17));
    assert_eq!(inv(pi()).unwrap(), dec("318309886183790671"));
    assert_eq!(inv(units(22)).unwrap(), dec("45454545454545454"));
    assert_eq!(inv(exp10(36)).unwrap(), U256::one());
    assert_eq!(inv(lib(eth(exp10(36)) + 1)).unwrap(), U256::zero());
    assert_eq!(inv(max_ud60x18()).unwrap(), U256::zero());
}

#[test]
fn test_div() {
    assert_eq!(div(U256::one(), U256::zero()), Err(UD60x18Error::DivideByZero));
    let too_big = lib(eth(max_scaled_ud60x18()) + 1);
    assert!(matches!(
        div(too_big, U256::one()),
        Err(UD60x18Error::MulOverflow(_, _))
    ));
    assert_eq!(div(U256::zero(), pi()).unwrap(), U256::zero());
    assert_eq!(div(U256::one(), max_ud60x18()).unwrap(), U256::zero());
    assert_eq!(div(U256::one(), exp10(18)).unwrap(), U256::one());
    assert_eq!(div(exp10(13), times(2, 13)).unwrap(), times(5, 17));
    assert_eq!(div(units(22), units(7)).unwrap(), dec("3142857142857142857"));
    assert_eq!(
        div(times(100_135, 15), times(100_134, 15)).unwrap(),
        dec("1000009986617931971")
    );
    assert_eq!(div(units(2503), times(91_888_211, 16)).unwrap(), dec("2723962054283546"));
    assert_eq!(div(max_scaled_ud60x18(), U256::one()).unwrap(), max_whole_ud60x18());
}

#[test]
fn test_mul() {
    assert_eq!(mul(U256::zero(), max_ud60x18()).unwrap(), U256::zero());
    assert_eq!(mul(max_ud60x18(), U256::zero()).unwrap(), U256::zero());
    // products round to the nearest, halves up
    assert_eq!(mul(U256::one(), U256::one()).unwrap(), U256::zero());
    assert_eq!(mul(dec("6"), exp10(17)).unwrap(), U256::one());
    assert_eq!(mul(dec("5"), exp10(17)).unwrap(), U256::one());
    assert_eq!(mul(dec("4"), exp10(17)).unwrap(), U256::zero());
    assert_eq!(mul(exp10(9), exp10(9)).unwrap(), U256::one());
    assert_eq!(
        mul(times(2_098, 15), times(1_119, 15)).unwrap(),
        times(2_347662, 12)
    );
    assert_eq!(mul(pi(), e()).unwrap(), dec("8539734222673567063"));
    assert_eq!(mul(times(9_817, 18), times(2_348, 18)).unwrap(), units(23_050_316));
    assert_eq!(mul(exp10(24), exp10(20)).unwrap(), exp10(26));
    assert_eq!(
        mul(sqrt_max_ud60x18(), sqrt_max_ud60x18()).unwrap(),
        dec("115792089237316195423570985008687907853269984664959999305615707080986380425072")
    );
    assert_eq!(
        mul(
            dec("2324323000000000000000000"),
            dec("2323442230000000000000000")
        )
        .unwrap(),
        dec("5400430214360290000000000000000")
    );
}

#[test]
fn test_mul_overflow() {
    let x = lib(eth(sqrt_max_ud60x18()) + 1);
    assert!(mul(x, x).is_err());
    // the quotient rounded down is the largest number and the remainder is
    // above one half
    let x = dec("115792089237316195191986806534055517469296371597529529100864840812854071438206");
    let y = dec("1000000000000000002");
    assert_eq!(
        mul(x, y),
        Err(UD60x18Error::MulDiv18Overflow(dec("999999999999999999")))
    );
}

#[test]
fn test_mul_ratio() {
    assert_eq!(mul_ratio(units(3), units(1), units(2)).unwrap(), times(15, 17));
    assert_eq!(
        mul_ratio(units(3), units(1), U256::zero()),
        Err(UD60x18Error::DivideByZero)
    );
}

#[test]
fn pow_test_pow_base_and_exp_zero() {
    let actual = pow(U256::zero(), U256::zero()).unwrap();
    assert_eq!(actual, exp10(18));
}

#[test]
fn test_exp_greater_than_max_permitted() {
    let max_permitted = ethnum::U256::from_words(
        0x0DE0B6B3A763FFFFFFFFFFFFFFFFFFFF,
        0xffffffffffffffffffffffffffffffff,
    );
    assert!(pow(
        lib(max_permitted + 1),
        lib(eth(exp10(18)) + 1)
    )
    .is_err());
}

#[test]
fn test_pow() {
    assert_eq!(pow(U256::zero(), exp10(18)).unwrap(), U256::zero());
    assert_eq!(pow(U256::zero(), pi()).unwrap(), U256::zero());
    assert_eq!(pow(exp10(18), U256::zero()).unwrap(), exp10(18));
    assert_eq!(pow(pi(), U256::zero()).unwrap(), exp10(18));
    assert_eq!(pow(exp10(18), units(2)).unwrap(), exp10(18));
    assert_eq!(pow(exp10(18), pi()).unwrap(), exp10(18));
    assert_eq!(pow(units(4), units(2)).unwrap(), units(16));
    assert_eq!(
        pow(units(2), times(15, 17)).unwrap(),
        dec("2828427124746190097")
    );
    assert_eq!(pow(pi(), pi()).unwrap(), dec("36462159607207910473"));
    assert_eq!(pow(e(), e()).unwrap(), dec("15154262241479263804"));
    assert_eq!(
        pow(times(5, 17), units(2)),
        Err(UD60x18Error::LogInputTooSmall(times(5, 17)))
    );
}

#[test]
fn test_pow_sqrt() {
    let x = units(4);
    let xpow2 = units(16);
    assert_eq!(pow(x, units(2)).unwrap(), xpow2);
    assert_eq!(sqrt(xpow2).unwrap(), x);
}

#[test]
fn powu_test_pow_base_and_exp_zero() {
    let actual = powu(U256::zero(), U256::zero()).unwrap();
    assert_eq!(actual, exp10(18));
}

#[test]
fn test_powu_base_zero_exp_not_zero() {
    for y in 1u128..20 {
        assert_eq!(powu(U256::zero(), U256::new(y)).unwrap(), U256::zero());
    }
    assert_eq!(powu(U256::zero(), max_ud60x18()).unwrap(), U256::zero());
}

#[test]
fn test_powu_exp_zero() {
    assert_eq!(powu(exp10(18), U256::zero()).unwrap(), exp10(18));
    assert_eq!(powu(pi(), U256::zero()).unwrap(), exp10(18));
    assert_eq!(
        powu(lib(eth(max_ud60x18()) - 1), U256::zero()).unwrap(),
        exp10(18)
    );
}

#[test]
fn powu_test_overflow() {
    assert!(powu(max_whole_ud60x18(), U256::new(2)).is_err());
}

#[test]
fn test_powu() {
    assert_eq!(powu(exp10(15), U256::new(3)).unwrap(), exp10(9));
    assert_eq!(powu(exp10(17), U256::new(2)).unwrap(), exp10(16));
    assert_eq!(powu(exp10(18), U256::new(1)).unwrap(), exp10(18));
    assert_eq!(powu(units(2), U256::new(5)).unwrap(), units(32));
    assert_eq!(
        powu(units(2), U256::new(100)).unwrap(),
        units(1267650600228_229401496703205376)
    );
    assert_eq!(powu(e(), U256::new(2)).unwrap(), dec("7389056098930650225"));
    assert_eq!(powu(pi(), U256::new(3)).unwrap(), dec("31006276680299820162"));
    assert_eq!(powu(exp10(20), U256::new(4)).unwrap(), exp10(26));
    assert_eq!(powu(exp10(24), U256::new(3)).unwrap(), exp10(36));
    assert_eq!(
        powu(sqrt_max_ud60x18(), U256::new(2)).unwrap(),
        dec("115792089237316195423570985008687907853269984664959999305615707080986380425072")
    );
    assert_eq!(powu(max_whole_ud60x18(), U256::new(1)).unwrap(), max_whole_ud60x18());
    assert_eq!(powu(max_ud60x18(), U256::new(1)).unwrap(), max_ud60x18());
}

#[test]
fn sqrt_test_zero() {
    assert_eq!(sqrt(U256::zero()).unwrap(), U256::zero());
}

#[test]
fn sqrt_test_overflow() {
    let max_permitted = ethnum::U256::from_words(
        0x12725DD1D243ABA0E7,
        0x5FE645CC4873F9E65AFE688C928E1F21,
    );
    assert!(sqrt(lib(max_permitted + 1)).is_err());
    assert_eq!(
        sqrt(lib(max_permitted + 1)),
        Err(UD60x18Error::SqrtOverflow(lib(max_permitted + 1)))
    );
    assert_eq!(
        sqrt(lib(max_permitted)).unwrap(),
        dec("340282366920938463463374607431768211455")
    );
}

#[test]
fn test_sqrt() {
    assert_eq!(sqrt(U256::one()).unwrap(), exp10(9));
    assert_eq!(sqrt(exp10(15)).unwrap(), dec("31622776601683793"));
    assert_eq!(sqrt(exp10(18)).unwrap(), exp10(18));
    assert_eq!(sqrt(units(2)).unwrap(), dec("1414213562373095048"));
    assert_eq!(sqrt(e()).unwrap(), dec("1648721270700128146"));
    assert_eq!(sqrt(units(3)).unwrap(), dec("1732050807568877293"));
    assert_eq!(sqrt(pi()).unwrap(), dec("1772453850905516027"));
    assert_eq!(sqrt(units(4)).unwrap(), units(2));
    assert_eq!(sqrt(units(16)).unwrap(), units(4));
    assert_eq!(sqrt(exp10(35)).unwrap(), dec("316227766016837933199889354"));
    assert_eq!(sqrt(exp10(58)).unwrap(), exp10(38));
    assert_eq!(
        sqrt(times(5, 58)).unwrap(),
        dec("223606797749978969640917366873127623544")
    );
}

#[test]
fn test_avg() {
    assert_eq!(avg(U256::zero(), U256::zero()), U256::zero());
    assert_eq!(avg(U256::one(), U256::one()), U256::one());
    assert_eq!(avg(U256::zero(), units(3)), times(15, 17));
    assert_eq!(avg(units(3), U256::zero()), times(15, 17));
    assert_eq!(avg(dec("2"), dec("4")), dec("3"));
    assert_eq!(avg(units(4), units(8)), units(6));
    assert_eq!(avg(dec("1"), dec("3")), dec("2"));
    assert_eq!(avg(dec("1"), dec("2")), dec("1"));
    assert_eq!(avg(max_ud60x18(), max_ud60x18()), max_ud60x18());
    assert_eq!(
        eth(avg(max_ud60x18(), max_whole_ud60x18())),
        ethnum::U256::from_words(
            0xFFFFFFFFFFFFFFFFFFFFFFFFFFFFFFFF,
            0xFFFFFFFFFFFFFFFFFBF297F2D7F1FFFF
        )
    );
}

#[test]
fn test_to_and_from_fixed_point() {
    assert_eq!(to_UD60x18(dec("7")).unwrap(), units(7));
    assert_eq!(from_UD60x18(units(7)), dec("7"));
    assert_eq!(from_UD60x18(pi()), dec("3"));
    assert_eq!(to_UD60x18(max_scaled_ud60x18()).unwrap(), max_whole_ud60x18());
    let too_big = lib(eth(max_scaled_ud60x18()) + 1);
    assert_eq!(
        to_UD60x18(too_big),
        Err(UD60x18Error::ToUD60x18Overflow(too_big))
    );
}
