use secret_math::rebase::{convert, BtrRebase, Rebase, SimpleRebase};
use secret_math::{UD60x18Error, U256};

fn n(v: u128) -> U256 {
    U256::new(v)
}

fn eth(v: U256) -> ethnum::U256 {
    let (hi, lo) = v.into_words();
    ethnum::U256::from_words(hi, lo)
}

fn max() -> U256 {
    U256::from_words(u128::MAX, u128::MAX)
}

#[test]
fn test_rebase_math() {
    let mut total_borrowed = BtrRebase::init();
    let value = n(100);
    total_borrowed.add_base(value, false).unwrap();
    assert_eq!(value, total_borrowed.elastic);
    assert_eq!(value, total_borrowed.base);
}

#[test]
fn test_rebase_math_2() {
    let mut total_borrowed = BtrRebase::init();
    total_borrowed.add_base(n(320), false).unwrap();
    assert_eq!(
        ethnum::U256::from(1u128),
        eth(total_borrowed.elastic) / eth(total_borrowed.base)
    );
    total_borrowed.elastic = total_borrowed.elastic.checked_add(n(160)).unwrap();
    assert_eq!(n(30), total_borrowed.to_elastic(n(20), true).unwrap());
}

#[test]
fn test_rebase_conservation() {
    for round_up in [false, true] {
        let mut totals = BtrRebase::new();
        let elastic = totals.add_base(n(100), round_up).unwrap();
        assert_eq!(elastic, n(100));
        assert_eq!(totals.to_elastic(n(100), true).unwrap(), elastic);
        assert_eq!(totals.to_base(n(100), true).unwrap(), n(100));
    }
}

#[test]
fn test_convert_rounds_up_only_where_needed() {
    // 10 * 3 / 7 = 4.28..
    assert_eq!(convert(n(10), n(7), n(3), false).unwrap(), n(4));
    assert_eq!(convert(n(10), n(7), n(3), true).unwrap(), n(5));
    // 14 * 3 / 7 = 6
    assert_eq!(convert(n(14), n(7), n(3), true).unwrap(), n(6));
    // an empty total converts one to one
    assert_eq!(convert(n(14), n(0), n(3), true).unwrap(), n(14));
    // nothing to convert back with
    assert_eq!(
        convert(n(14), n(7), n(0), true),
        Err(UD60x18Error::DivideByZero)
    );
    assert_eq!(convert(n(14), n(7), n(0), false).unwrap(), n(0));
    assert!(matches!(
        convert(max(), n(1), n(2), false),
        Err(UD60x18Error::MulOverflow(_, _))
    ));
}

#[test]
fn test_paired_updates() {
    let mut totals = BtrRebase { elastic: n(1000), base: n(500) };
    assert_eq!(totals.add_elastic(n(100), false).unwrap(), n(50));
    assert_eq!(totals, BtrRebase { elastic: n(1100), base: n(550) });
    assert_eq!(totals.sub_elastic(n(101), true).unwrap(), n(51));
    assert_eq!(totals, BtrRebase { elastic: n(999), base: n(499) });
    assert_eq!(totals.add_base(n(1), false).unwrap(), n(2));
    assert_eq!(totals, BtrRebase { elastic: n(1001), base: n(500) });
    assert_eq!(totals.sub_base(n(100), false).unwrap(), n(200));
    assert_eq!(totals, BtrRebase { elastic: n(801), base: n(400) });
}

#[test]
fn test_errors_leave_the_totals() {
    let before = BtrRebase { elastic: n(10), base: n(20) };
    let mut totals = before;
    assert_eq!(
        totals.sub_elastic(n(11), false),
        Err(UD60x18Error::SubUnderflow(n(10), n(11)))
    );
    assert_eq!(totals, before);
    // the base amount converts to an elastic amount within the total, but is
    // itself above the base total
    let mut totals = BtrRebase { elastic: n(1), base: n(2) };
    assert_eq!(
        totals.sub_base(n(3), false),
        Err(UD60x18Error::SubUnderflow(n(2), n(3)))
    );
    assert_eq!(totals, BtrRebase { elastic: n(1), base: n(2) });
    let mut totals = BtrRebase { elastic: max(), base: max() };
    assert_eq!(
        totals.add_elastic(n(1), false),
        Err(UD60x18Error::AddOverflow(max(), n(1)))
    );
    assert_eq!(totals, BtrRebase { elastic: max(), base: max() });
    assert_eq!(
        totals.add_base(n(1), false),
        Err(UD60x18Error::AddOverflow(max(), n(1)))
    );
}

#[test]
fn test_simple_rebase() {
    let mut totals = SimpleRebase::new(n(1000), n(500));
    assert_eq!(totals.elastic(), n(1000));
    assert_eq!(totals.base(), n(500));
    assert_eq!(totals.to_base(n(100), false).unwrap(), n(50));
    assert_eq!(totals.to_elastic(n(50), false).unwrap(), n(100));
    assert_eq!(totals.add_elastic(n(100), false).unwrap(), n(50));
    assert_eq!(totals, SimpleRebase::new(n(1100), n(550)));
    assert_eq!(totals.sub_base(n(50), false).unwrap(), n(100));
    assert_eq!(totals.into_rebase(), SimpleRebase::new(n(1000), n(500)));
    assert_eq!(
        totals.sub_elastic(n(1001), false),
        Err(UD60x18Error::SubUnderflow(n(1000), n(1001)))
    );
    assert_eq!(totals, SimpleRebase::new(n(1000), n(500)));
    totals.set_elastic(n(1));
    totals.set_base(n(2));
    assert_eq!(totals.add_base(n(2), true).unwrap(), n(1));
    assert_eq!(totals, SimpleRebase::new(n(2), n(4)));
}

#[test]
fn test_add_and_sub_self() {
    let mut totals = BtrRebase { elastic: n(10), base: n(20) };
    totals.add_self(n(1), n(2)).unwrap();
    assert_eq!(totals, BtrRebase { elastic: n(11), base: n(22) });
    totals.sub_self(n(11), n(2)).unwrap();
    assert_eq!(totals, BtrRebase { elastic: n(0), base: n(20) });
    assert_eq!(
        totals.sub_self(n(0), n(21)),
        Err(UD60x18Error::SubUnderflow(n(20), n(21)))
    );
    assert_eq!(
        totals.add_self(max(), max()),
        Err(UD60x18Error::AddOverflow(n(20), max()))
    );
    assert_eq!(totals, BtrRebase { elastic: n(0), base: n(20) });
}

#[test]
fn test_defaults_are_zero() {
    assert_eq!(BtrRebase::default(), BtrRebase::new());
    assert_eq!(SimpleRebase::default(), SimpleRebase::new(n(0), n(0)));
    assert_eq!(U256::default(), n(0));
    assert_eq!(secret_math::I256::default(), secret_math::I256::zero());
}

#[test]
fn test_convert_there_and_back() {
    for (amount, from_total, to_total) in [(10, 7, 3), (14, 7, 3), (1, 1000, 999), (5, 3, 8), (0, 4, 9)] {
        let (amount, from_total, to_total) = (n(amount), n(from_total), n(to_total));
        let down = convert(amount, from_total, to_total, false).unwrap();
        assert!(convert(down, to_total, from_total, false).unwrap().le(amount));
        let up = convert(amount, from_total, to_total, true).unwrap();
        assert!(convert(up, to_total, from_total, false).unwrap().ge(amount));
    }
    assert_eq!(convert(n(4), n(3), n(7), false).unwrap(), n(9));
    assert_eq!(convert(n(5), n(3), n(7), false).unwrap(), n(11));
}
