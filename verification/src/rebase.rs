//! Rebase accounting: an elastic total and a base total whose ratio is the
//! exchange rate between an amount that grows and the shares held in it.

use vstd::prelude::*;
use vstd::arithmetic::div_mod::{
    lemma_div_is_ordered, lemma_div_multiples_vanish, lemma_fundamental_div_mod, lemma_mod_bound,
};
use crate::common::{checked_add, checked_sub};
use crate::error::{agrees, UD60x18Error};
use crate::muldiv::{muldiv, muldiv_spec};
use crate::u256::{two_256, U256};

verus! {

/// What a conversion returns. `amount` is counted in the total `from_total`
/// and converted to the total `to_total`: where `from_total` is 0 it is
/// unchanged, else it is `amount * to_total / from_total` rounded down, and
/// one more where `round_up` is set and converting back gives less than
/// `amount`.
pub open spec fn convert_spec(amount: nat, from_total: nat, to_total: nat, round_up: bool) -> Result<
    nat,
    UD60x18Error,
> {
    if from_total == 0 {
        Ok(amount)
    } else {
        match muldiv_spec(amount, to_total, from_total) {
            Ok(converted) => if !round_up {
                Ok(converted)
            } else {
                match muldiv_spec(converted, from_total, to_total) {
                    Ok(back) => if back < amount {
                        if converted + 1 >= two_256() {
                            Err(
                                UD60x18Error::AddOverflow(
                                    U256::from_nat(converted),
                                    U256::from_nat(1),
                                ),
                            )
                        } else {
                            Ok(converted + 1)
                        }
                    } else {
                        Ok(converted)
                    },
                    Err(e) => Err(e),
                }
            },
            Err(e) => Err(e),
        }
    }
}

/// Converts `amount` from the total `from_total` to the total `to_total`.
pub fn convert(amount: U256, from_total: U256, to_total: U256, round_up: bool) -> (r: Result<
    U256,
    UD60x18Error,
>)
    ensures
        agrees(r, convert_spec(amount@, from_total@, to_total@, round_up)),
{
    if from_total.is_zero() {
        return Ok(amount);
    }
    let converted = match muldiv(amount, to_total, from_total) {
        Ok(converted) => converted,
        Err(e) => {
            return Err(e);
        },
    };
    if !round_up {
        return Ok(converted);
    }
    let back = match muldiv(converted, from_total, to_total) {
        Ok(back) => back,
        Err(e) => {
            return Err(e);
        },
    };
    if back.lt(amount) {
        let one = U256::one();
        proof {
            converted.lemma_from_view();
            one.lemma_from_view();
        }
        checked_add(converted, one)
    } else {
        Ok(converted)
    }
}

/// An amount that is not above the total it is counted in converts to an
/// amount that is not above the total it is converted to.
pub proof fn lemma_convert_bounded(amount: nat, from_total: nat, to_total: nat, round_up: bool)
    requires
        amount <= from_total < two_256(),
        to_total < two_256(),
        convert_spec(amount, from_total, to_total, round_up) is Ok,
    ensures
        convert_spec(amount, from_total, to_total, round_up)->Ok_0 <= to_total,
{
    if from_total != 0 {
        let converted = (amount * to_total) / from_total;
        assert(amount * to_total <= from_total * to_total) by (nonlinear_arith)
            requires
                amount <= from_total,
        ;
        assert(0 <= amount * to_total) by (nonlinear_arith);
        lemma_div_is_ordered(
            (amount * to_total) as int,
            (from_total * to_total) as int,
            from_total as int,
        );
        lemma_div_multiples_vanish(to_total as int, from_total as int);
        assert(converted <= to_total);
        if round_up && converted == to_total && to_total != 0 {
            lemma_div_multiples_vanish(from_total as int, to_total as int);
            assert(to_total * from_total == from_total * to_total) by (nonlinear_arith);
        }
    }
}

/// Converting an amount and converting the result back: rounded down both
/// times it does not come back above the amount, and where the first
/// conversion is rounded up and the total it is counted in is not empty it
/// does not come back below it.
pub proof fn lemma_convert_round_trip(amount: nat, from_total: nat, to_total: nat)
    ensures
        ({
            let there = convert_spec(amount, from_total, to_total, false);
            there is Ok && convert_spec(there->Ok_0, to_total, from_total, false) is Ok
                ==> convert_spec(there->Ok_0, to_total, from_total, false)->Ok_0 <= amount
        }),
        ({
            let there = convert_spec(amount, from_total, to_total, true);
            from_total != 0 && there is Ok && convert_spec(
                there->Ok_0,
                to_total,
                from_total,
                false,
            ) is Ok ==> convert_spec(there->Ok_0, to_total, from_total, false)->Ok_0 >= amount
        }),
{
    let f = from_total as int;
    let t = to_total as int;
    let a = amount as int;
    if from_total == 0 {
        assert(a * 0 == 0) by (nonlinear_arith);
    } else if to_total == 0 {
        assert(a * 0 == 0) by (nonlinear_arith);
    } else {
        let c = (a * t) / f;
        assert(0 <= a * t) by (nonlinear_arith)
            requires
                a >= 0,
                t >= 0,
        ;
        lemma_fundamental_div_mod(a * t, f);
        lemma_mod_bound(a * t, f);
        assert(0 <= c) by {
            lemma_div_is_ordered(0, a * t, f);
        }
        // c * f <= a * t < (c + 1) * f
        assert(0 <= c * f <= a * t < (c + 1) * f) by (nonlinear_arith)
            requires
                a * t == f * c + (a * t) % f,
                0 <= (a * t) % f < f,
                c >= 0,
        ;
        lemma_div_is_ordered(c * f, a * t, t);
        lemma_div_multiples_vanish(a, t);
        assert(a * t == t * a) by (nonlinear_arith);
        assert((c * f) / t <= a);
        lemma_div_is_ordered(a * t, (c + 1) * f, t);
        assert(((c + 1) * f) / t >= a);
    }
}

/// A pair of totals: the elastic total, which grows, and the base total,
/// the number of shares held in it.
#[derive(Clone, Copy, Debug, PartialEq, Eq, Structural)]
pub struct BtrRebase {
    pub elastic: U256,
    pub base: U256,
}

/// The totals after an operation and the amount it computed, or the error
/// that left the totals unchanged.
pub open spec fn outcome(
    before: BtrRebase,
    after: BtrRebase,
    r: Result<U256, UD60x18Error>,
    s: Result<(nat, nat, nat), UD60x18Error>,
) -> bool {
    match (r, s) {
        (Ok(amount), Ok((elastic, base, computed))) => amount@ == computed && after.elastic@
            == elastic && after.base@ == base,
        (Err(e), Err(f)) => e == f && after == before,
        _ => false,
    }
}

impl Default for BtrRebase {
    /// Both totals zero.
    fn default() -> (r: BtrRebase)
        ensures
            r.elastic@ == 0,
            r.base@ == 0,
    {
        BtrRebase::new()
    }
}

impl BtrRebase {
    /// Both totals zero.
    pub fn new() -> (r: BtrRebase)
        ensures
            r.elastic@ == 0,
            r.base@ == 0,
    {
        BtrRebase { elastic: U256::zero(), base: U256::zero() }
    }

    /// Both totals zero.
    pub fn init() -> (r: BtrRebase)
        ensures
            r.elastic@ == 0,
            r.base@ == 0,
    {
        BtrRebase::new()
    }

    /// What `to_base` returns: the elastic amount converted to base.
    pub open spec fn to_base_spec(self, elastic: nat, round_up: bool) -> Result<nat, UD60x18Error> {
        convert_spec(elastic, self.elastic@, self.base@, round_up)
    }

    /// What `to_elastic` returns: the base amount converted to elastic.
    pub open spec fn to_elastic_spec(self, base: nat, round_up: bool) -> Result<nat, UD60x18Error> {
        convert_spec(base, self.base@, self.elastic@, round_up)
    }

    /// The base amount that the elastic amount `elastic` stands for.
    pub fn to_base(&self, elastic: U256, round_up: bool) -> (r: Result<U256, UD60x18Error>)
        ensures
            agrees(r, self.to_base_spec(elastic@, round_up)),
    {
        convert(elastic, self.elastic, self.base, round_up)
    }

    /// The elastic amount that the base amount `base` stands for.
    pub fn to_elastic(&self, base: U256, round_up: bool) -> (r: Result<U256, UD60x18Error>)
        ensures
            agrees(r, self.to_elastic_spec(base@, round_up)),
    {
        convert(base, self.base, self.elastic, round_up)
    }

    /// What `add_elastic` does: both totals grow, the elastic total by
    /// `elastic` and the base total by what `elastic` converts to.
    pub open spec fn add_elastic_spec(self, elastic: nat, round_up: bool) -> Result<
        (nat, nat, nat),
        UD60x18Error,
    > {
        match self.to_base_spec(elastic, round_up) {
            Ok(base) => if self.elastic@ + elastic >= two_256() {
                Err(UD60x18Error::AddOverflow(self.elastic, U256::from_nat(elastic)))
            } else if self.base@ + base >= two_256() {
                Err(UD60x18Error::AddOverflow(self.base, U256::from_nat(base)))
            } else {
                Ok((self.elastic@ + elastic, self.base@ + base, base))
            },
            Err(e) => Err(e),
        }
    }

    /// What `sub_elastic` does: both totals shrink, the elastic total by
    /// `elastic` and the base total by what `elastic` converts to.
    pub open spec fn sub_elastic_spec(self, elastic: nat, round_up: bool) -> Result<
        (nat, nat, nat),
        UD60x18Error,
    > {
        match self.to_base_spec(elastic, round_up) {
            Ok(base) => if elastic > self.elastic@ {
                Err(UD60x18Error::SubUnderflow(self.elastic, U256::from_nat(elastic)))
            } else {
                Ok(((self.elastic@ - elastic) as nat, (self.base@ - base) as nat, base))
            },
            Err(e) => Err(e),
        }
    }

    /// What `add_base` does: both totals grow, the base total by `base` and
    /// the elastic total by what `base` converts to.
    pub open spec fn add_base_spec(self, base: nat, round_up: bool) -> Result<
        (nat, nat, nat),
        UD60x18Error,
    > {
        match self.to_elastic_spec(base, round_up) {
            Ok(elastic) => if self.elastic@ + elastic >= two_256() {
                Err(UD60x18Error::AddOverflow(self.elastic, U256::from_nat(elastic)))
            } else if self.base@ + base >= two_256() {
                Err(UD60x18Error::AddOverflow(self.base, U256::from_nat(base)))
            } else {
                Ok((self.elastic@ + elastic, self.base@ + base, elastic))
            },
            Err(e) => Err(e),
        }
    }

    /// What `sub_base` does: both totals shrink, the base total by `base`
    /// and the elastic total by what `base` converts to.
    pub open spec fn sub_base_spec(self, base: nat, round_up: bool) -> Result<
        (nat, nat, nat),
        UD60x18Error,
    > {
        match self.to_elastic_spec(base, round_up) {
            Ok(elastic) => if elastic > self.elastic@ {
                Err(UD60x18Error::SubUnderflow(self.elastic, U256::from_nat(elastic)))
            } else if base > self.base@ {
                Err(UD60x18Error::SubUnderflow(self.base, U256::from_nat(base)))
            } else {
                Ok(((self.elastic@ - elastic) as nat, (self.base@ - base) as nat, elastic))
            },
            Err(e) => Err(e),
        }
    }

    /// What `add_self` does: both totals grow by the given amounts.
    pub open spec fn add_self_spec(self, elastic: nat, base: nat) -> Result<
        (nat, nat),
        UD60x18Error,
    > {
        if self.elastic@ + elastic >= two_256() {
            Err(UD60x18Error::AddOverflow(self.elastic, U256::from_nat(elastic)))
        } else if self.base@ + base >= two_256() {
            Err(UD60x18Error::AddOverflow(self.base, U256::from_nat(base)))
        } else {
            Ok((self.elastic@ + elastic, self.base@ + base))
        }
    }

    /// What `sub_self` does: both totals shrink by the given amounts.
    pub open spec fn sub_self_spec(self, elastic: nat, base: nat) -> Result<
        (nat, nat),
        UD60x18Error,
    > {
        if elastic > self.elastic@ {
            Err(UD60x18Error::SubUnderflow(self.elastic, U256::from_nat(elastic)))
        } else if base > self.base@ {
            Err(UD60x18Error::SubUnderflow(self.base, U256::from_nat(base)))
        } else {
            Ok(((self.elastic@ - elastic) as nat, (self.base@ - base) as nat))
        }
    }

    /// Adds `elastic` to the elastic total and `base` to the base total. On
    /// an error nothing changes.
    pub fn add_self(&mut self, elastic: U256, base: U256) -> (r: Result<(), UD60x18Error>)
        ensures
            match (r, old(self).add_self_spec(elastic@, base@)) {
                (Ok(_), Ok((e, b))) => final(self).elastic@ == e && final(self).base@ == b,
                (Err(x), Err(y)) => x == y && *final(self) == *old(self),
                _ => false,
            },
    {
        proof {
            elastic.lemma_from_view();
            base.lemma_from_view();
        }
        let new_elastic = match checked_add(self.elastic, elastic) {
            Ok(v) => v,
            Err(e) => {
                return Err(e);
            },
        };
        let new_base = match checked_add(self.base, base) {
            Ok(v) => v,
            Err(e) => {
                return Err(e);
            },
        };
        self.elastic = new_elastic;
        self.base = new_base;
        Ok(())
    }

    /// Subtracts `elastic` from the elastic total and `base` from the base
    /// total. On an error nothing changes.
    pub fn sub_self(&mut self, elastic: U256, base: U256) -> (r: Result<(), UD60x18Error>)
        ensures
            match (r, old(self).sub_self_spec(elastic@, base@)) {
                (Ok(_), Ok((e, b))) => final(self).elastic@ == e && final(self).base@ == b,
                (Err(x), Err(y)) => x == y && *final(self) == *old(self),
                _ => false,
            },
    {
        proof {
            elastic.lemma_from_view();
            base.lemma_from_view();
        }
        let new_elastic = match checked_sub(self.elastic, elastic) {
            Ok(v) => v,
            Err(e) => {
                return Err(e);
            },
        };
        let new_base = match checked_sub(self.base, base) {
            Ok(v) => v,
            Err(e) => {
                return Err(e);
            },
        };
        self.elastic = new_elastic;
        self.base = new_base;
        Ok(())
    }

    /// Adds `elastic` to the elastic total and what it converts to to the
    /// base total, and returns the latter. On an error nothing changes.
    pub fn add_elastic(&mut self, elastic: U256, round_up: bool) -> (r: Result<
        U256,
        UD60x18Error,
    >)
        ensures
            outcome(
                *old(self),
                *final(self),
                r,
                old(self).add_elastic_spec(elastic@, round_up),
            ),
    {
        proof {
            elastic.lemma_from_view();
        }
        let base = match self.to_base(elastic, round_up) {
            Ok(base) => base,
            Err(e) => {
                return Err(e);
            },
        };
        proof {
            base.lemma_from_view();
        }
        let new_elastic = match checked_add(self.elastic, elastic) {
            Ok(v) => v,
            Err(e) => {
                return Err(e);
            },
        };
        let new_base = match checked_add(self.base, base) {
            Ok(v) => v,
            Err(e) => {
                return Err(e);
            },
        };
        self.elastic = new_elastic;
        self.base = new_base;
        Ok(base)
    }

    /// Subtracts `elastic` from the elastic total and what it converts to
    /// from the base total, and returns the latter. On an error nothing
    /// changes.
    ///
    /// The subtraction from the base total needs no check: an amount within
    /// the elastic total converts to an amount within the base total.
    pub fn sub_elastic(&mut self, elastic: U256, round_up: bool) -> (r: Result<
        U256,
        UD60x18Error,
    >)
        ensures
            outcome(
                *old(self),
                *final(self),
                r,
                old(self).sub_elastic_spec(elastic@, round_up),
            ),
    {
        proof {
            elastic.lemma_from_view();
        }
        let base = match self.to_base(elastic, round_up) {
            Ok(base) => base,
            Err(e) => {
                return Err(e);
            },
        };
        let new_elastic = match checked_sub(self.elastic, elastic) {
            Ok(v) => v,
            Err(e) => {
                return Err(e);
            },
        };
        proof {
            lemma_convert_bounded(elastic@, self.elastic@, self.base@, round_up);
        }
        self.elastic = new_elastic;
        self.base = self.base.sub(base);
        Ok(base)
    }

    /// Adds `base` to the base total and what it converts to to the elastic
    /// total, and returns the latter. On an error nothing changes.
    pub fn add_base(&mut self, base: U256, round_up: bool) -> (r: Result<U256, UD60x18Error>)
        ensures
            outcome(*old(self), *final(self), r, old(self).add_base_spec(base@, round_up)),
    {
        proof {
            base.lemma_from_view();
        }
        let elastic = match self.to_elastic(base, round_up) {
            Ok(elastic) => elastic,
            Err(e) => {
                return Err(e);
            },
        };
        proof {
            elastic.lemma_from_view();
        }
        let new_elastic = match checked_add(self.elastic, elastic) {
            Ok(v) => v,
            Err(e) => {
                return Err(e);
            },
        };
        let new_base = match checked_add(self.base, base) {
            Ok(v) => v,
            Err(e) => {
                return Err(e);
            },
        };
        self.elastic = new_elastic;
        self.base = new_base;
        Ok(elastic)
    }

    /// Subtracts `base` from the base total and what it converts to from
    /// the elastic total, and returns the latter. On an error nothing
    /// changes.
    pub fn sub_base(&mut self, base: U256, round_up: bool) -> (r: Result<U256, UD60x18Error>)
        ensures
            outcome(*old(self), *final(self), r, old(self).sub_base_spec(base@, round_up)),
    {
        proof {
            base.lemma_from_view();
        }
        let elastic = match self.to_elastic(base, round_up) {
            Ok(elastic) => elastic,
            Err(e) => {
                return Err(e);
            },
        };
        proof {
            elastic.lemma_from_view();
        }
        let new_elastic = match checked_sub(self.elastic, elastic) {
            Ok(v) => v,
            Err(e) => {
                return Err(e);
            },
        };
        let new_base = match checked_sub(self.base, base) {
            Ok(v) => v,
            Err(e) => {
                return Err(e);
            },
        };
        self.elastic = new_elastic;
        self.base = new_base;
        Ok(elastic)
    }
}

/// The interface of anything that holds an elastic and a base total. The
/// conversions and the paired updates come with it.
pub trait Rebase: Sized {
    /// The elastic total.
    spec fn elastic_spec(&self) -> U256;

    /// The base total.
    spec fn base_spec(&self) -> U256;

    /// The elastic total.
    fn elastic(&self) -> (r: U256)
        ensures
            r == self.elastic_spec(),
    ;

    /// The base total.
    fn base(&self) -> (r: U256)
        ensures
            r == self.base_spec(),
    ;

    /// Replaces the elastic total and leaves the base total.
    fn set_elastic(&mut self, elastic: U256)
        ensures
            final(self).elastic_spec() == elastic,
            final(self).base_spec() == old(self).base_spec(),
    ;

    /// Replaces the base total and leaves the elastic total.
    fn set_base(&mut self, base: U256)
        ensures
            final(self).base_spec() == base,
            final(self).elastic_spec() == old(self).elastic_spec(),
    ;

    /// The two totals by themselves.
    fn into_rebase(&self) -> (r: SimpleRebase)
        ensures
            r.elastic == self.elastic_spec(),
            r.base == self.base_spec(),
    {
        SimpleRebase::new(self.elastic(), self.base())
    }

    /// The base amount that the elastic amount `elastic` stands for.
    fn to_base(&self, elastic: U256, round_up: bool) -> (r: Result<U256, UD60x18Error>)
        ensures
            agrees(r, (BtrRebase { elastic: self.elastic_spec(), base: self.base_spec() }).to_base_spec(elastic@, round_up)),
    {
        convert(elastic, self.elastic(), self.base(), round_up)
    }

    /// The elastic amount that the base amount `base` stands for.
    fn to_elastic(&self, base: U256, round_up: bool) -> (r: Result<U256, UD60x18Error>)
        ensures
            agrees(r, (BtrRebase { elastic: self.elastic_spec(), base: self.base_spec() }).to_elastic_spec(base@, round_up)),
    {
        convert(base, self.base(), self.elastic(), round_up)
    }

    /// Adds `elastic` to the elastic total and what it converts to to the
    /// base total, and returns the latter. On an error nothing changes.
    fn add_elastic(&mut self, elastic: U256, round_up: bool) -> (r: Result<U256, UD60x18Error>)
        ensures
            outcome(
                (BtrRebase { elastic: old(self).elastic_spec(), base: old(self).base_spec() }),
                (BtrRebase { elastic: final(self).elastic_spec(), base: final(self).base_spec() }),
                r,
                (BtrRebase { elastic: old(self).elastic_spec(), base: old(self).base_spec() }).add_elastic_spec(elastic@, round_up),
            ),
    {
        let mut sum = BtrRebase { elastic: self.elastic(), base: self.base() };
        match sum.add_elastic(elastic, round_up) {
            Ok(base) => {
                self.set_elastic(sum.elastic);
                self.set_base(sum.base);
                Ok(base)
            },
            Err(e) => Err(e),
        }
    }

    /// Subtracts `elastic` from the elastic total and what it converts to
    /// from the base total, and returns the latter. On an error nothing
    /// changes.
    fn sub_elastic(&mut self, elastic: U256, round_up: bool) -> (r: Result<U256, UD60x18Error>)
        ensures
            outcome(
                (BtrRebase { elastic: old(self).elastic_spec(), base: old(self).base_spec() }),
                (BtrRebase { elastic: final(self).elastic_spec(), base: final(self).base_spec() }),
                r,
                (BtrRebase { elastic: old(self).elastic_spec(), base: old(self).base_spec() }).sub_elastic_spec(elastic@, round_up),
            ),
    {
        let mut difference = BtrRebase { elastic: self.elastic(), base: self.base() };
        match difference.sub_elastic(elastic, round_up) {
            Ok(base) => {
                self.set_elastic(difference.elastic);
                self.set_base(difference.base);
                Ok(base)
            },
            Err(e) => Err(e),
        }
    }

    /// Adds `base` to the base total and what it converts to to the elastic
    /// total, and returns the latter. On an error nothing changes.
    fn add_base(&mut self, base: U256, round_up: bool) -> (r: Result<U256, UD60x18Error>)
        ensures
            outcome(
                (BtrRebase { elastic: old(self).elastic_spec(), base: old(self).base_spec() }),
                (BtrRebase { elastic: final(self).elastic_spec(), base: final(self).base_spec() }),
                r,
                (BtrRebase { elastic: old(self).elastic_spec(), base: old(self).base_spec() }).add_base_spec(base@, round_up),
            ),
    {
        let mut sum = BtrRebase { elastic: self.elastic(), base: self.base() };
        match sum.add_base(base, round_up) {
            Ok(elastic) => {
                self.set_elastic(sum.elastic);
                self.set_base(sum.base);
                Ok(elastic)
            },
            Err(e) => Err(e),
        }
    }

    /// Subtracts `base` from the base total and what it converts to from
    /// the elastic total, and returns the latter. On an error nothing
    /// changes.
    fn sub_base(&mut self, base: U256, round_up: bool) -> (r: Result<U256, UD60x18Error>)
        ensures
            outcome(
                (BtrRebase { elastic: old(self).elastic_spec(), base: old(self).base_spec() }),
                (BtrRebase { elastic: final(self).elastic_spec(), base: final(self).base_spec() }),
                r,
                (BtrRebase { elastic: old(self).elastic_spec(), base: old(self).base_spec() }).sub_base_spec(base@, round_up),
            ),
    {
        let mut difference = BtrRebase { elastic: self.elastic(), base: self.base() };
        match difference.sub_base(base, round_up) {
            Ok(elastic) => {
                self.set_elastic(difference.elastic);
                self.set_base(difference.base);
                Ok(elastic)
            },
            Err(e) => Err(e),
        }
    }
}

/// The two totals and nothing else.
#[derive(Clone, Copy, Debug, PartialEq, Eq, Structural)]
pub struct SimpleRebase {
    pub elastic: U256,
    pub base: U256,
}

impl Default for SimpleRebase {
    /// Both totals zero.
    fn default() -> (r: SimpleRebase)
        ensures
            r.elastic@ == 0,
            r.base@ == 0,
    {
        SimpleRebase { elastic: U256::zero(), base: U256::zero() }
    }
}

impl SimpleRebase {
    /// The given totals.
    pub fn new(elastic: U256, base: U256) -> (r: SimpleRebase)
        ensures
            r.elastic == elastic,
            r.base == base,
    {
        SimpleRebase { elastic, base }
    }
}

impl Rebase for SimpleRebase {
    open spec fn elastic_spec(&self) -> U256 {
        self.elastic
    }

    open spec fn base_spec(&self) -> U256 {
        self.base
    }

    fn elastic(&self) -> (r: U256) {
        self.elastic
    }

    fn base(&self) -> (r: U256) {
        self.base
    }

    fn set_elastic(&mut self, elastic: U256) {
        self.elastic = elastic;
    }

    fn set_base(&mut self, base: U256) {
        self.base = base;
    }
}

/// Conservation: after `base` has been added to zeroed totals, both totals
/// are `base`, and `base` converts to the elastic amount that was recorded,
/// with or without rounding up.
pub proof fn lemma_rebase_conservation(base: U256, round_up: bool, convert_up: bool)
    ensures
        ({
            let zeroed = BtrRebase { elastic: U256::from_nat(0), base: U256::from_nat(0) };
            let added = BtrRebase { elastic: base, base };
            &&& zeroed.add_base_spec(base@, round_up) == Ok::<(nat, nat, nat), UD60x18Error>(
                (base@, base@, base@),
            )
            &&& added.to_elastic_spec(base@, convert_up) == Ok::<nat, UD60x18Error>(base@)
        }),
{
    let b = base@;
    if b != 0 {
        lemma_div_multiples_vanish(b as int, b as int);
    }
}

} // verus!
