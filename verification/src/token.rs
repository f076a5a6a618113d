//! Rescaling between a token's own decimal precision and a normalized
//! precision, and pricing.

use vstd::prelude::*;
use vstd::arithmetic::div_mod::lemma_fundamental_div_mod;
use crate::common::{bankers_round, bankers_round_spec, rounding_increment};
use crate::error::{agrees, UD60x18Error};
use crate::muldiv::{muldiv, muldiv_spec};
use crate::tens::{exp10, lemma_pow10_bounds, pow10};
use crate::u256::{two_256, U256};

verus! {

/// What normalizing returns: `amount * 10^normalized / 10^token` rounded
/// down.
pub open spec fn normalize_spec(amount: nat, token_decimals: nat, normalized: nat) -> Result<
    nat,
    UD60x18Error,
> {
    if token_decimals == normalized {
        Ok(amount)
    } else {
        muldiv_spec(amount, pow10(normalized), pow10(token_decimals))
    }
}

/// What denormalizing returns: `amount` with the digits that the token
/// cannot hold cut off, after banker's rounding where that is enabled; and
/// `TokenDecimalsTooLarge` where rounding is enabled and the token has more
/// decimals than the normalized precision.
pub open spec fn denormalize_spec(
    amount: nat,
    token_decimals: nat,
    normalized: nat,
    bankers_rounding: bool,
) -> Result<nat, UD60x18Error> {
    if token_decimals == normalized {
        Ok(amount)
    } else if bankers_rounding {
        if token_decimals > normalized {
            Err(UD60x18Error::TokenDecimalsTooLarge(token_decimals as u8, normalized as u8))
        } else {
            let diff = (normalized - token_decimals) as nat;
            Ok(bankers_round_spec(amount, diff) / pow10(diff))
        }
    } else {
        Ok(amount / pow10((normalized - token_decimals) as nat))
    }
}

/// What rounding to a token's precision returns: `amount` in the normalized
/// precision, as a multiple of the smallest amount that the token can hold;
/// and `TokenDecimalsTooLarge` where the token has more decimals than the
/// normalized precision.
pub open spec fn to_token_precision_spec(
    amount: nat,
    token_decimals: nat,
    normalized: nat,
    bankers_rounding: bool,
) -> Result<nat, UD60x18Error> {
    if token_decimals == normalized {
        Ok(amount)
    } else if token_decimals > normalized {
        Err(UD60x18Error::TokenDecimalsTooLarge(token_decimals as u8, normalized as u8))
    } else {
        let diff = (normalized - token_decimals) as nat;
        if bankers_rounding {
            Ok(bankers_round_spec(amount, diff))
        } else {
            Ok((amount / pow10(diff)) * pow10(diff))
        }
    }
}

/// Whether banker's rounding of `amount` to the token's precision stays
/// within 256 bits.
pub open spec fn rounding_fits(amount: nat, token_decimals: nat, normalized: nat) -> bool {
    token_decimals < normalized ==> amount + rounding_increment(
        amount,
        (normalized - token_decimals) as nat,
    ) < two_256()
}

/// An amount in a token's precision, in the normalized precision.
pub fn normalize_amount(amount: U256, token_decimals: u8, normalized: u8) -> (r: Result<
    U256,
    UD60x18Error,
>)
    requires
        token_decimals <= 77,
        normalized <= 77,
    ensures
        agrees(r, normalize_spec(amount@, token_decimals as nat, normalized as nat)),
{
    if token_decimals == normalized {
        Ok(amount)
    } else {
        muldiv(amount, exp10(normalized), exp10(token_decimals))
    }
}

/// A normalized amount in a token's precision.
pub fn denormalize_amount(
    amount: U256,
    token_decimals: u8,
    normalized: u8,
    bankers_rounding: bool,
) -> (r: Result<U256, UD60x18Error>)
    requires
        normalized <= 77,
        bankers_rounding ==> rounding_fits(amount@, token_decimals as nat, normalized as nat),
        !bankers_rounding ==> token_decimals <= normalized,
    ensures
        agrees(
            r,
            denormalize_spec(amount@, token_decimals as nat, normalized as nat, bankers_rounding),
        ),
{
    if token_decimals == normalized {
        Ok(amount)
    } else if bankers_rounding {
        if token_decimals > normalized {
            return Err(UD60x18Error::TokenDecimalsTooLarge(token_decimals, normalized));
        }
        let precision_diff = normalized - token_decimals;
        proof {
            lemma_pow10_bounds(precision_diff as nat, precision_diff as nat);
        }
        Ok(bankers_round(amount, precision_diff).div(exp10(precision_diff)))
    } else {
        proof {
            lemma_pow10_bounds(
                (normalized - token_decimals) as nat,
                (normalized - token_decimals) as nat,
            );
        }
        Ok(amount.div(exp10(normalized - token_decimals)))
    }
}

/// A normalized amount with the precision that the token cannot hold
/// rounded or cut off.
pub fn normalize_amount_to_precision(
    amount: U256,
    token_decimals: u8,
    normalized: u8,
    bankers_rounding: bool,
) -> (r: Result<U256, UD60x18Error>)
    requires
        normalized <= 77,
        bankers_rounding ==> rounding_fits(amount@, token_decimals as nat, normalized as nat),
    ensures
        agrees(
            r,
            to_token_precision_spec(
                amount@,
                token_decimals as nat,
                normalized as nat,
                bankers_rounding,
            ),
        ),
{
    if token_decimals == normalized {
        Ok(amount)
    } else {
        if token_decimals > normalized {
            return Err(UD60x18Error::TokenDecimalsTooLarge(token_decimals, normalized));
        }
        let precision_diff = normalized - token_decimals;
        if bankers_rounding {
            Ok(bankers_round(amount, precision_diff))
        } else {
            let precision = exp10(precision_diff);
            proof {
                lemma_pow10_bounds(precision_diff as nat, precision_diff as nat);
                lemma_fundamental_div_mod(amount@ as int, precision@ as int);
                assert((amount@ / precision@) * precision@ == precision@ * (amount@
                    / precision@)) by (nonlinear_arith);
            }
            let truncated = amount.div(precision);
            Ok(truncated.mul(precision))
        }
    }
}

/// A token with its own number of decimals, whose amounts are rescaled to
/// and from a normalized precision.
pub trait TokenMath {
    /// The number of decimals of normalized amounts.
    const NORMALIZED_PRECISION: u8;

    /// Whether amounts are rounded half-to-even where precision is lost;
    /// they are cut off otherwise.
    const BANKERS_ROUNDING_ENABLED: bool;

    /// The token's own number of decimals.
    spec fn token_decimals_spec(&self) -> u8;

    /// The token's own number of decimals.
    fn token_decimals(&self) -> (r: u8)
        ensures
            r == self.token_decimals_spec(),
    ;

    /// An amount with `token_decimals` decimals, in the normalized
    /// precision.
    fn normalize_amount_from_any_utokens(amount: U256, token_decimals: u8) -> (r: Result<
        U256,
        UD60x18Error,
    >)
        requires
            token_decimals <= 77,
            Self::NORMALIZED_PRECISION <= 77,
        ensures
            agrees(
                r,
                normalize_spec(amount@, token_decimals as nat, Self::NORMALIZED_PRECISION as nat),
            ),
    {
        normalize_amount(amount, token_decimals, Self::NORMALIZED_PRECISION)
    }

    /// A normalized amount, with `token_decimals` decimals.
    fn denormalize_amount_to_any_utokens(amount: U256, token_decimals: u8) -> (r: Result<
        U256,
        UD60x18Error,
    >)
        requires
            Self::NORMALIZED_PRECISION <= 77,
            Self::BANKERS_ROUNDING_ENABLED ==> rounding_fits(
                amount@,
                token_decimals as nat,
                Self::NORMALIZED_PRECISION as nat,
            ),
            !Self::BANKERS_ROUNDING_ENABLED ==> token_decimals <= Self::NORMALIZED_PRECISION,
        ensures
            agrees(
                r,
                denormalize_spec(
                    amount@,
                    token_decimals as nat,
                    Self::NORMALIZED_PRECISION as nat,
                    Self::BANKERS_ROUNDING_ENABLED,
                ),
            ),
    {
        denormalize_amount(
            amount,
            token_decimals,
            Self::NORMALIZED_PRECISION,
            Self::BANKERS_ROUNDING_ENABLED,
        )
    }

    /// A normalized amount with the precision beyond `token_decimals`
    /// decimals rounded or cut off.
    fn normalize_amount_to_any_token_precision(amount: U256, token_decimals: u8) -> (r: Result<
        U256,
        UD60x18Error,
    >)
        requires
            Self::NORMALIZED_PRECISION <= 77,
            Self::BANKERS_ROUNDING_ENABLED ==> rounding_fits(
                amount@,
                token_decimals as nat,
                Self::NORMALIZED_PRECISION as nat,
            ),
        ensures
            agrees(
                r,
                to_token_precision_spec(
                    amount@,
                    token_decimals as nat,
                    Self::NORMALIZED_PRECISION as nat,
                    Self::BANKERS_ROUNDING_ENABLED,
                ),
            ),
    {
        normalize_amount_to_precision(
            amount,
            token_decimals,
            Self::NORMALIZED_PRECISION,
            Self::BANKERS_ROUNDING_ENABLED,
        )
    }

    /// An amount in the token's precision, in the normalized precision.
    fn normalize_amount_from_utokens(&self, amount: U256) -> (r: Result<U256, UD60x18Error>)
        requires
            self.token_decimals_spec() <= 77,
            Self::NORMALIZED_PRECISION <= 77,
        ensures
            agrees(
                r,
                normalize_spec(
                    amount@,
                    self.token_decimals_spec() as nat,
                    Self::NORMALIZED_PRECISION as nat,
                ),
            ),
    {
        Self::normalize_amount_from_any_utokens(amount, self.token_decimals())
    }

    /// A normalized amount in the token's precision.
    fn denormalize_amount_to_utokens(&self, amount: U256) -> (r: Result<U256, UD60x18Error>)
        requires
            Self::NORMALIZED_PRECISION <= 77,
            Self::BANKERS_ROUNDING_ENABLED ==> rounding_fits(
                amount@,
                self.token_decimals_spec() as nat,
                Self::NORMALIZED_PRECISION as nat,
            ),
            !Self::BANKERS_ROUNDING_ENABLED ==> self.token_decimals_spec()
                <= Self::NORMALIZED_PRECISION,
        ensures
            agrees(
                r,
                denormalize_spec(
                    amount@,
                    self.token_decimals_spec() as nat,
                    Self::NORMALIZED_PRECISION as nat,
                    Self::BANKERS_ROUNDING_ENABLED,
                ),
            ),
    {
        Self::denormalize_amount_to_any_utokens(amount, self.token_decimals())
    }

    /// A normalized amount with the precision that the token cannot hold
    /// rounded or cut off.
    fn normalize_amount_to_token_precision(&self, amount: U256) -> (r: Result<
        U256,
        UD60x18Error,
    >)
        requires
            Self::NORMALIZED_PRECISION <= 77,
            Self::BANKERS_ROUNDING_ENABLED ==> rounding_fits(
                amount@,
                self.token_decimals_spec() as nat,
                Self::NORMALIZED_PRECISION as nat,
            ),
        ensures
            agrees(
                r,
                to_token_precision_spec(
                    amount@,
                    self.token_decimals_spec() as nat,
                    Self::NORMALIZED_PRECISION as nat,
                    Self::BANKERS_ROUNDING_ENABLED,
                ),
            ),
    {
        Self::normalize_amount_to_any_token_precision(amount, self.token_decimals())
    }
}

/// What the amount for a value returns: the value rescaled from its own
/// precision to the precision of the price, then as an amount at the unit
/// price.
pub open spec fn amount_from_value_spec(
    value: nat,
    price: nat,
    price_precision: nat,
    value_precision: nat,
    amount_precision: nat,
) -> Result<nat, UD60x18Error> {
    match muldiv_spec(value, pow10(price_precision), pow10(value_precision)) {
        Ok(normalized_value) => muldiv_spec(normalized_value, pow10(amount_precision), price),
        Err(e) => Err(e),
    }
}

/// Something with a unit price.
pub trait PriceMath {
    /// The number of decimals of the price.
    const PRICE_PRECISION: u8;

    /// The unit price.
    spec fn price_spec(&self) -> U256;

    /// The unit price.
    fn price(&self) -> (r: U256)
        ensures
            r == self.price_spec(),
    ;

    /// The value of `amount` at the unit price.
    fn calc_value_from_amount(&self, amount: U256) -> (r: Result<U256, UD60x18Error>)
        requires
            Self::PRICE_PRECISION <= 77,
        ensures
            agrees(
                r,
                muldiv_spec(amount@, self.price_spec()@, pow10(Self::PRICE_PRECISION as nat)),
            ),
    {
        let price_precision = exp10(Self::PRICE_PRECISION);
        muldiv(amount, self.price(), price_precision)
    }

    /// The amount that `value` buys at the unit price.
    fn calc_amount_from_value(&self, value: U256, value_precision: u8, amount_precision: u8) -> (r:
        Result<U256, UD60x18Error>)
        requires
            Self::PRICE_PRECISION <= 77,
            value_precision <= 77,
            amount_precision <= 77,
        ensures
            agrees(
                r,
                amount_from_value_spec(
                    value@,
                    self.price_spec()@,
                    Self::PRICE_PRECISION as nat,
                    value_precision as nat,
                    amount_precision as nat,
                ),
            ),
    {
        let price_precision = exp10(Self::PRICE_PRECISION);
        let value_precision = exp10(value_precision);
        let amount_precision = exp10(amount_precision);
        match muldiv(value, price_precision, value_precision) {
            Ok(normalized_value) => muldiv(normalized_value, amount_precision, self.price()),
            Err(e) => Err(e),
        }
    }
}

} // verus!
