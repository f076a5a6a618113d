//! Deterministic fixed-point arithmetic on 256-bit integers with 18 decimals.
//!
//! Every function is pure and carries a contract over mathematical integers;
//! the contracts are proved by Verus. The primitive 256-bit and 512-bit
//! operations are performed by `ethnum` and `primitive-types`.

pub mod asserter;
pub mod bits;
pub mod common;
pub mod constants;
pub mod error;
pub mod exp2;
pub mod i256;
pub mod modular;
pub mod muldiv;
pub mod primitives;
pub mod rebase;
pub mod roots;
pub mod sd59x18;
pub mod tens;
pub mod token;
pub mod u256;
pub mod ud60x18;
pub mod wide;

pub use asserter::MathAsserter;
pub use error::{SD59x18Error, UD60x18Error};
pub use i256::I256;
pub use primitives::Asm;
pub use tens::exp10;
pub use u256::U256;
pub use wide::U512;
