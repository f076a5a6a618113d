//! Binary exponentiation by the binary fraction method.
//!
//! The exponent is an unsigned 192.64-bit fixed-point number. The power of
//! its fractional part is the product, over the bits that are set, of the
//! constants `2^(2^-k)`; each product is cut back to 64 fractional bits. The
//! integer part is a shift.

use vstd::prelude::*;
use vstd::arithmetic::power2::{pow2, lemma2_to64};
use vstd::arithmetic::div_mod::{lemma_div_is_ordered, lemma_fundamental_div_mod};
use vstd::bits::lemma_u64_shr_is_div;
use crate::bits::{lemma_pow2_increases, lemma_pow2_values};
use crate::muldiv::{unit, unit_nat};
use crate::u256::{two_256, U256};
use crate::wide::two_64;

verus! {

broadcast use vstd::array::group_array_axioms;

/// `2^(2^(i - 64))` as a 64.64-bit fixed-point number, for each bit `i` of
/// the fractional part of the exponent, lowest bit first.
pub const EXP2_FACTORS: [u128; 64] = [
    0x1_0000_0000_0000_0001, 0x1_0000_0000_0000_0001,
    0x1_0000_0000_0000_0003, 0x1_0000_0000_0000_0006,
    0x1_0000_0000_0000_000B, 0x1_0000_0000_0000_0016,
    0x1_0000_0000_0000_002C, 0x1_0000_0000_0000_0059,
    0x1_0000_0000_0000_00B1, 0x1_0000_0000_0000_0163,
    0x1_0000_0000_0000_02C6, 0x1_0000_0000_0000_058C,
    0x1_0000_0000_0000_0B17, 0x1_0000_0000_0000_162E,
    0x1_0000_0000_0000_2C5D, 0x1_0000_0000_0000_58B9,
    0x1_0000_0000_0000_B172, 0x1_0000_0000_0001_62E4,
    0x1_0000_0000_0002_C5C8, 0x1_0000_0000_0005_8B91,
    0x1_0000_0000_000B_1721, 0x1_0000_0000_0016_2E43,
    0x1_0000_0000_002C_5C86, 0x1_0000_0000_0058_B90C,
    0x1_0000_0000_00B1_7218, 0x1_0000_0000_0162_E430,
    0x1_0000_0000_02C5_C860, 0x1_0000_0000_058B_90C0,
    0x1_0000_0000_0B17_217F, 0x1_0000_0000_162E_42FF,
    0x1_0000_0000_2C5C_85FE, 0x1_0000_0000_58B9_0BFC,
    0x1_0000_0000_B172_17F8, 0x1_0000_0001_62E4_2FF1,
    0x1_0000_0002_C5C8_5FE3, 0x1_0000_0005_8B90_BFCE,
    0x1_0000_000B_1721_7FBB, 0x1_0000_0016_2E42_FFF0,
    0x1_0000_002C_5C86_01CC, 0x1_0000_0058_B90C_0B49,
    0x1_0000_00B1_7218_3551, 0x1_0000_0162_E430_E5A2,
    0x1_0000_02C5_C863_B73F, 0x1_0000_058B_90CF_1E6E,
    0x1_0000_0B17_21BC_FC9A, 0x1_0000_162E_43F4_F831,
    0x1_0000_2C5C_89D5_EC6D, 0x1_0000_58B9_1B5B_C9AE,
    0x1_0000_B172_5577_5C04, 0x1_0001_62E5_25EE_0547,
    0x1_0002_C5CC_37DA_9492, 0x1_0005_8BA0_1FB9_F96D,
    0x1_000B_175E_FFDC_76BA, 0x1_0016_2F39_0405_1FA1,
    0x1_002C_605E_2E8C_EC50, 0x1_0058_C86D_A1C0_9EA2,
    0x1_00B1_AFA5_ABCB_ED61, 0x1_0163_DA9F_B333_56D8,
    0x1_02C9_A3E7_7806_0EE7, 0x1_059B_0D31_5857_43AE,
    0x1_0B55_86CF_9890_F62A, 0x1_172B_83C7_D517_ADCE,
    0x1_306F_E0A3_1B71_52DF, 0x1_6A09_E667_F3BC_C909,
];

/// One half as a 192.64-bit fixed-point number shifted up by 128 bits, which
/// is where the product starts.
#[verifier::inline]
pub open spec fn exp2_start() -> nat {
    0x8000_0000_0000_0000_0000_0000_0000_0000_0000_0000_0000_0000nat
}

/// Whether bit `i` of `x` is set.
pub open spec fn bit_is_set(x: nat, i: nat) -> bool {
    (x / pow2(i)) % 2 == 1
}

/// The product after the bits 63 down to `i` of the fractional part `x`
/// have been taken in.
pub open spec fn exp2_frac(x: nat, i: nat) -> nat
    decreases 64 - i,
{
    if i >= 64 {
        exp2_start()
    } else {
        let prev = exp2_frac(x, i + 1);
        if bit_is_set(x, i) {
            (prev * EXP2_FACTORS[i as int] as nat) / two_64()
        } else {
            prev
        }
    }
}

/// The product after the bits 63 down to `i`, were all of them set: the
/// largest value that the product can have at that point.
pub open spec fn exp2_cap(i: nat) -> nat
    decreases 64 - i,
{
    if i >= 64 {
        exp2_start()
    } else {
        (exp2_cap(i + 1) * EXP2_FACTORS[i as int] as nat) / two_64()
    }
}

/// `2^x` for `x` an unsigned 192.64-bit fixed-point number below 192, as an
/// unsigned 60.18-decimal fixed-point number.
pub open spec fn exp2_spec(x: nat) -> nat {
    (exp2_frac(x % two_64(), 0) * unit_nat()) / pow2((191 - x / two_64()) as nat)
}

/// The largest product after the bits 63 down to 56.
proof fn lemma_exp2_cap_56()
    ensures
        exp2_cap(56) == 0xFF4E_CB59_511E_C8A5_58C9_BE41_595B_A1E4_A736_9FCB_32FE_67A6nat,
{
    assert(exp2_cap(64) == exp2_start());
    assert(exp2_cap(63) == 0xB504_F333_F9DE_6484_8000_0000_0000_0000_0000_0000_0000_0000nat);
    assert(exp2_cap(62) == 0xD744_FCCA_D69D_6AF4_B883_B071_BCE8_806B_8000_0000_0000_0000nat);
    assert(exp2_cap(61) == 0xEAC0_C6E7_DD24_392F_616E_A274_B71A_1258_819B_99FC_9D08_7C01nat);
    assert(exp2_cap(60) == 0xF525_7D15_2486_CC2D_7E10_1E5A_C09C_D919_14E0_C454_CEB9_14A1nat);
    assert(exp2_cap(59) == 0xFA83_B2DB_722A_033B_0D32_73BD_FBCD_0448_4378_6224_1D3A_3A35nat);
    assert(exp2_cap(58) == 0xFD3E_0C0C_F486_C175_1FE8_7BB4_71CF_D47C_5FCC_019B_617A_024Cnat);
    assert(exp2_cap(57) == 0xFE9E_115C_7B8F_884B_FFB9_1533_CE1B_A308_8989_B8CA_F985_4AE3nat);
    assert(exp2_cap(56) == 0xFF4E_CB59_511E_C8A5_58C9_BE41_595B_A1E4_A736_9FCB_32FE_67A6nat);
}

/// The largest product after the bits 63 down to 48.
proof fn lemma_exp2_cap_48()
    ensures
        exp2_cap(48) == 0xFFFF_4E8E_2587_9BF8_CD51_805A_163D_DC6B_D715_0831_7839_30AFnat,
{
    lemma_exp2_cap_56();
    assert(exp2_cap(55) == 0xFFA7_5652_1C8D_AED1_C8DB_E13B_F885_E66B_6D9B_0B9B_527F_0DD1nat);
    assert(exp2_cap(54) == 0xFFD3_A751_C0F7_E10B_9067_0241_BA49_3017_EB72_6B48_1F2E_951Cnat);
    assert(exp2_cap(53) == 0xFFE9_D2B2_F7DB_2755_71E3_6B55_EFE9_2106_53E0_E9BE_1A8C_EB5Cnat);
    assert(exp2_cap(52) == 0xFFF4_E91B_FF1B_8C3C_E342_4F81_CFFB_F015_3341_3387_9AE5_FEFAnat);
    assert(exp2_cap(51) == 0xFFFA_747E_A004_0663_11F2_A231_89C9_5E95_1C0C_B096_B797_A290nat);
    assert(exp2_cap(50) == 0xFFFD_3A3B_7814_EB52_EB3C_DF5F_218B_2500_E065_C2CD_CA4C_8721nat);
    assert(exp2_cap(49) == 0xFFFE_9D1C_C60D_DAAF_F05F_0322_355C_E2F4_2392_2DA2_C943_F657nat);
    assert(exp2_cap(48) == 0xFFFF_4E8E_2587_9BF8_CD51_805A_163D_DC6B_D715_0831_7839_30AFnat);
}

/// The largest product after the bits 63 down to 40.
proof fn lemma_exp2_cap_40()
    ensures
        exp2_cap(40) == 0xFFFF_FF4E_8DE8_45AD_47CB_8DC8_5F12_DE6F_0BB3_8E1D_082B_280Bnat,
{
    lemma_exp2_cap_48();
    assert(exp2_cap(47) == 0xFFFF_A747_0363_F44F_E8A0_6277_24FD_85FD_D918_CAFD_8B5E_4745nat);
    assert(exp2_cap(46) == 0xFFFF_D3A3_7DDA_0312_2B7F_EB6F_F050_75C8_4E39_CA01_A006_C5D2nat);
    assert(exp2_cap(45) == 0xFFFF_E9D1_BDF7_03AD_DBB1_EF3F_B7F0_83B5_58F4_C777_46A9_7BEFnat);
    assert(exp2_cap(44) == 0xFFFF_F4E8_DEBE_025D_33AD_345A_A56B_60B2_6F47_2295_4B34_27D0nat);
    assert(exp2_cap(43) == 0xFFFF_FA74_6F4F_A14F_DF29_D21A_66D6_B9C0_2C5F_6631_52D9_4D06nat);
    assert(exp2_cap(42) == 0xFFFF_FD3A_37A3_F8AF_F4B8_B45A_8ECE_615E_AE18_F196_FCAB_1A5Enat);
    assert(exp2_cap(41) == 0xFFFF_FE9D_1BD1_065A_3772_6283_3062_EF1C_B5DD_4EFB_4BAB_58A5nat);
    assert(exp2_cap(40) == 0xFFFF_FF4E_8DE8_45AD_47CB_8DC8_5F12_DE6F_0BB3_8E1D_082B_280Bnat);
}

/// The largest product after the bits 63 down to 32.
proof fn lemma_exp2_cap_32()
    ensures
        exp2_cap(32) == 0xFFFF_FFFF_4E8D_E808_49D8_5950_7EEA_D72B_3345_3279_4873_AA1Anat,
{
    lemma_exp2_cap_40();
    assert(exp2_cap(39) == 0xFFFF_FFA7_46F4_1376_CBD7_3015_FC47_62CF_646C_2622_A67D_834Enat);
    assert(exp2_cap(38) == 0xFFFF_FFD3_A37A_05E2_ECD8_C3D5_6546_A7F8_1987_3E29_79FF_0C3Bnat);
    assert(exp2_cap(37) == 0xFFFF_FFE9_D1BD_01FA_F518_FE19_D93A_0E0B_9919_A3D1_E1B8_DFDAnat);
    assert(exp2_cap(36) == 0xFFFF_FFF4_E8DE_80BF_F729_0746_27B7_C21D_71C1_E5B5_CA72_F751nat);
    assert(exp2_cap(35) == 0xFFFF_FFFA_746F_4050_77AD_08E8_07CE_0863_E6D1_0022_4042_E43Anat);
    assert(exp2_cap(34) == 0xFFFF_FFFD_3A37_A024_17CE_093B_A9A1_A500_CE71_B6F9_DD5E_901Enat);
    assert(exp2_cap(33) == 0xFFFF_FFFE_9D1B_D011_3FD6_494C_3776_239E_C4CE_F66B_4E07_2813nat);
    assert(exp2_cap(32) == 0xFFFF_FFFF_4E8D_E808_49D8_5950_7EEA_D72B_3345_3279_4873_AA1Anat);
}

/// The largest product after the bits 63 down to 24.
proof fn lemma_exp2_cap_24()
    ensures
        exp2_cap(24) == 0xFFFF_FFFF_FF4E_8DE7_F7D9_5B51_10BD_E005_9991_3768_4ED7_3542nat,
{
    lemma_exp2_cap_32();
    assert(exp2_cap(31) == 0xFFFF_FFFF_A746_F404_0C58_DD51_72F3_568C_66E0_04D6_A6B6_2A2Fnat);
    assert(exp2_cap(30) == 0xFFFF_FFFF_D3A3_7A01_FCF8_FE51_ABB3_42F4_5B0E_0EB2_5C40_7446nat);
    assert(exp2_cap(29) == 0xFFFF_FFFF_E9D1_BD00_F921_0691_B917_28C0_4012_B247_A2CE_B6F0nat);
    assert(exp2_cap(28) == 0xFFFF_FFFF_F4E8_DE7F_F82B_08A1_C74B_D998_F359_5D43_5D93_45E9nat);
    assert(exp2_cap(27) == 0xFFFF_FFFF_FA74_6F3F_F7ED_8925_C26F_4BB4_2136_8822_A3A9_61D9nat);
    assert(exp2_cap(26) == 0xFFFF_FFFF_FD3A_379F_F7DE_2946_C12C_A23F_8302_F46F_2A6A_7B5Fnat);
    assert(exp2_cap(25) == 0xFFFF_FFFF_FE9D_1BCF_F7DA_514F_00D6_4A34_ED44_D577_7F1C_A20Cnat);
    assert(exp2_cap(24) == 0xFFFF_FFFF_FF4E_8DE7_F7D9_5B51_10BD_E005_9991_3768_4ED7_3542nat);
}

/// The largest product after the bits 63 down to 16.
proof fn lemma_exp2_cap_16()
    ensures
        exp2_cap(16) == 0xFFFF_FFFF_FFFF_4E8C_F7D9_0952_12B7_7495_01F9_293D_0205_4A60nat,
{
    lemma_exp2_cap_24();
    assert(exp2_cap(23) == 0xFFFF_FFFF_FFA7_46F3_F7D9_1DD1_94B6_5BB8_AE9C_D593_508E_8B6Anat);
    assert(exp2_cap(22) == 0xFFFF_FFFF_FFD3_A379_F7D9_0E71_B5B3_C5CF_90FF_5210_74B6_EFCAnat);
    assert(exp2_cap(21) == 0xFFFF_FFFF_FFE9_D1BC_F7D9_0A99_BDF2_C5EB_AD2C_25EC_5025_771Bnat);
    assert(exp2_cap(20) == 0xFFFF_FFFF_FFF4_E8DD_F7D9_09A3_C00D_6FDF_94B5_7D3D_1D59_97F0nat);
    assert(exp2_cap(19) == 0xFFFF_FFFF_FFFA_746E_F7D9_0966_408B_B268_FF12_9C87_6012_42DDnat);
    assert(exp2_cap(18) == 0xFFFF_FFFF_FFFD_3A36_F7D9_0956_E0AD_FD86_B7AA_252C_B252_6F52nat);
    assert(exp2_cap(17) == 0xFFFF_FFFF_FFFE_9D1A_F7D9_0953_08B5_D935_93E0_993D_65DC_8546nat);
    assert(exp2_cap(16) == 0xFFFF_FFFF_FFFF_4E8C_F7D9_0952_12B7_7495_01F9_293D_0205_4A60nat);
}

/// The largest product after the bits 63 down to 8.
proof fn lemma_exp2_cap_8()
    ensures
        exp2_cap(8) == 0xFFFF_FFFF_FFFF_FF4D_F7D9_0951_C0B7_C3EB_1301_84D8_14DA_C315nat,
{
    lemma_exp2_cap_16();
    assert(exp2_cap(15) == 0xFFFF_FFFF_FFFF_A745_F7D9_0951_D537_ADA6_B905_1BFB_98AB_C2BCnat);
    assert(exp2_cap(14) == 0xFFFF_FFFF_FFFF_D3A2_F7D9_0951_C5D7_78AB_1077_8F5B_9FBE_801Anat);
    assert(exp2_cap(13) == 0xFFFF_FFFF_FFFF_E9D0_F7D9_0951_C1FF_8140_4044_430D_B0D4_E241nat);
    assert(exp2_cap(12) == 0xFFFF_FFFF_FFFF_F4E7_F7D9_0951_C109_7DAC_D82A_9CBC_1957_41C9nat);
    assert(exp2_cap(11) == 0xFFFF_FFFF_FFFF_FA73_F7D9_0951_C0CB_F45F_A00A_4E36_D9FC_5C88nat);
    assert(exp2_cap(10) == 0xFFFF_FFFF_FFFF_FD39_F7D9_0951_C0BC_9201_03FA_26F3_8FA4_1DBDnat);
    assert(exp2_cap(9) == 0xFFFF_FFFF_FFFF_FE9C_F7D9_0951_C0B8_B963_B5F2_1351_D522_9525nat);
    assert(exp2_cap(8) == 0xFFFF_FFFF_FFFF_FF4D_F7D9_0951_C0B7_C3EB_1301_84D8_14DA_C315nat);
}

/// The largest product after the bits 63 down to 0.
proof fn lemma_exp2_cap_0()
    ensures
        exp2_cap(0) == 0xFFFF_FFFF_FFFF_FFFE_F7D9_0951_C0B7_717D_7010_F65E_53D0_EF0Bnat,
{
    lemma_exp2_cap_8();
    assert(exp2_cap(7) == 0xFFFF_FFFF_FFFF_FFA6_F7D9_0951_C0B7_8606_3D75_C244_14BD_DFCEnat);
    assert(exp2_cap(6) == 0xFFFF_FFFF_FFFF_FFD2_F7D9_0951_C0B7_76B8_D6C3_5C51_3448_E8E0nat);
    assert(exp2_cap(5) == 0xFFFF_FFFF_FFFF_FFE8_F7D9_0951_C0B7_72DA_236A_2957_C40D_1CC2nat);
    assert(exp2_cap(4) == 0xFFFF_FFFF_FFFF_FFF3_F7D9_0951_C0B7_71DC_C9BD_8FDB_0BEF_0C21nat);
    assert(exp2_cap(3) == 0xFFFF_FFFF_FFFF_FFF9_F7D9_0951_C0B7_7194_98D3_C7C5_903B_B74Dnat);
    assert(exp2_cap(2) == 0xFFFF_FFFF_FFFF_FFFC_F7D9_0951_C0B7_7182_805E_E3BA_D262_0C0Anat);
    assert(exp2_cap(1) == 0xFFFF_FFFF_FFFF_FFFD_F7D9_0951_C0B7_717F_7837_ED0C_9319_7D8Cnat);
    assert(exp2_cap(0) == 0xFFFF_FFFF_FFFF_FFFE_F7D9_0951_C0B7_717D_7010_F65E_53D0_EF0Bnat);
}

/// With every bit set the product stays below 2^192.
pub proof fn lemma_exp2_cap_value()
    ensures
        exp2_cap(0) < 0x1_0000_0000_0000_0000_0000_0000_0000_0000_0000_0000_0000_0000nat,
{
    lemma_exp2_cap_0();
}

/// Every constant is at least one, so the product never shrinks, and it is
/// below 2^65.
pub proof fn lemma_exp2_factor_bounds(i: nat)
    requires
        i < 64,
    ensures
        two_64() <= EXP2_FACTORS[i as int] < 2 * two_64(),
{
}

/// The product grows as more bits are taken in, and it is largest where
/// every bit is set.
pub proof fn lemma_exp2_frac_bounds(x: nat, i: nat)
    requires
        i <= 64,
    ensures
        exp2_start() <= exp2_frac(x, i) <= exp2_cap(i),
        exp2_cap(i) <= exp2_cap(0),
    decreases 64 - i,
{
    if i < 64 {
        lemma_exp2_frac_bounds(x, i + 1);
        lemma_exp2_factor_bounds(i);
        let f = EXP2_FACTORS[i as int] as nat;
        let prev = exp2_frac(x, i + 1);
        let cap = exp2_cap(i + 1);
        assert(prev * two_64() <= prev * f <= cap * f) by (nonlinear_arith)
            requires
                two_64() <= f,
                prev <= cap,
        ;
        lemma_div_is_ordered((prev * two_64()) as int, (prev * f) as int, two_64() as int);
        lemma_div_is_ordered((prev * f) as int, (cap * f) as int, two_64() as int);
        assert((prev * two_64()) / two_64() == prev);
    }
    if i > 0 {
        lemma_exp2_cap_step_down(i);
    }
}

/// The largest product at bit `i` is not above the largest product at bit 0.
proof fn lemma_exp2_cap_step_down(i: nat)
    requires
        i <= 64,
    ensures
        exp2_cap(i) <= exp2_cap(0),
    decreases i,
{
    if i > 0 {
        lemma_exp2_cap_step_down((i - 1) as nat);
        lemma_exp2_factor_bounds((i - 1) as nat);
        let f = EXP2_FACTORS[(i - 1) as int] as nat;
        let cap = exp2_cap(i);
        assert(cap * two_64() <= cap * f) by (nonlinear_arith)
            requires
                two_64() <= f,
        ;
        lemma_div_is_ordered((cap * two_64()) as int, (cap * f) as int, two_64() as int);
        assert((cap * two_64()) / two_64() == cap);
    }
}

/// A power of two with an exponent below 192 is at least one and below
/// 2^192.
pub proof fn lemma_exp2_spec_bounds(x: nat)
    requires
        x < 192 * two_64(),
    ensures
        unit_nat() <= exp2_spec(x)
            < 0x1_0000_0000_0000_0000_0000_0000_0000_0000_0000_0000_0000_0000nat * unit_nat(),
{
    let acc = exp2_frac(x % two_64(), 0);
    let shift = (191 - x / two_64()) as nat;
    let p = pow2(shift);
    lemma_exp2_frac_bounds(x % two_64(), 0);
    lemma_exp2_cap_value();
    lemma_pow2_values();
    lemma_pow2_increases(shift, 191);
    assert(p * unit_nat() <= acc * unit_nat()) by (nonlinear_arith)
        requires
            p <= acc,
    ;
    lemma_div_is_ordered((p * unit_nat()) as int, (acc * unit_nat()) as int, p as int);
    vstd::arithmetic::div_mod::lemma_div_multiples_vanish(unit_nat() as int, p as int);
    assert(p * unit_nat() == unit_nat() * p) by (nonlinear_arith);
    vstd::arithmetic::div_mod::lemma_div_nonincreasing((acc * unit_nat()) as int, p as int);
}

/// A power of two lies between the powers of two of the whole numbers
/// around its exponent: `2^floor(x) <= 2^x < 2^(floor(x) + 1)`.
pub proof fn lemma_exp2_spec_bracket(x: nat)
    requires
        x < 192 * two_64(),
    ensures
        pow2(x / two_64()) * unit_nat() <= exp2_spec(x) < 2 * pow2(x / two_64()) * unit_nat(),
{
    let whole = x / two_64();
    let acc = exp2_frac(x % two_64(), 0);
    let shift = (191 - whole) as nat;
    let q = pow2(shift);
    let p = pow2(whole);
    lemma_exp2_frac_bounds(x % two_64(), 0);
    lemma_exp2_cap_value();
    lemma_pow2_values();
    vstd::arithmetic::power2::lemma_pow2_adds(whole, shift);
    vstd::arithmetic::power2::lemma_pow2_pos(shift);
    vstd::arithmetic::power2::lemma_pow2_pos(whole);
    // 2^191 = p * q and 2^192 = 2 * p * q
    assert(acc * unit_nat() >= (p * unit_nat()) * q) by (nonlinear_arith)
        requires
            acc >= p * q,
    ;
    assert(acc * unit_nat() < q * ((2 * p) * unit_nat())) by (nonlinear_arith)
        requires
            acc < 2 * (p * q),
    ;
    assert((p * unit_nat()) * q == q * (p * unit_nat())) by (nonlinear_arith);
    lemma_div_is_ordered(((p * unit_nat()) * q) as int, (acc * unit_nat()) as int, q as int);
    vstd::arithmetic::div_mod::lemma_div_multiples_vanish((p * unit_nat()) as int, q as int);
    vstd::arithmetic::div_mod::lemma_multiply_divide_lt(
        (acc * unit_nat()) as int,
        q as int,
        ((2 * p) * unit_nat()) as int,
    );
    assert((2 * p) * unit_nat() == 2 * p * unit_nat()) by (nonlinear_arith);
}

/// `2^x` for `x` an unsigned 192.64-bit fixed-point number below 192, as an
/// unsigned 60.18-decimal fixed-point number.
pub fn exp2(x: U256) -> (r: U256)
    requires
        x@ < 192 * two_64(),
    ensures
        r@ == exp2_spec(x@),
{
    let fraction: u64 = (x.lo % 0x1_0000_0000_0000_0000u128) as u64;
    let whole: u32 = (x.lo / 0x1_0000_0000_0000_0000u128) as u32;
    assert(x.hi == 0 && fraction == x@ % two_64() && whole == x@ / two_64());
    // one half, shifted up by 128 bits
    let mut result = U256::from_words(0x8000_0000_0000_0000u128, 0);
    let mut i: u64 = 64;
    while i > 0
        invariant
            i <= 64,
            result@ == exp2_frac(fraction as nat, i as nat),
        decreases i,
    {
        i = i - 1;
        let shifted = fraction >> i;
        proof {
            lemma2_to64();
            lemma_u64_shr_is_div(fraction, i);
            assert((shifted & 1 == 1) == (shifted % 2 == 1)) by (bit_vector);
        }
        if shifted & 1 == 1 {
            let factor = U256::new(EXP2_FACTORS[i as usize]);
            proof {
                let prev = result@;
                let cap = exp2_cap((i + 1) as nat);
                let f = factor@;
                lemma_exp2_frac_bounds(fraction as nat, (i + 1) as nat);
                lemma_exp2_frac_bounds(fraction as nat, i as nat);
                lemma_exp2_cap_value();
                lemma_fundamental_div_mod((cap * f) as int, two_64() as int);
                assert(prev * f <= cap * f) by (nonlinear_arith)
                    requires
                        prev <= cap,
                ;
            }
            result = result.mul(factor).shr(64);
        }
    }
    proof {
        lemma_exp2_frac_bounds(fraction as nat, 0);
        lemma_exp2_cap_value();
        assert(result@ * unit_nat() < two_256()) by (nonlinear_arith)
            requires
                result@ < 0x1_0000_0000_0000_0000_0000_0000_0000_0000_0000_0000_0000_0000nat,
        ;
    }
    result = result.mul(unit());
    result.shr(191 - whole)
}

} // verus!
