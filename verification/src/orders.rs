//! The orders of the multipliers of the multiply-with-carry generators.
//!
//! A multiplier `a` with the base `b` and the modulus `m = a * b - 1` runs
//! through a cycle of `p = (a * b) / 2 - 1` states. That `a^p` is 1 modulo
//! `m` is shown here by tables of powers: each line squares the power
//! before it or multiplies it by `a` once more, up to `a^(p + 1)`, which
//! comes out as `a` itself. With it, a jump of these generators is exact
//! for every count, forwards and backwards.

use vstd::prelude::*;
use vstd::arithmetic::power::{lemma_pow1, pow};
use vstd::arithmetic::div_mod::lemma_small_mod;
use crate::arith::{
    lemma_congruent_product, lemma_pow_mod_periodic, lemma_pow_mod_round_trip,
    lemma_pow_order_from_next, lemma_pow_table_next, lemma_pow_table_square,
};
use crate::mwc::{
    lemma_mwc64_jumped, lemma_mwc64_steps, lemma_mwc_pair_jumped_valid, lemma_mwc_pair_steps,
    lemma_mwc_steps, mwc64_jumped, mwc64_steps, mwc64_valid, mwc_pair_jumped, mwc_pair_steps,
    mwc_valid, MwcState, MWC64_CYCLE_LEN, MWC64_MODULO, MWC64_MULT, MWC_LOWER_CYCLE_LEN,
    MWC_LOWER_MODULO, MWC_LOWER_MULT, MWC_UPPER_CYCLE_LEN, MWC_UPPER_MODULO, MWC_UPPER_MULT,
};

verus! {

/// The multiplier of the upper half of MWC1 and MWC2 has the order of the
/// length of its cycle: power `MWC_UPPER_CYCLE_LEN` of `MWC_UPPER_MULT` is 1
/// modulo `MWC_UPPER_MODULO`.
pub proof fn lemma_mwc_upper_order()
    ensures
        pow(MWC_UPPER_MULT as int, MWC_UPPER_CYCLE_LEN as nat) % (MWC_UPPER_MODULO as int) == 1,
{
    let a = MWC_UPPER_MULT as int;
    let m = MWC_UPPER_MODULO as int;
    lemma_pow1(a);
    lemma_pow_table_square(a, m, 0x1, 0x9069, 0x5176_4B11);
    lemma_pow_table_square(a, m, 0x2, 0x5176_4B11, 0x60B4_EADF);
    lemma_pow_table_square(a, m, 0x4, 0x60B4_EADF, 0x3EA7_51F1);
    lemma_pow_table_next(a, m, 0x8, 0x3EA7_51F1, 0x2E39_6A80);
    lemma_pow_table_square(a, m, 0x9, 0x2E39_6A80, 0x7205_02CD);
    lemma_pow_table_square(a, m, 0x12, 0x7205_02CD, 0x67E0_22D9);
    lemma_pow_table_square(a, m, 0x24, 0x67E0_22D9, 0x5F21_52BE);
    lemma_pow_table_square(a, m, 0x48, 0x5F21_52BE, 0x47B7_0482);
    lemma_pow_table_square(a, m, 0x90, 0x47B7_0482, 0x2F8A_838F);
    lemma_pow_table_square(a, m, 0x120, 0x2F8A_838F, 0x883C_4D43);
    lemma_pow_table_next(a, m, 0x240, 0x883C_4D43, 0x2B95_E8B7);
    lemma_pow_table_square(a, m, 0x241, 0x2B95_E8B7, 0x2338_DB2A);
    lemma_pow_table_next(a, m, 0x482, 0x2338_DB2A, 0x7BA1_A772);
    lemma_pow_table_square(a, m, 0x483, 0x7BA1_A772, 0x405E_9FAF);
    lemma_pow_table_square(a, m, 0x906, 0x405E_9FAF, 0x2BEE_0F33);
    lemma_pow_table_next(a, m, 0x120C, 0x2BEE_0F33, 0x0893_17D9);
    lemma_pow_table_square(a, m, 0x120D, 0x0893_17D9, 0x1F8A_0C40);
    lemma_pow_table_square(a, m, 0x241A, 0x1F8A_0C40, 0x0095_7044);
    lemma_pow_table_square(a, m, 0x4834, 0x0095_7044, 0x3320_2CB4);
    lemma_pow_table_next(a, m, 0x9068, 0x3320_2CB4, 0x1937_C8F4);
    lemma_pow_table_square(a, m, 0x9069, 0x1937_C8F4, 0x70CD_8340);
    lemma_pow_table_square(a, m, 0x0001_20D2, 0x70CD_8340, 0x742F_96F8);
    lemma_pow_table_square(a, m, 0x0002_41A4, 0x742F_96F8, 0x36A3_E9FE);
    lemma_pow_table_square(a, m, 0x0004_8348, 0x36A3_E9FE, 0x5813_EEE9);
    lemma_pow_table_square(a, m, 0x0009_0690, 0x5813_EEE9, 0x751F_606E);
    lemma_pow_table_square(a, m, 0x0012_0D20, 0x751F_606E, 0x3A5C_6F1C);
    lemma_pow_table_square(a, m, 0x0024_1A40, 0x3A5C_6F1C, 0x6A82_3B75);
    lemma_pow_table_square(a, m, 0x0048_3480, 0x6A82_3B75, 0x269F_293B);
    lemma_pow_table_square(a, m, 0x0090_6900, 0x269F_293B, 0x514D_3846);
    lemma_pow_table_square(a, m, 0x0120_D200, 0x514D_3846, 0x4A51_5BBB);
    lemma_pow_table_square(a, m, 0x0241_A400, 0x4A51_5BBB, 0x4834_8000);
    lemma_pow_table_square(a, m, 0x0483_4800, 0x4834_8000, 0x241A_4000);
    lemma_pow_table_square(a, m, 0x0906_9000, 0x241A_4000, 0x0906_9000);
    lemma_pow_table_square(a, m, 0x120D_2000, 0x0906_9000, 0x0090_6900);
    lemma_pow_table_square(a, m, 0x241A_4000, 0x0090_6900, 0x9069);
    lemma_pow_order_from_next(a, 0x1_0000, MWC_UPPER_CYCLE_LEN as nat, m);
}

/// The multiplier of the lower half of MWC1 and MWC2 has the order of the
/// length of its cycle: power `MWC_LOWER_CYCLE_LEN` of `MWC_LOWER_MULT` is 1
/// modulo `MWC_LOWER_MODULO`.
pub proof fn lemma_mwc_lower_order()
    ensures
        pow(MWC_LOWER_MULT as int, MWC_LOWER_CYCLE_LEN as nat) % (MWC_LOWER_MODULO as int) == 1,
{
    let a = MWC_LOWER_MULT as int;
    let m = MWC_LOWER_MODULO as int;
    lemma_pow1(a);
    lemma_pow_table_square(a, m, 0x1, 0x4650, 0x134F_D900);
    lemma_pow_table_square(a, m, 0x2, 0x134F_D900, 0x3E6E_DE49);
    lemma_pow_table_square(a, m, 0x4, 0x3E6E_DE49, 0x1A1E_790E);
    lemma_pow_table_square(a, m, 0x8, 0x1A1E_790E, 0x0B3A_10F4);
    lemma_pow_table_next(a, m, 0x10, 0x0B3A_10F4, 0x04A8_0F7A);
    lemma_pow_table_square(a, m, 0x11, 0x04A8_0F7A, 0x321E_7808);
    lemma_pow_table_next(a, m, 0x22, 0x321E_7808, 0x20F7_E49E);
    lemma_pow_table_square(a, m, 0x23, 0x20F7_E49E, 0x0DB3_23ED);
    lemma_pow_table_square(a, m, 0x46, 0x0DB3_23ED, 0x32C3_FF37);
    lemma_pow_table_square(a, m, 0x8C, 0x32C3_FF37, 0x15BF_B95B);
    lemma_pow_table_next(a, m, 0x118, 0x15BF_B95B, 0x32E8_E42F);
    lemma_pow_table_square(a, m, 0x119, 0x32E8_E42F, 0x1B10_360F);
    lemma_pow_table_square(a, m, 0x232, 0x1B10_360F, 0x0D45_011C);
    lemma_pow_table_next(a, m, 0x464, 0x0D45_011C, 0x004E_0E05);
    lemma_pow_table_square(a, m, 0x465, 0x004E_0E05, 0x13F0_E2BF);
    lemma_pow_table_square(a, m, 0x8CA, 0x13F0_E2BF, 0x271D_8F99);
    lemma_pow_table_square(a, m, 0x1194, 0x271D_8F99, 0x1D88_EB9C);
    lemma_pow_table_square(a, m, 0x2328, 0x1D88_EB9C, 0x3F4F_C02F);
    lemma_pow_table_square(a, m, 0x4650, 0x3F4F_C02F, 0x175A_7D04);
    lemma_pow_table_square(a, m, 0x8CA0, 0x175A_7D04, 0x12FE_9752);
    lemma_pow_table_square(a, m, 0x0001_1940, 0x12FE_9752, 0x083B_6FC1);
    lemma_pow_table_square(a, m, 0x0002_3280, 0x083B_6FC1, 0x4155_AC7F);
    lemma_pow_table_square(a, m, 0x0004_6500, 0x4155_AC7F, 0x2E46_7791);
    lemma_pow_table_square(a, m, 0x0008_CA00, 0x2E46_7791, 0x2068_B978);
    lemma_pow_table_square(a, m, 0x0011_9400, 0x2068_B978, 0x40AE_DBFA);
    lemma_pow_table_square(a, m, 0x0023_2800, 0x40AE_DBFA, 0x047E_CA0A);
    lemma_pow_table_square(a, m, 0x0046_5000, 0x047E_CA0A, 0x34B5_5B1A);
    lemma_pow_table_square(a, m, 0x008C_A000, 0x34B5_5B1A, 0x1432_87EC);
    lemma_pow_table_square(a, m, 0x0119_4000, 0x1432_87EC, 0x2328_0000);
    lemma_pow_table_square(a, m, 0x0232_8000, 0x2328_0000, 0x1194_0000);
    lemma_pow_table_square(a, m, 0x0465_0000, 0x1194_0000, 0x0465_0000);
    lemma_pow_table_square(a, m, 0x08CA_0000, 0x0465_0000, 0x0046_5000);
    lemma_pow_table_square(a, m, 0x1194_0000, 0x0046_5000, 0x4650);
    lemma_pow_order_from_next(a, 0x1_0000, MWC_LOWER_CYCLE_LEN as nat, m);
}

/// The multiplier of MWC64 has the order of the length of its cycle: power
/// `MWC64_CYCLE_LEN` of `MWC64_MULT` is 1 modulo `MWC64_MODULO`.
pub proof fn lemma_mwc64_order()
    ensures
        pow(MWC64_MULT as int, MWC64_CYCLE_LEN as nat) % (MWC64_MODULO as int) == 1,
{
    let a = MWC64_MULT as int;
    let m = MWC64_MODULO as int;
    lemma_pow1(a);
    lemma_pow_table_square(a, m, 0x1, 0x29A6_5EAD, 0x06C6_B672_555F_80E9);
    lemma_pow_table_square(a, m, 0x2, 0x06C6_B672_555F_80E9, 0x1CEA_AD90_D0EE_C240);
    lemma_pow_table_next(a, m, 0x4, 0x1CEA_AD90_D0EE_C240, 0x21FE_0533_2F17_72D0);
    lemma_pow_table_square(a, m, 0x5, 0x21FE_0533_2F17_72D0, 0x1305_550A_B7C2_79B5);
    lemma_pow_table_square(a, m, 0xA, 0x1305_550A_B7C2_79B5, 0x0F57_B07E_055A_64EC);
    lemma_pow_table_square(a, m, 0x14, 0x0F57_B07E_055A_64EC, 0x04FC_06B4_FAE0_0538);
    lemma_pow_table_next(a, m, 0x28, 0x04FC_06B4_FAE0_0538, 0x28D0_EAE1_2A9A_1D8C);
    lemma_pow_table_square(a, m, 0x29, 0x28D0_EAE1_2A9A_1D8C, 0x15CD_1DA8_EFA5_0E87);
    lemma_pow_table_next(a, m, 0x52, 0x15CD_1DA8_EFA5_0E87, 0x26FD_2CFB_AE37_80E3);
    lemma_pow_table_square(a, m, 0x53, 0x26FD_2CFB_AE37_80E3, 0x14BB_F3A3_A8AB_EDC4);
    lemma_pow_table_square(a, m, 0xA6, 0x14BB_F3A3_A8AB_EDC4, 0x0E14_F000_EA55_2A16);
    lemma_pow_table_next(a, m, 0x14C, 0x0E14_F000_EA55_2A16, 0x261F_EDA0_7F5A_74DE);
    lemma_pow_table_square(a, m, 0x14D, 0x261F_EDA0_7F5A_74DE, 0x1D23_300D_D0C3_7BB4);
    lemma_pow_table_square(a, m, 0x29A, 0x1D23_300D_D0C3_7BB4, 0x0FE6_FD92_653E_20DB);
    lemma_pow_table_square(a, m, 0x534, 0x0FE6_FD92_653E_20DB, 0x220E_D7A6_6FD3_E673);
    lemma_pow_table_next(a, m, 0xA68, 0x220E_D7A6_6FD3_E673, 0x1231_9CAB_5C71_CD5D);
    lemma_pow_table_square(a, m, 0xA69, 0x1231_9CAB_5C71_CD5D, 0x0085_DF55_0516_940F);
    lemma_pow_table_next(a, m, 0x14D2, 0x0085_DF55_0516_940F, 0x00D3_EC3C_23DF_6F78);
    lemma_pow_table_square(a, m, 0x14D3, 0x00D3_EC3C_23DF_6F78, 0x13E2_5929_3E78_000F);
    lemma_pow_table_square(a, m, 0x29A6, 0x13E2_5929_3E78_000F, 0x22F7_34D3_F1A1_B752);
    lemma_pow_table_square(a, m, 0x534C, 0x22F7_34D3_F1A1_B752, 0x067F_543B_4DBD_8730);
    lemma_pow_table_next(a, m, 0xA698, 0x067F_543B_4DBD_8730, 0x0CA5_E04C_8057_4FAB);
    lemma_pow_table_square(a, m, 0xA699, 0x0CA5_E04C_8057_4FAB, 0x1F41_046A_B475_8170);
    lemma_pow_table_square(a, m, 0x0001_4D32, 0x1F41_046A_B475_8170, 0x1E19_7E1E_4EA8_CB74);
    lemma_pow_table_next(a, m, 0x0002_9A64, 0x1E19_7E1E_4EA8_CB74, 0x0CCC_2720_C217_9382);
    lemma_pow_table_square(a, m, 0x0002_9A65, 0x0CCC_2720_C217_9382, 0x2958_9068_3FC5_6E42);
    lemma_pow_table_next(a, m, 0x0005_34CA, 0x2958_9068_3FC5_6E42, 0x0A60_1043_D10C_4F02);
    lemma_pow_table_square(a, m, 0x0005_34CB, 0x0A60_1043_D10C_4F02, 0x0573_7904_F742_25BD);
    lemma_pow_table_next(a, m, 0x000A_6996, 0x0573_7904_F742_25BD, 0x283A_4861_2490_5FBD);
    lemma_pow_table_square(a, m, 0x000A_6997, 0x283A_4861_2490_5FBD, 0x194A_A5DA_8881_D778);
    lemma_pow_table_next(a, m, 0x0014_D32E, 0x194A_A5DA_8881_D778, 0x1635_822F_F5F7_51F2);
    lemma_pow_table_square(a, m, 0x0014_D32F, 0x1635_822F_F5F7_51F2, 0x05DA_7B43_EAF5_27FE);
    lemma_pow_table_square(a, m, 0x0029_A65E, 0x05DA_7B43_EAF5_27FE, 0x0759_B245_DBE8_3A29);
    lemma_pow_table_next(a, m, 0x0053_4CBC, 0x0759_B245_DBE8_3A29, 0x23C7_1B3A_303A_0DFA);
    lemma_pow_table_square(a, m, 0x0053_4CBD, 0x23C7_1B3A_303A_0DFA, 0x09D8_5A91_6767_A86B);
    lemma_pow_table_square(a, m, 0x00A6_997A, 0x09D8_5A91_6767_A86B, 0x1539_5CEE_63A8_9045);
    lemma_pow_table_next(a, m, 0x014D_32F4, 0x1539_5CEE_63A8_9045, 0x1036_C343_ECDA_318F);
    lemma_pow_table_square(a, m, 0x014D_32F5, 0x1036_C343_ECDA_318F, 0x1910_BAC5_B72B_DD50);
    lemma_pow_table_square(a, m, 0x029A_65EA, 0x1910_BAC5_B72B_DD50, 0x0CDA_B99F_9CB7_AEDF);
    lemma_pow_table_next(a, m, 0x0534_CBD4, 0x0CDA_B99F_9CB7_AEDF, 0x197F_4412_82CB_C852);
    lemma_pow_table_square(a, m, 0x0534_CBD5, 0x197F_4412_82CB_C852, 0x1279_365E_45BB_4B48);
    lemma_pow_table_next(a, m, 0x0A69_97AA, 0x1279_365E_45BB_4B48, 0x0B58_504B_505F_8606);
    lemma_pow_table_square(a, m, 0x0A69_97AB, 0x0B58_504B_505F_8606, 0x2869_2D7C_87B0_9265);
    lemma_pow_table_square(a, m, 0x14D3_2F56, 0x2869_2D7C_87B0_9265, 0x0684_603F_6BC2_984C);
    lemma_pow_table_next(a, m, 0x29A6_5EAC, 0x0684_603F_6BC2_984C, 0x1188_326D_3A39_339B);
    lemma_pow_table_square(a, m, 0x29A6_5EAD, 0x1188_326D_3A39_339B, 0x0526_41C2_34A7_432F);
    lemma_pow_table_square(a, m, 0x534C_BD5A, 0x0526_41C2_34A7_432F, 0x193B_C391_FC79_91E4);
    lemma_pow_table_square(a, m, 0xA699_7AB4, 0x193B_C391_FC79_91E4, 0x124F_BEBB_B9E1_050C);
    lemma_pow_table_square(a, m, 0x0001_4D32_F568, 0x124F_BEBB_B9E1_050C, 0x1A4C_BA13_0E39_4A43);
    lemma_pow_table_square(a, m, 0x0002_9A65_EAD0, 0x1A4C_BA13_0E39_4A43, 0x00B8_2E45_CD37_4643);
    lemma_pow_table_square(a, m, 0x0005_34CB_D5A0, 0x00B8_2E45_CD37_4643, 0x1B29_64EF_B4F9_CABA);
    lemma_pow_table_square(a, m, 0x000A_6997_AB40, 0x1B29_64EF_B4F9_CABA, 0x196C_F68C_3AED_FBEA);
    lemma_pow_table_square(a, m, 0x0014_D32F_5680, 0x196C_F68C_3AED_FBEA, 0x0761_6CEF_A6E8_E26A);
    lemma_pow_table_square(a, m, 0x0029_A65E_AD00, 0x0761_6CEF_A6E8_E26A, 0x03E9_71D2_7B66_3CEC);
    lemma_pow_table_square(a, m, 0x0053_4CBD_5A00, 0x03E9_71D2_7B66_3CEC, 0x27D2_01C6_CEE3_94F0);
    lemma_pow_table_square(a, m, 0x00A6_997A_B400, 0x27D2_01C6_CEE3_94F0, 0x091C_C64E_A0D4_F470);
    lemma_pow_table_square(a, m, 0x014D_32F5_6800, 0x091C_C64E_A0D4_F470, 0x0615_8A65_46B4_E468);
    lemma_pow_table_square(a, m, 0x029A_65EA_D000, 0x0615_8A65_46B4_E468, 0x24EC_3CFB_34E9_2AAD);
    lemma_pow_table_square(a, m, 0x0534_CBD5_A000, 0x24EC_3CFB_34E9_2AAD, 0x289E_94E7_C162_3DDB);
    lemma_pow_table_square(a, m, 0x0A69_97AB_4000, 0x289E_94E7_C162_3DDB, 0x142E_F8D4_BAFB_426E);
    lemma_pow_table_square(a, m, 0x14D3_2F56_8000, 0x142E_F8D4_BAFB_426E, 0x07E0_66DE_CDC5_8B6F);
    lemma_pow_table_square(a, m, 0x29A6_5EAD_0000, 0x07E0_66DE_CDC5_8B6F, 0x27C4_A256_184E_A5AE);
    lemma_pow_table_square(a, m, 0x534C_BD5A_0000, 0x27C4_A256_184E_A5AE, 0x1F25_2D82_7BF6_14C7);
    lemma_pow_table_square(a, m, 0xA699_7AB4_0000, 0x1F25_2D82_7BF6_14C7, 0x269E_961C_CD99_C9A5);
    lemma_pow_table_square(a, m, 0x0001_4D32_F568_0000, 0x269E_961C_CD99_C9A5, 0x00B4_BAFA_611B_437B);
    lemma_pow_table_square(a, m, 0x0002_9A65_EAD0_0000, 0x00B4_BAFA_611B_437B, 0x2944_71D2_C1A7_35AE);
    lemma_pow_table_square(a, m, 0x0005_34CB_D5A0_0000, 0x2944_71D2_C1A7_35AE, 0x176C_743C_A294_003C);
    lemma_pow_table_square(a, m, 0x000A_6997_AB40_0000, 0x176C_743C_A294_003C, 0x19ED_C75D_84D7_4A1E);
    lemma_pow_table_square(a, m, 0x0014_D32F_5680_0000, 0x19ED_C75D_84D7_4A1E, 0x0A1C_42E4_C94A_7121);
    lemma_pow_table_square(a, m, 0x0029_A65E_AD00_0000, 0x0A1C_42E4_C94A_7121, 0x215B_AF21_95A7_6447);
    lemma_pow_table_square(a, m, 0x0053_4CBD_5A00_0000, 0x215B_AF21_95A7_6447, 0x14D3_2F56_8000_0000);
    lemma_pow_table_square(a, m, 0x00A6_997A_B400_0000, 0x14D3_2F56_8000_0000, 0x0A69_97AB_4000_0000);
    lemma_pow_table_square(a, m, 0x014D_32F5_6800_0000, 0x0A69_97AB_4000_0000, 0x029A_65EA_D000_0000);
    lemma_pow_table_square(a, m, 0x029A_65EA_D000_0000, 0x029A_65EA_D000_0000, 0x0029_A65E_AD00_0000);
    lemma_pow_table_square(a, m, 0x0534_CBD5_A000_0000, 0x0029_A65E_AD00_0000, 0x29A6_5EAD_0000);
    lemma_pow_table_square(a, m, 0x0A69_97AB_4000_0000, 0x29A6_5EAD_0000, 0x29A6_5EAD);
    lemma_pow_order_from_next(a, 0x1_0000_0000, MWC64_CYCLE_LEN as nat, m);
}

/// A jump of MWC1 and MWC2 is exact for every count: it leads where as
/// many steps lead.
pub proof fn lemma_mwc_pair_jump_exact(s: MwcState, n: nat)
    requires
        mwc_valid(s),
    ensures
        mwc_pair_jumped(s, n as int) == mwc_pair_steps(s, n),
{
    lemma_mwc_pair_steps(s, n);
    lemma_mwc_steps(MWC_UPPER_MULT as nat, 0x1_0000, s.0 as nat, n);
    lemma_mwc_steps(MWC_LOWER_MULT as nat, 0x1_0000, s.1 as nat, n);
    lemma_mwc_upper_order();
    lemma_mwc_lower_order();
    lemma_half_jump_exact(
        MWC_UPPER_MULT as nat,
        MWC_UPPER_CYCLE_LEN as nat,
        MWC_UPPER_MODULO as nat,
        s.0 as nat,
        n,
    );
    lemma_half_jump_exact(
        MWC_LOWER_MULT as nat,
        MWC_LOWER_CYCLE_LEN as nat,
        MWC_LOWER_MODULO as nat,
        s.1 as nat,
        n,
    );
}

/// A jump of MWC1 and MWC2 back by `n` steps is undone by `n` steps.
pub proof fn lemma_mwc_pair_jump_back(s: MwcState, n: nat)
    requires
        mwc_valid(s),
    ensures
        mwc_pair_steps(mwc_pair_jumped(s, -(n as int)), n) == s,
{
    let back = mwc_pair_jumped(s, -(n as int));
    lemma_mwc_pair_jumped_valid(s, -(n as int));
    lemma_mwc_pair_steps(back, n);
    lemma_mwc_steps(MWC_UPPER_MULT as nat, 0x1_0000, back.0 as nat, n);
    lemma_mwc_steps(MWC_LOWER_MULT as nat, 0x1_0000, back.1 as nat, n);
    lemma_mwc_upper_order();
    lemma_mwc_lower_order();
    lemma_half_jump_back(
        MWC_UPPER_MULT as nat,
        MWC_UPPER_CYCLE_LEN as nat,
        MWC_UPPER_MODULO as nat,
        s.0 as nat,
        n,
    );
    lemma_half_jump_back(
        MWC_LOWER_MULT as nat,
        MWC_LOWER_CYCLE_LEN as nat,
        MWC_LOWER_MODULO as nat,
        s.1 as nat,
        n,
    );
}

/// A jump of MWC64 is exact for every count: it leads where as many steps
/// lead.
pub proof fn lemma_mwc64_jump_exact(s: u64, n: nat)
    requires
        mwc64_valid(s),
    ensures
        mwc64_jumped(s, n as int) == mwc64_steps(s, n),
{
    lemma_mwc64_steps(s, n);
    lemma_mwc_steps(MWC64_MULT as nat, 0x1_0000_0000, s as nat, n);
    assert(MWC64_MULT * 0x1_0000_0000 - 1 == MWC64_MODULO);
    lemma_mwc64_order();
    lemma_half_jump_exact(
        MWC64_MULT as nat,
        MWC64_CYCLE_LEN as nat,
        MWC64_MODULO as nat,
        s as nat,
        n,
    );
}

/// A jump of MWC64 back by `n` steps is undone by `n` steps.
pub proof fn lemma_mwc64_jump_back(s: u64, n: nat)
    requires
        mwc64_valid(s),
    ensures
        mwc64_steps(mwc64_jumped(s, -(n as int)), n) == s,
{
    let back = mwc64_jumped(s, -(n as int));
    lemma_mwc64_jumped(s, -(n as int));
    lemma_mwc64_steps(back, n);
    lemma_mwc_steps(MWC64_MULT as nat, 0x1_0000_0000, back as nat, n);
    assert(MWC64_MULT * 0x1_0000_0000 - 1 == MWC64_MODULO);
    lemma_mwc64_order();
    lemma_half_jump_back(
        MWC64_MULT as nat,
        MWC64_CYCLE_LEN as nat,
        MWC64_MODULO as nat,
        s as nat,
        n,
    );
}

/// With a multiplier `a` of the order `p` modulo `m`, multiplying by `a^n`
/// is multiplying by `a^(n % p)`.
proof fn lemma_half_jump_exact(a: nat, p: nat, m: nat, x: nat, n: nat)
    requires
        m > 1,
        p > 0,
        pow(a as int, p) % (m as int) == 1,
    ensures
        (pow(a as int, n % p) * x) % (m as int) == (pow(a as int, n) * x) % (m as int),
{
    lemma_small_mod(1, m);
    lemma_pow_mod_periodic(a as int, p, n, m as int);
    lemma_congruent_product(pow(a as int, n % p), pow(a as int, n), x as int, x as int, m as int);
}

/// With a multiplier `a` of the order `p` modulo `m`, multiplying by `a^k`
/// for `k = -n` modulo `p` and then by `a^n` gives back any `x` below `m`.
proof fn lemma_half_jump_back(a: nat, p: nat, m: nat, x: nat, n: nat)
    requires
        m > 1,
        p > 0,
        pow(a as int, p) % (m as int) == 1,
        x < m,
    ensures
        ({
            let k = ((-(n as int)) % (p as int)) as nat;
            let back = (pow(a as int, k) * x) % (m as int);
            (pow(a as int, n) * back) % (m as int) == x
        }),
{
    let k = ((-(n as int)) % (p as int)) as nat;
    vstd::arithmetic::div_mod::lemma_mod_bound(-(n as int), p as int);
    lemma_small_mod(0, p);
    vstd::arithmetic::div_mod::lemma_add_mod_noop(-(n as int), n as int, p as int);
    vstd::arithmetic::div_mod::lemma_mod_twice(n as int, p as int);
    vstd::arithmetic::div_mod::lemma_add_mod_noop_right(
        (-(n as int)) % (p as int),
        n as int,
        p as int,
    );
    assert((k + n) % p == 0);
    lemma_pow_mod_round_trip(a as int, p, k, n, x, m as int);
}

} // verus!
