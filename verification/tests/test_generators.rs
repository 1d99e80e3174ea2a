use ssrand::lfsr::Register;
use ssrand::math::pow_mod;
use ssrand::{Cong, RngJumpAhead, KISS, KISS2, LFSR113, LFSR88, MWC1, MWC2, MWC64, SHR3};

#[test]
fn first_words() {
    assert_eq!(Cong::new(0).next_u32(), 12345);
    assert_eq!(Cong::new(1).next_u32(), 81414);
    assert_eq!(SHR3::new(1).next_u32(), 270369);
    assert_eq!(MWC1::new(1, 1).next_u32(), 2422818384);
    assert_eq!(MWC2::new(1, 1).next_u32(), 2422818384);
    assert_eq!(MWC64::new(0, 1).next_u32(), 698769069);
    assert_eq!(KISS::new(1, 1, 1, 1).next_u32(), 2423036023);
    assert_eq!(KISS2::new(0, 1, 1, 1).next_u32(), 699120852);
    assert_eq!(LFSR88::new(0x12345678, 0x9ABCDEF0, 0x0F1E2D3C).next_u32(), 3032777103);
    assert_eq!(
        LFSR113::new(0x12345678, 0x9ABCDEF0, 0x0F1E2D3C, 0xDEADBEEF).next_u32(),
        198418561
    );
}

#[test]
fn mwc_words_differ_by_the_top_of_the_upper_half() {
    let mut one = MWC1::new(2374144069, 1046675282);
    let mut two = MWC2::new(2374144069, 1046675282);
    let mut seen_difference = false;
    for _ in 0..100 {
        let a = one.next_u32();
        let b = two.next_u32();
        seen_difference |= a != b;
        // The halves run alike, so the words differ by less than 2^16.
        assert!(b.wrapping_sub(a) < 0x1_0000);
    }
    assert!(seen_difference);
}

#[test]
fn bad_seeds_are_replaced() {
    assert_eq!(SHR3::new(0), SHR3::new(0xFFFF_FFFF));
    assert_ne!(SHR3::new(1), SHR3::new(0xFFFF_FFFF));

    // Multiples of the moduli of the halves.
    assert_eq!(MWC1::new(0, 0), MWC1::new(0xFFFF_FFFF, 0xFFFF_FFFF));
    assert_eq!(MWC2::new(0x9068_FFFF, 0x464F_FFFF), MWC2::new(0, 0));
    assert_eq!(MWC2::new(0, 2 * 0x464F_FFFF), MWC2::new(0, 0));
    // A seed above the modulus is reduced.
    assert_eq!(MWC1::new(0x9068_FFFF + 5, 0x464F_FFFF + 7), MWC1::new(5, 7));
    assert_ne!(MWC1::new(5, 7), MWC1::new(5, 8));

    assert_eq!(MWC64::new(0, 0), MWC64::new(0xFFFF_FFFF, 0xFFFF_FFFF));
    assert_eq!(MWC64::new(0x29A6_5EAC, 0xFFFF_FFFF), MWC64::new(0, 0));
    assert_eq!(MWC64::new(0x29A6_5EAD, 4), MWC64::new(0, 5));

    assert_eq!(LFSR88::new(0, 0, 0), LFSR88::new(!0, !0, !0));
    assert_eq!(LFSR88::new(1, 7, 15), LFSR88::new(!1, !7, !15));
    assert_ne!(LFSR88::new(2, 8, 16), LFSR88::new(!2, !8, !16));
    assert_eq!(LFSR113::new(0, 0, 0, 0), LFSR113::new(!0, !0, !0, !0));
    assert_eq!(LFSR113::new(1, 7, 15, 127), LFSR113::new(!1, !7, !15, !127));
    assert_ne!(LFSR113::new(2, 8, 16, 128), LFSR113::new(!2, !8, !16, !128));

    assert_eq!(KISS::new(0, 0, 0, 0), KISS::new(!0, !0, 0, !0));
    assert_eq!(KISS2::new(0, 0, 0, 0), KISS2::new(!0, !0, 0, !0));
}

#[test]
fn equal_states_give_equal_streams() {
    let mut a = KISS::new(1, 2, 3, 4);
    let mut b = KISS::new(1, 2, 3, 4);
    assert_eq!(a, b);
    for _ in 0..1000 {
        assert_eq!(a.next_u32(), b.next_u32());
    }
    assert_eq!(a, b);
    b.next_u32();
    assert_ne!(a, b);
}

#[test]
fn a_jump_by_zero_stays() {
    let mut rng = Cong::new(99);
    rng.jumpahead(0);
    assert_eq!(rng, Cong::new(99));
    let mut rng = SHR3::new(99);
    rng.jumpahead(0);
    assert_eq!(rng, SHR3::new(99));
    let mut rng = MWC1::new(99, 98);
    rng.jumpahead(0);
    assert_eq!(rng, MWC1::new(99, 98));
    let mut rng = MWC2::new(99, 98);
    rng.jumpahead(0);
    assert_eq!(rng, MWC2::new(99, 98));
    let mut rng = MWC64::new(99, 98);
    rng.jumpahead(0);
    assert_eq!(rng, MWC64::new(99, 98));
    let mut rng = KISS::new(99, 98, 97, 96);
    rng.jumpahead(0);
    assert_eq!(rng, KISS::new(99, 98, 97, 96));
    let mut rng = KISS2::new(99, 98, 97, 96);
    rng.jumpahead(0);
    assert_eq!(rng, KISS2::new(99, 98, 97, 96));
    let mut rng = LFSR88::new(99, 98, 97);
    rng.jumpahead(0);
    assert_eq!(rng, LFSR88::new(99, 98, 97));
    let mut rng = LFSR113::new(99, 98, 97, 960);
    rng.jumpahead(0);
    assert_eq!(rng, LFSR113::new(99, 98, 97, 960));
}

#[test]
fn a_jump_is_as_many_steps_cong() {
    for n in [1i64, 2, 3, 10, 1000, 4097] {
        let mut stepped = Cong::new(12345);
        for _ in 0..n {
            stepped.next_u32();
        }
        let mut jumped = Cong::new(12345);
        jumped.jumpahead(n);
        assert_eq!(jumped, stepped);
        assert_eq!(jumped.next_u32(), stepped.next_u32());
    }
}

#[test]
fn a_jump_is_as_many_steps_shr3() {
    for n in [1i64, 2, 3, 10, 1000, 4097] {
        let mut stepped = SHR3::new(12345);
        for _ in 0..n {
            stepped.next_u32();
        }
        let mut jumped = SHR3::new(12345);
        jumped.jumpahead(n);
        assert_eq!(jumped, stepped);
        assert_eq!(jumped.next_u32(), stepped.next_u32());
    }
}

#[test]
fn a_jump_is_as_many_steps_mwc() {
    for n in [1i64, 2, 3, 10, 1000, 4097] {
        let mut stepped = MWC1::new(12345, 67890);
        let mut stepped2 = MWC2::new(12345, 67890);
        let mut stepped64 = MWC64::new(12345, 67890);
        for _ in 0..n {
            stepped.next_u32();
            stepped2.next_u32();
            stepped64.next_u32();
        }
        let mut jumped = MWC1::new(12345, 67890);
        jumped.jumpahead(n);
        assert_eq!(jumped, stepped);
        assert_eq!(jumped.next_u32(), stepped.next_u32());
        let mut jumped2 = MWC2::new(12345, 67890);
        jumped2.jumpahead(n);
        assert_eq!(jumped2, stepped2);
        assert_eq!(jumped2.next_u32(), stepped2.next_u32());
        let mut jumped64 = MWC64::new(12345, 67890);
        jumped64.jumpahead(n);
        assert_eq!(jumped64, stepped64);
        assert_eq!(jumped64.next_u32(), stepped64.next_u32());
    }
}

#[test]
fn a_jump_is_as_many_steps_kiss() {
    for n in [1i64, 2, 3, 10, 1000, 4097] {
        let mut stepped = KISS::new(1, 2, 3, 4);
        let mut stepped2 = KISS2::new(1, 2, 3, 4);
        for _ in 0..n {
            stepped.next_u32();
            stepped2.next_u32();
        }
        let mut jumped = KISS::new(1, 2, 3, 4);
        jumped.jumpahead(n);
        assert_eq!(jumped, stepped);
        assert_eq!(jumped.next_u32(), stepped.next_u32());
        let mut jumped2 = KISS2::new(1, 2, 3, 4);
        jumped2.jumpahead(n);
        assert_eq!(jumped2, stepped2);
        assert_eq!(jumped2.next_u32(), stepped2.next_u32());
    }
}

#[test]
fn a_jump_is_as_many_steps_lfsr() {
    for n in [1i64, 2, 3, 10, 1000, 4097] {
        let mut stepped = LFSR88::new(11, 22, 33);
        let mut stepped113 = LFSR113::new(11, 22, 33, 444);
        for _ in 0..n {
            stepped.next_u32();
            stepped113.next_u32();
        }
        let mut jumped = LFSR88::new(11, 22, 33);
        jumped.jumpahead(n);
        assert_eq!(jumped, stepped);
        assert_eq!(jumped.next_u32(), stepped.next_u32());
        let mut jumped113 = LFSR113::new(11, 22, 33, 444);
        jumped113.jumpahead(n);
        assert_eq!(jumped113, stepped113);
        assert_eq!(jumped113.next_u32(), stepped113.next_u32());
    }
}

#[test]
fn jumps_add_up() {
    let mut once = KISS::new(5, 6, 7, 8);
    once.jumpahead(1_000_000_000_000_000_000_i64);
    let mut twice = KISS::new(5, 6, 7, 8);
    twice.jumpahead(400_000_000_000_000_000_i64);
    twice.jumpahead(600_000_000_000_000_000_i64);
    assert_eq!(once, twice);

    let mut once = LFSR113::new(5, 60, 700, 8000);
    once.jumpahead(1_000_000_000_000_000_000_i64);
    let mut twice = LFSR113::new(5, 60, 700, 8000);
    twice.jumpahead(999_999_999_999_999_999_i64);
    twice.next_u32();
    assert_eq!(once, twice);

    let mut once = KISS2::new(5, 6, 7, 8);
    once.jumpahead(i64::MAX);
    let mut twice = KISS2::new(5, 6, 7, 8);
    twice.jumpahead(i64::MAX - 1);
    twice.next_u32();
    assert_eq!(once, twice);
}

#[test]
fn a_negative_jump_goes_back() {
    let mut rng = Cong::new(2051391225);
    for _ in 0..1000 {
        rng.next_u32();
    }
    rng.jumpahead(-1000);
    assert_eq!(rng, Cong::new(2051391225));

    let mut rng = SHR3::new(3360276411);
    for _ in 0..1000 {
        rng.next_u32();
    }
    rng.jumpahead(-1000_i64);
    assert_eq!(rng, SHR3::new(3360276411));

    let mut rng = MWC1::new(2374144069, 1046675282);
    let start = rng.clone();
    for _ in 0..1000 {
        rng.next_u32();
    }
    rng.jumpahead(-1000_i16);
    assert_eq!(rng, start);

    let mut rng = MWC2::new(12, 34);
    let start = rng.clone();
    rng.jumpahead(77);
    rng.jumpahead(-77);
    assert_eq!(rng, start);

    let mut rng = MWC64::new(12, 34);
    let start = rng.clone();
    for _ in 0..1000 {
        rng.next_u32();
    }
    rng.jumpahead(-1000_i128);
    assert_eq!(rng, start);

    let mut rng = KISS::new(2247183469, 99545079, 3269400377, 3950144837);
    let start = rng.clone();
    for _ in 0..127 {
        rng.next_u32();
    }
    rng.jumpahead(-127_i8);
    assert_eq!(rng, start);

    let mut rng = KISS2::new(1, 2, 3, 4);
    let start = rng.clone();
    rng.jumpahead(i64::MIN);
    rng.jumpahead(i64::MAX);
    rng.next_u32();
    assert_eq!(rng, start);

    // The low bits of a seed that the masks leave out are no part of the
    // state, so the first step drops them: go back to the state after it.
    let mut rng = LFSR88::new(11, 22, 33);
    rng.next_u32();
    let start = rng.clone();
    for _ in 0..1000 {
        rng.next_u32();
    }
    rng.jumpahead(-1000);
    assert_eq!(rng, start);

    let mut rng = LFSR113::new(11, 22, 33, 444);
    rng.next_u32();
    let start = rng.clone();
    for _ in 0..1000 {
        rng.next_u32();
    }
    rng.jumpahead(-1000);
    assert_eq!(rng, start);
}

#[test]
fn a_jump_by_a_whole_cycle_returns() {
    let mut rng = Cong::new(777);
    rng.jumpahead(0x1_0000_0000_u64);
    assert_eq!(rng, Cong::new(777));

    let mut rng = SHR3::new(777);
    rng.jumpahead(0xFFFF_FFFF_u32);
    assert_eq!(rng, SHR3::new(777));
    // One step short of the cycle and one step close it.
    rng.jumpahead(0xFFFF_FFFE_u32);
    rng.next_u32();
    assert_eq!(rng, SHR3::new(777));

    let mut rng = MWC1::new(777, 888);
    let start = rng.clone();
    rng.jumpahead(0x4834_7FFF_u64 * 0x2327_FFFF_u64 - 1);
    rng.next_u32();
    assert_eq!(rng, start);

    let mut rng = MWC64::new(777, 888);
    let start = rng.clone();
    rng.jumpahead(0x14D3_2F56_7FFF_FFFE_u64);
    rng.next_u32();
    assert_eq!(rng, start);

    let mut rng = LFSR88::new(777, 888, 999);
    let start = rng.clone();
    rng.next_u32();
    let after_one = rng.clone();
    rng.jumpahead(0x7FFF_FFFF_u128 * 0x1FFF_FFFF * 0x0FFF_FFFF - 1);
    rng.next_u32();
    assert_eq!(rng, after_one);
    assert_ne!(rng, start);
}

#[test]
fn registers_step_and_jump() {
    let register = Register { mask: 0xFFFF_FFFE, a: 12, b: 13, c: 19 };
    let z = 0x1234_5678_u32;
    let next = ((z & 0xFFFF_FFFE) << 12) ^ (((z << 13) ^ z) >> 19);
    assert_eq!(register.next(z), next);
    assert_eq!(register.matrix().dot_vec(z), next);
    assert_eq!(register.jump(z, 0), z);
    assert_eq!(register.jump(z, 1), next);
    assert_eq!(register.jump(z, 2), register.next(next));
    // The lowest bit is no part of the state of this register.
    assert_eq!(register.next(z | 1), register.next(z));
    // After a step the word of a register is on its cycle of 2^31 - 1.
    assert_eq!(register.jump(next, 0x7FFF_FFFF), next);
}

#[test]
fn shr3_matrix_makes_one_step() {
    let matrix = ssrand::shr3::shr3_matrix();
    for seed in [1u32, 2, 0x8000_0000, 0xDEAD_BEEF, 0xFFFF_FFFF] {
        assert_eq!(matrix.dot_vec(seed), SHR3::new(seed).next_u32());
    }
}

#[test]
fn shr3_matrix_has_the_order_of_the_cycle() {
    let one = ssrand::bitmatrix::BitMatrix::<u32, 32>::one();
    let cycle = 0xFFFF_FFFF_u32;
    assert_eq!(ssrand::shr3::shr3_matrix().pow(cycle), one);
    // No shorter cycle: the cycle length has the prime factors 3, 5, 17,
    // 257 and 65537.
    for prime in [3u32, 5, 17, 257, 65537] {
        assert_ne!(ssrand::shr3::shr3_matrix().pow(cycle / prime), one);
    }
}

#[test]
fn register_matrices_repeat_after_their_cycles() {
    let registers = [
        (Register { mask: 0xFFFF_FFFE, a: 12, b: 13, c: 19 }, 0x7FFF_FFFF_u32),
        (Register { mask: 0xFFFF_FFF8, a: 4, b: 2, c: 25 }, 0x1FFF_FFFF),
        (Register { mask: 0xFFFF_FFF0, a: 17, b: 3, c: 11 }, 0x0FFF_FFFF),
        (Register { mask: 0xFFFF_FFFE, a: 18, b: 6, c: 13 }, 0x7FFF_FFFF),
        (Register { mask: 0xFFFF_FFF8, a: 2, b: 2, c: 27 }, 0x1FFF_FFFF),
        (Register { mask: 0xFFFF_FFF0, a: 7, b: 13, c: 21 }, 0x0FFF_FFFF),
        (Register { mask: 0xFFFF_FF80, a: 13, b: 3, c: 12 }, 0x01FF_FFFF),
    ];
    for (register, cycle) in registers {
        let matrix = register.matrix();
        assert_eq!(matrix.clone().pow(cycle as u64 + 1), matrix);
        assert_ne!(matrix.clone().pow(2u32), matrix);
    }
}

#[test]
fn multipliers_have_the_orders_of_the_cycles() {
    assert_eq!(pow_mod(36969_u32, 0x4834_7FFF_u32, 0x9068_FFFF_u32), 1);
    assert_eq!(pow_mod(18000_u32, 0x2327_FFFF_u32, 0x464F_FFFF_u32), 1);
    assert_eq!(pow_mod(698769069_u64, 0x14D3_2F56_7FFF_FFFF_u64, 0x29A6_5EAC_FFFF_FFFF_u64), 1);
    assert_ne!(pow_mod(36969_u32, 1_u32, 0x9068_FFFF_u32), 1);
    assert_eq!(ssrand::math::wrapping_pow(69069_u32, 0x1_0000_0000_u64), 1);
    assert_eq!(ssrand::math::wrapping_geom_series(69069_u32, 0x1_0000_0000_u64), 0);
    assert_ne!(ssrand::math::wrapping_geom_series(69069_u32, 0x8000_0000_u64), 0);
}
