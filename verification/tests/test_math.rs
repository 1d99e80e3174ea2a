use ssrand::math::{
    abs_as_unsigned, abs_as_unsigned_generic, bit_width_mask, modulo, mul_mod, mul_mod_generic,
    pow_mod, size_of_bits, wrapping_geom_series, wrapping_pow,
};

#[test]
fn mul_mod_spot_values() {
    assert_eq!(mul_mod(123456789_u32, 3111222333, 0x9068FFFF), 1473911797_u32);
    assert_eq!(
        mul_mod(12345678901234567890_u64, 10222333444555666777, 0x29A65EACFFFFFFFF),
        1000040008665797219_u64
    );
}

#[test]
fn mul_mod_generic_agrees_with_widening() {
    assert_eq!(mul_mod_generic(123456789_u32, 3111222333, 0x9068FFFF), 1473911797_u32);
    assert_eq!(
        mul_mod_generic(12345678901234567890_u64, 10222333444555666777, 0x29A65EACFFFFFFFF),
        1000040008665797219_u64
    );
    for a in 0..=255u8 {
        for b in [0u8, 1, 2, 3, 127, 128, 129, 200, 254, 255] {
            for m in [1u8, 2, 3, 100, 127, 128, 129, 200, 255] {
                let expected = ((a as u32 * b as u32) % m as u32) as u8;
                assert_eq!(mul_mod_generic(a, b, m), expected);
                assert_eq!(mul_mod(a, b, m), expected);
            }
        }
    }
}

#[test]
fn pow_mod_spot_values() {
    assert_eq!(pow_mod(12345_u32, 1500000_u32, 1211400191_u32), 348133782_u32);
    assert_eq!(
        pow_mod(
            0xDC28D76FFD9338E9D868AF566191DE10_u128,
            0x732E73C316878E244FDFDE4EE623CDCC_u128,
            0xEC327D45470669CC56B547B6FE6888A2_u128
        ),
        0x6AA4E49D8B90A5467A9655090EDD7940_u128
    );
}

#[test]
fn pow_mod_of_exponent_zero_is_reduced() {
    assert_eq!(pow_mod(5_u32, 0_u32, 7_u32), 1);
    assert_eq!(pow_mod(5_u32, 0_u32, 1_u32), 0);
    assert_eq!(pow_mod(5_u32, 1_u32, 1_u32), 0);
    assert_eq!(pow_mod(0_u32, 0_u32, 2_u32), 1);
}

#[test]
fn pow_mod_takes_an_exponent_of_another_width() {
    assert_eq!(pow_mod(12345_u32, 1500000_u64, 1211400191_u32), 348133782_u32);
    assert_eq!(pow_mod(3_u8, 200_u128, 251_u8), pow_mod(3_u8, 200_u8, 251_u8));
}

#[test]
fn wrapping_pow_spot_values() {
    assert_eq!(wrapping_pow(12345_u32, 1500000_u32), 2764689665_u32);
    assert_eq!(wrapping_pow(12345_u32, 0_u32), 1);
    assert_eq!(wrapping_pow(0_u32, 0_u32), 1);
    assert_eq!(wrapping_pow(3_u8, 5_u8), 243);
    assert_eq!(wrapping_pow(3_u8, 6_u8), (729 % 256) as u8);
}

#[test]
fn wrapping_geom_series_spot_values() {
    assert_eq!(wrapping_geom_series(12345_u32, 1500000_u32), 57634016_u32);
}

#[test]
fn wrapping_geom_series_of_no_terms_and_of_one_term() {
    assert_eq!(wrapping_geom_series(12345_u32, 0_u32), 0);
    assert_eq!(wrapping_geom_series(12345_u32, 1_u32), 1);
    assert_eq!(wrapping_geom_series(0_u32, 1_u32), 1);
    assert_eq!(wrapping_geom_series(0_u32, 5_u32), 1);
    assert_eq!(wrapping_geom_series(1_u32, 5_u32), 5);
}

#[test]
fn wrapping_geom_series_sums_the_powers() {
    for r in [0u8, 1, 2, 3, 5, 16, 255] {
        let mut sum = 0u8;
        let mut power = 1u8;
        for n in 0..=40u8 {
            assert_eq!(wrapping_geom_series(r, n), sum);
            sum = sum.wrapping_add(power);
            power = power.wrapping_mul(r);
        }
    }
}

#[test]
fn modulo_spot_values() {
    assert_eq!(modulo(12345_u32, 7_u32), 4_u32);
    assert_eq!(modulo(-12345_i32, 7_u32), 3_u32);
}

#[test]
fn modulo_of_a_negative_multiple_is_zero() {
    assert_eq!(modulo(-14_i32, 7_u32), 0);
    assert_eq!(modulo(-7_i8, 7_u64), 0);
    assert_eq!(modulo(0_i32, 7_u32), 0);
}

#[test]
fn modulo_across_widths() {
    // The input does not fit the type of the modulus.
    assert_eq!(modulo(1_000_000_i64, 7_u8), (1_000_000 % 7) as u8);
    assert_eq!(modulo(-1_000_000_i64, 7_u8), 7 - (1_000_000 % 7) as u8);
    assert_eq!(modulo(u128::MAX, 255_u8), (u128::MAX % 255) as u8);
    // The modulus does not fit the type of the input.
    assert_eq!(modulo(-1_i8, 1000_u32), 999);
    assert_eq!(modulo(100_i8, 1000_u32), 100);
    assert_eq!(modulo(i8::MIN, 1000_u16), 1000 - 128);
    assert_eq!(modulo(i64::MIN, 0x29A65EACFFFFFFFF_u64), {
        let m = 0x29A65EACFFFFFFFF_u128;
        let u = 1u128 << 63;
        ((m - u % m) % m) as u64
    });
    assert_eq!(modulo(i128::MIN, 3_u8), ((3 - (1u128 << 127) % 3) % 3) as u8);
}

#[test]
fn abs_as_unsigned_values() {
    assert_eq!(abs_as_unsigned(5_i32), 5_u32);
    assert_eq!(abs_as_unsigned(-5_i32), 5_u32);
    assert_eq!(abs_as_unsigned(0_i32), 0_u32);
    assert_eq!(abs_as_unsigned(77_u16), 77_u16);
    assert_eq!(abs_as_unsigned_generic(77_u16), 77_u16);
    assert_eq!(abs_as_unsigned_generic(-77_i16), 77_u16);
}

#[test]
fn abs_as_unsigned_of_the_smallest_value() {
    assert_eq!(abs_as_unsigned(i8::MIN), 128_u8);
    assert_eq!(abs_as_unsigned(i16::MIN), 1_u16 << 15);
    assert_eq!(abs_as_unsigned(i32::MIN), 1_u32 << 31);
    assert_eq!(abs_as_unsigned(i64::MIN), 1_u64 << 63);
    assert_eq!(abs_as_unsigned(i128::MIN), 1_u128 << 127);
    assert_eq!(abs_as_unsigned(isize::MIN), 1_usize << (usize::BITS - 1));
    assert_eq!(abs_as_unsigned_generic(i8::MIN), 128_u8);
    assert_eq!(abs_as_unsigned(i8::MIN + 1), 127_u8);
    assert_eq!(abs_as_unsigned(i8::MAX), 127_u8);
}

#[test]
fn bit_width_mask_values() {
    assert_eq!(bit_width_mask::<u32>(0), 0);
    assert_eq!(bit_width_mask::<u32>(1), 1);
    assert_eq!(bit_width_mask::<u32>(5), 31);
    assert_eq!(bit_width_mask::<u32>(31), 0x7FFF_FFFF);
    assert_eq!(bit_width_mask::<u32>(32), u32::MAX);
    assert_eq!(bit_width_mask::<u32>(40), u32::MAX);
    assert_eq!(bit_width_mask::<u8>(8), u8::MAX);
    assert_eq!(bit_width_mask::<u128>(113), (1_u128 << 113) - 1);
    assert_eq!(bit_width_mask::<u128>(128), u128::MAX);
}

#[test]
fn size_of_bits_values() {
    assert_eq!(size_of_bits::<u8>(), 8);
    assert_eq!(size_of_bits::<u32>(), 32);
    assert_eq!(size_of_bits::<i64>(), 64);
    assert_eq!(size_of_bits::<u128>(), 128);
    assert_eq!(size_of_bits::<usize>(), usize::BITS as usize);
}

#[test]
fn pow_mod_multiplies_the_base_out() {
    for m in [1u16, 2, 3, 7, 255, 256, 1000, 65535] {
        for base in [0u16, 1, 2, 3, 254, 255, 999, 65535] {
            let mut expected = 1 % m as u64;
            for n in 0..=40u16 {
                assert_eq!(pow_mod(base, n, m) as u64, expected);
                expected = expected * base as u64 % m as u64;
            }
        }
    }
}

#[test]
fn wrapping_pow_multiplies_the_base_out() {
    for base in [0u8, 1, 2, 3, 5, 16, 254, 255] {
        let mut expected = 1u8;
        for n in 0..=40u32 {
            assert_eq!(wrapping_pow(base, n), expected);
            expected = expected.wrapping_mul(base);
        }
    }
    assert_eq!(wrapping_pow(3_u64, 41_u8), 3_u64.wrapping_pow(41));
    assert_eq!(wrapping_pow(3_u128, 200_u8), 3_u128.wrapping_pow(200));
    assert_eq!(wrapping_pow(7_usize, 200_u16), 7_usize.wrapping_pow(200));
}

#[test]
fn modulo_lies_below_the_modulus_and_differs_by_a_multiple() {
    for m in [1u8, 2, 3, 7, 100, 128, 255] {
        for a in i16::MIN..=i16::MAX {
            let r = modulo(a, m);
            assert!(r < m);
            assert_eq!((a as i32 - r as i32).rem_euclid(m as i32), 0);
            assert_eq!(r as i32, (a as i32).rem_euclid(m as i32));
        }
    }
    for m in [1u64, 7, u64::MAX] {
        for a in [i8::MIN, -7, -1, 0, 1, 7, i8::MAX] {
            assert_eq!(modulo(a, m) as i128, (a as i128).rem_euclid(m as i128));
        }
    }
}

#[test]
fn mul_mod_in_every_width() {
    assert_eq!(mul_mod(200_u8, 200_u8, 251_u8), (200 * 200 % 251) as u8);
    assert_eq!(mul_mod(60000_u16, 60001_u16, 65521_u16), (60000_u32 * 60001 % 65521) as u16);
    assert_eq!(
        mul_mod(u64::MAX, u64::MAX - 1, u64::MAX - 58),
        ((u64::MAX as u128) * (u64::MAX as u128 - 1) % (u64::MAX as u128 - 58)) as u64
    );
    // In 128 bits, against the same product in pieces of 64 bits.
    let m = (1_u128 << 127) - 1;
    let a = (1_u128 << 100) + 12345;
    // 2^100 * 2^100 = 2^200 = 2^(127 + 73), which is 2^73 modulo 2^127 - 1.
    let expected = ((1_u128 << 73) + 2 * 12345 * (1_u128 << 100) % m + 12345 * 12345) % m;
    assert_eq!(mul_mod(a, a, m), expected);
    assert_eq!(mul_mod_generic(a, a, m), expected);
    assert_eq!(mul_mod(u128::MAX, u128::MAX, u128::MAX), 0);
    assert_eq!(mul_mod(u128::MAX, u128::MAX, u128::MAX - 1), 1);
    assert_eq!(mul_mod(usize::MAX, usize::MAX, usize::MAX - 1), 1);
    assert_eq!(mul_mod(5_usize, 6_usize, 1_usize), 0);
}

#[test]
fn mask_covers_what_lies_below_it() {
    for k in 0..=8usize {
        let mask = bit_width_mask::<u8>(k);
        for x in 0..=255u8 {
            let below = (x as u32) < (1u32 << k);
            assert_eq!(mask | x == mask, below);
            assert_eq!(x & mask == x, below);
        }
    }
}
