use ssrand::bitmatrix::BitMatrix;

type M8 = BitMatrix<u8, 8>;
type M32 = BitMatrix<u32, 32>;

fn sample_a() -> M8 {
    M8::new(&[0x1D, 0xA2, 0x47, 0x80, 0x3C, 0xFF, 0x01, 0x5A])
}

fn sample_b() -> M8 {
    M8::new(&[0x02, 0x04, 0x09, 0x10, 0x20, 0x41, 0x80, 0x01])
}

fn sample_c() -> M8 {
    M8::new(&[0xF0, 0x0F, 0x33, 0xCC, 0x55, 0xAA, 0x18, 0x81])
}

#[test]
fn dot_vec_folds_the_picked_columns() {
    let a = sample_a();
    assert_eq!(a.dot_vec(0), 0);
    assert_eq!(a.dot_vec(0b0000_0001), 0x1D);
    assert_eq!(a.dot_vec(0b0000_0100), 0x47);
    assert_eq!(a.dot_vec(0b1000_0000), 0x5A);
    assert_eq!(a.dot_vec(0b0000_0101), 0x1D ^ 0x47);
    assert_eq!(a.dot_vec(0xFF), 0x1D ^ 0xA2 ^ 0x47 ^ 0x80 ^ 0x3C ^ 0xFF ^ 0x01 ^ 0x5A);
}

#[test]
fn dot_vec_is_linear() {
    let a = sample_a();
    for x in 0..=255u8 {
        for y in [0u8, 1, 7, 0x80, 0xA5, 0xFF] {
            assert_eq!(a.dot_vec(x ^ y), a.dot_vec(x) ^ a.dot_vec(y));
        }
    }
}

#[test]
fn zero_and_one() {
    assert!(M8::zero().is_zero());
    assert!(!M8::one().is_zero());
    assert!(!sample_a().is_zero());
    assert_eq!(M8::one(), M8::new(&[1, 2, 4, 8, 16, 32, 64, 128]));
    assert_eq!(M8::zero(), M8::new(&[0; 8]));
    for x in 0..=255u8 {
        assert_eq!(M8::one().dot_vec(x), x);
        assert_eq!(M8::zero().dot_vec(x), 0);
    }
}

#[test]
fn addition_is_exclusive_or_and_cancels_itself() {
    let sum = sample_a() + sample_b();
    assert_eq!(
        sum,
        M8::new(&[0x1D ^ 0x02, 0xA2 ^ 0x04, 0x47 ^ 0x09, 0x80 ^ 0x10, 0x3C ^ 0x20, 0xFF ^ 0x41, 0x81, 0x5B])
    );
    assert!((sample_a() + sample_a()).is_zero());
    assert!((&sample_a() + &sample_a()).is_zero());
    assert_eq!(sample_a() + M8::zero(), sample_a());
    assert_eq!(&sample_a() + &sample_b(), sample_a() + sample_b());
}

#[test]
fn multiplication_is_associative_and_not_commutative() {
    let (a, b, c) = (sample_a(), sample_b(), sample_c());
    let left = a.dot(&b).dot(&c);
    let right = a.dot(&b.dot(&c));
    assert_eq!(left, right);
    assert_eq!(&(&a * &b) * &c, &a * &(&b * &c));
    assert_eq!((a.clone() * b.clone()) * c.clone(), a.clone() * (b.clone() * c.clone()));
    assert_ne!(a.dot(&b), b.dot(&a));
}

#[test]
fn one_is_neutral_for_multiplication() {
    let a = sample_a();
    assert_eq!(M8::one().dot(&a), a);
    assert_eq!(a.dot(&M8::one()), a);
    assert_eq!(a.clone() * M8::one(), a);
    assert_eq!(&M8::one() * &a, a);
}

#[test]
fn product_applies_the_right_factor_first() {
    let (a, b) = (sample_a(), sample_b());
    let ab = a.dot(&b);
    for x in 0..=255u8 {
        assert_eq!(ab.dot_vec(x), a.dot_vec(b.dot_vec(x)));
    }
}

#[test]
fn dot_equ_multiplies_in_place() {
    let mut a = sample_a();
    a.dot_equ(&sample_b());
    assert_eq!(a, sample_a().dot(&sample_b()));
    assert_eq!(a, sample_a() * sample_b());
}

#[test]
fn powers() {
    let a = sample_a();
    assert_eq!(a.clone().pow(0u32), M8::one());
    assert_eq!(a.clone().pow(1u32), a);
    assert_eq!(a.clone().pow(2u32), a.dot(&a));
    assert_eq!(a.clone().pow(5u8), a.dot(&a).dot(&a).dot(&a).dot(&a));
    assert_eq!(a.clone().pow(13u64), a.clone().pow(6u16).dot(&a.clone().pow(7u128)));
    assert_eq!(M8::zero().pow(0u32), M8::one());
    assert!(M8::zero().pow(3u32).is_zero());
    assert_eq!(M8::one().pow(1_000_000_000_000u64), M8::one());
}

#[test]
fn shift_matrix_shifts_a_vector() {
    for x in [0u32, 1, 0x8000_0000, 0xDEAD_BEEF, 0xFFFF_FFFF, 0x1234_5678] {
        assert_eq!(M32::shift(0).dot_vec(x), x);
        assert_eq!(M32::shift(13).dot_vec(x), x << 13);
        assert_eq!(M32::shift(-17).dot_vec(x), x >> 17);
        assert_eq!(M32::shift(31).dot_vec(x), x << 31);
        assert_eq!(M32::shift(-31).dot_vec(x), x >> 31);
        assert_eq!(M32::shift(32).dot_vec(x), 0);
        assert_eq!(M32::shift(-32).dot_vec(x), 0);
        assert_eq!(M32::shift(127).dot_vec(x), 0);
        assert_eq!(M32::shift(-128).dot_vec(x), 0);
    }
    assert_eq!(M32::shift(0), M32::one());
    assert!(M32::shift(32).is_zero());
    assert!(M32::shift(-128).is_zero());
}

#[test]
fn shift_matrix_columns() {
    assert_eq!(M8::shift(3), M8::new(&[8, 16, 32, 64, 128, 0, 0, 0]));
    assert_eq!(M8::shift(-3), M8::new(&[0, 0, 0, 1, 2, 4, 8, 16]));
}

#[test]
fn matrix_narrower_than_its_words() {
    type M5 = BitMatrix<u8, 5>;
    assert_eq!(M5::one(), M5::new(&[1, 2, 4, 8, 16]));
    assert_eq!(M5::shift(2), M5::new(&[4, 8, 16, 0, 0]));
    assert_eq!(M5::shift(5), M5::zero());
    assert_eq!(M5::shift(6), M5::zero());
    assert_eq!(M5::shift(-2), M5::new(&[0, 0, 1, 2, 4]));
    // A left shift is masked to the width again.
    assert_eq!(M5::one() << 3, M5::new(&[8, 16, 0, 0, 0]));
    assert_eq!(M5::new(&[0x1F, 0x11, 0x0A, 0x04, 0x1B]) << 1, M5::new(&[0x1E, 0x02, 0x14, 0x08, 0x16]));
    // Only the bits of the vector that pick a column count.
    assert_eq!(M5::one().dot_vec(0xFF), 0x1F);

    type Wide = BitMatrix<u128, 113>;
    let top = 1u128 << 112;
    assert_eq!(Wide::shift(112).dot_vec(1), top);
    assert_eq!(Wide::shift(113).dot_vec(1), 0);
    assert_eq!(Wide::shift(120).dot_vec(1), 0);
    assert!(Wide::shift(120).is_zero());
    assert_eq!((Wide::one() << 1).dot_vec(top), 0);
    assert_eq!(Wide::one().pow(5u32), Wide::one());
}

#[test]
fn bitand_masks_the_product() {
    let a = sample_a();
    let masked = a.clone() & 0x3C;
    assert_eq!(masked, M8::new(&[0x1C, 0x20, 0x04, 0x00, 0x3C, 0x3C, 0x00, 0x18]));
    for x in 0..=255u8 {
        assert_eq!(masked.dot_vec(x), a.dot_vec(x) & 0x3C);
    }
    // Masking the identity masks the vector.
    assert_eq!((M8::one() & 0xF0).dot_vec(0xAB), 0xA0);
}

#[test]
fn shl_and_shr_shift_the_product() {
    let a = sample_a();
    for s in 0..8usize {
        let left = a.clone() << s;
        let right = a.clone() >> s;
        for x in 0..=255u8 {
            assert_eq!(left.dot_vec(x), a.dot_vec(x) << s);
            assert_eq!(right.dot_vec(x), a.dot_vec(x) >> s);
        }
    }
    assert!((a.clone() << 8).is_zero());
    assert!((a.clone() >> 8).is_zero());
    assert!((a.clone() << 1000).is_zero());
    assert!((a.clone() >> usize::MAX).is_zero());
    assert_eq!(a.clone() << 0, a);
    assert_eq!(a.clone() >> 0, a);
}

#[test]
fn equality_and_clone() {
    let a = sample_a();
    let copy = a.clone();
    assert_eq!(a, copy);
    assert!(a == copy);
    assert!(a != sample_b());
    assert!(!(a != copy));
}

#[test]
fn columns_in_every_word_type() {
    assert_eq!(BitMatrix::<u16, 16>::shift(4).dot_vec(0xABCD), 0xBCD0);
    assert_eq!(BitMatrix::<u64, 64>::shift(-8).dot_vec(0x0123_4567_89AB_CDEF), 0x0001_2345_6789_ABCD);
    assert_eq!(BitMatrix::<u128, 128>::shift(64).dot_vec(1), 1u128 << 64);
    assert_eq!(BitMatrix::<usize, 16>::shift(4).dot_vec(0xABCD), 0xBCD0);
    let fold = BitMatrix::<u64, 64>::one() + BitMatrix::<u64, 64>::shift(7);
    let x = 0x0123_4567_89AB_CDEF_u64;
    assert_eq!(fold.dot_vec(x), x ^ (x << 7));
    assert_eq!(fold.pow(3u32).dot_vec(x), {
        let a = x ^ (x << 7);
        let b = a ^ (a << 7);
        b ^ (b << 7)
    });
}
