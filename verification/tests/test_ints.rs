use ssrand::machine_int::MachineInt;
use ssrand::uint::UnsignedInt;

#[test]
fn unsigned_constants() {
    assert_eq!(<u8 as UnsignedInt>::zero(), 0);
    assert_eq!(<u8 as UnsignedInt>::one(), 1);
    assert_eq!(<u8 as UnsignedInt>::max_value(), u8::MAX);
    assert_eq!(<u16 as UnsignedInt>::max_value(), u16::MAX);
    assert_eq!(<u32 as UnsignedInt>::max_value(), u32::MAX);
    assert_eq!(<u64 as UnsignedInt>::max_value(), u64::MAX);
    assert_eq!(<u128 as UnsignedInt>::max_value(), u128::MAX);
    assert_eq!(<usize as UnsignedInt>::max_value(), usize::MAX);
}

#[test]
fn unsigned_casts_through_u128() {
    assert_eq!(UnsignedInt::to_u128(200_u8), 200);
    assert_eq!(UnsignedInt::to_u128(u64::MAX), u64::MAX as u128);
    assert_eq!(<u8 as UnsignedInt>::from_u128(255), Some(255));
    assert_eq!(<u8 as UnsignedInt>::from_u128(256), None);
    assert_eq!(<u16 as UnsignedInt>::from_u128(65535), Some(65535));
    assert_eq!(<u16 as UnsignedInt>::from_u128(65536), None);
    assert_eq!(<u32 as UnsignedInt>::from_u128(1 << 32), None);
    assert_eq!(<u64 as UnsignedInt>::from_u128(u64::MAX as u128), Some(u64::MAX));
    assert_eq!(<u64 as UnsignedInt>::from_u128(u64::MAX as u128 + 1), None);
    assert_eq!(<u128 as UnsignedInt>::from_u128(u128::MAX), Some(u128::MAX));
    assert_eq!(<usize as UnsignedInt>::from_u128(usize::MAX as u128), Some(usize::MAX));
    assert_eq!(<usize as UnsignedInt>::from_u128(u128::MAX), None);
}

#[test]
fn unsigned_order_and_arithmetic() {
    assert!(UnsignedInt::equals(7_u32, 7));
    assert!(!UnsignedInt::equals(7_u32, 8));
    assert!(UnsignedInt::less_than(7_u32, 8));
    assert!(!UnsignedInt::less_than(8_u32, 8));
    assert_eq!(UnsignedInt::add(200_u8, 55), 255);
    assert_eq!(UnsignedInt::sub(200_u8, 200), 0);
    assert_eq!(UnsignedInt::div(200_u8, 7), 28);
    assert_eq!(UnsignedInt::rem(200_u8, 7), 4);
    assert_eq!(UnsignedInt::div(u128::MAX, 2), u128::MAX >> 1);
}

#[test]
fn unsigned_wrapping_arithmetic() {
    assert_eq!(UnsignedInt::wrapping_add(200_u8, 100), 44);
    assert_eq!(UnsignedInt::wrapping_sub(5_u8, 10), 251);
    assert_eq!(UnsignedInt::wrapping_mul(200_u8, 3), 88);
    assert_eq!(UnsignedInt::wrapping_add(u16::MAX, 1), 0);
    assert_eq!(UnsignedInt::wrapping_sub(0_u32, 1), u32::MAX);
    assert_eq!(UnsignedInt::wrapping_mul(u64::MAX, u64::MAX), 1);
    assert_eq!(UnsignedInt::wrapping_add(u128::MAX, u128::MAX), u128::MAX - 1);
    assert_eq!(UnsignedInt::wrapping_sub(0_usize, 1), usize::MAX);
    assert_eq!(UnsignedInt::wrapping_mul(usize::MAX, 2), usize::MAX - 1);
}

#[test]
fn unsigned_bit_operations() {
    assert_eq!(UnsignedInt::shl(0b1011_0001_u8, 3), 0b1000_1000);
    assert_eq!(UnsignedInt::shr(0b1011_0001_u8, 3), 0b0001_0110);
    assert_eq!(UnsignedInt::shl(1_u16, 15), 0x8000);
    assert_eq!(UnsignedInt::shl(3_u32, 31), 0x8000_0000);
    assert_eq!(UnsignedInt::shl(3_u64, 63), 1 << 63);
    assert_eq!(UnsignedInt::shl(3_u128, 127), 1 << 127);
    assert_eq!(UnsignedInt::shl(3_usize, usize::BITS as usize - 1), 1 << (usize::BITS - 1));
    assert_eq!(UnsignedInt::shr(u128::MAX, 127), 1);
    assert_eq!(UnsignedInt::shl(0xFF_u8, 0), 0xFF);
    assert_eq!(UnsignedInt::bitand(0b1100_u8, 0b1010), 0b1000);
    assert_eq!(UnsignedInt::bitxor(0b1100_u8, 0b1010), 0b0110);
    assert_eq!(UnsignedInt::bitxor(u128::MAX, 1), u128::MAX - 1);
    assert_eq!(UnsignedInt::bitand(usize::MAX, 0xF0), 0xF0);
}

#[test]
fn negation_wraps_into_the_range() {
    assert_eq!(MachineInt::wrapping_neg(5_i8), -5);
    assert_eq!(MachineInt::wrapping_neg(-5_i8), 5);
    assert_eq!(MachineInt::wrapping_neg(0_i8), 0);
    assert_eq!(MachineInt::wrapping_neg(i8::MIN), i8::MIN);
    assert_eq!(MachineInt::wrapping_neg(i16::MIN), i16::MIN);
    assert_eq!(MachineInt::wrapping_neg(i32::MIN), i32::MIN);
    assert_eq!(MachineInt::wrapping_neg(i64::MIN), i64::MIN);
    assert_eq!(MachineInt::wrapping_neg(i128::MIN), i128::MIN);
    assert_eq!(MachineInt::wrapping_neg(isize::MIN), isize::MIN);
    assert_eq!(MachineInt::wrapping_neg(i64::MAX), i64::MIN + 1);
    assert_eq!(MachineInt::wrapping_neg(1_u8), 255);
    assert_eq!(MachineInt::wrapping_neg(0_u8), 0);
    assert_eq!(MachineInt::wrapping_neg(u8::MAX), 1);
    assert_eq!(MachineInt::wrapping_neg(1_u128), u128::MAX);
    assert_eq!(MachineInt::wrapping_neg(7_usize), 7_usize.wrapping_neg());
}

#[test]
fn signed_to_unsigned() {
    assert_eq!(MachineInt::to_unsigned(5_i8), Some(5_u8));
    assert_eq!(MachineInt::to_unsigned(0_i8), Some(0_u8));
    assert_eq!(MachineInt::to_unsigned(-1_i8), None);
    assert_eq!(MachineInt::to_unsigned(i8::MAX), Some(127_u8));
    assert_eq!(MachineInt::to_unsigned(i128::MAX), Some(i128::MAX as u128));
    assert_eq!(MachineInt::to_unsigned(i128::MIN), None);
    assert_eq!(MachineInt::to_unsigned(200_u8), Some(200_u8));
    assert_eq!(MachineInt::to_unsigned(isize::MAX), Some(isize::MAX as usize));
}

#[test]
fn machine_int_order_and_sum() {
    assert!(MachineInt::less_than(-1_i32, 0));
    assert!(!MachineInt::less_than(0_i32, 0));
    assert!(MachineInt::less_than(i64::MIN, i64::MAX));
    assert!(MachineInt::less_than(3_u16, 4));
    assert_eq!(MachineInt::add(i8::MIN, 1), -127);
    assert_eq!(MachineInt::add(-3_i32, 5), 2);
    assert_eq!(MachineInt::add(250_u8, 5), 255);
    assert_eq!(<i8 as MachineInt>::zero(), 0);
    assert_eq!(<i128 as MachineInt>::one(), 1);
    assert_eq!(<usize as MachineInt>::one(), 1);
}
