use binutil::numeric::{
    align_to, stoi, CheckAdd, CheckMul, CheckSub, Ext, IntStuff, IntStuffSU, Narrow, SignExtend,
};

#[test]
fn stoi_radix_prefixes() {
    assert_eq!(stoi::<u64>("42"), Some(42));
    assert_eq!(stoi::<u64>("0x10"), Some(16));
    assert_eq!(stoi::<u64>("0b101"), Some(5));
    assert_eq!(stoi::<u64>("0o17"), Some(15));
    assert_eq!(stoi::<u64>("0xff"), Some(255));
    assert_eq!(stoi::<u64>("+7"), Some(7));
    assert_eq!(stoi::<u64>("00"), Some(0));
}

#[test]
fn stoi_signs() {
    assert_eq!(stoi::<i64>("-12"), Some(-12));
    assert_eq!(stoi::<i64>("-0x10"), Some(-16));
    assert_eq!(stoi::<i64>("--5"), Some(5));
    assert_eq!(stoi::<u64>("-1"), None);
    assert_eq!(stoi::<i64>("-9223372036854775807"), Some(-9223372036854775807));
}

#[test]
fn stoi_rejects() {
    assert_eq!(stoi::<u64>(""), None);
    assert_eq!(stoi::<u64>("-"), None);
    assert_eq!(stoi::<u64>("0x"), None);
    assert_eq!(stoi::<i64>("0x-5"), None);
    assert_eq!(stoi::<u64>("12a"), None);
    assert_eq!(stoi::<u64>("18446744073709551616"), None);
    assert_eq!(stoi::<u64>("é"), None);
}

#[test]
fn parse_and_negate() {
    assert_eq!(<u64 as IntStuff>::from_str_radix("z", 36).ok(), Some(35));
    assert!(<u64 as IntStuff>::from_str_radix("-3", 10).is_err());
    assert_eq!(<i64 as IntStuff>::from_str_radix("-3", 10).ok(), Some(-3));
    assert_eq!(3u64.neg_if_possible(), None);
    assert_eq!(3i64.neg_if_possible(), Some(-3));
    assert_eq!(i64::MIN.neg_if_possible(), None);
}

#[test]
fn alignment() {
    assert_eq!(align_to(13, 8), 16);
    assert_eq!(align_to(16, 8), 16);
    assert_eq!(align_to(0, 4096), 0);
    assert_eq!(align_to(5, 1), 5);
}

#[test]
fn sign_extension() {
    assert_eq!(0x80u64.sign_extend(8), 0xFFFF_FFFF_FFFF_FF80);
    assert_eq!(0x7fu64.sign_extend(8), 0x7f);
    assert_eq!(0xFFFF_FFFF_FFFF_FF80u64.un_sign_extend(8), Some(0x80));
    assert_eq!(0x180u64.un_sign_extend(8), None);
    assert_eq!(0x7fu64.un_sign_extend(8), Some(0x7f));
}

#[test]
fn narrowing_and_checked_arithmetic() {
    assert_eq!(Narrow::<u32>::trunc(0x1_0000_0002u64), 2u32);
    assert_eq!(Narrow::<u32>::narrow(0x1_0000_0002u64), None);
    assert_eq!(Narrow::<u32>::narrow(7u64), Some(7u32));
    assert_eq!(Ext::<u64>::ext(9u32), 9u64);
    assert_eq!(u64::MAX.check_add(1), None);
    assert_eq!(2u64.check_add(3), Some(5));
    assert_eq!(2u64.check_sub(3), None);
    assert_eq!(5u64.check_sub(3), Some(2));
    assert_eq!((1u64 << 40).check_mul(1 << 30), None);
    assert_eq!(6u64.check_mul(7), Some(42));
}

#[test]
fn narrower_widths() {
    assert_eq!(0x80u32.sign_extend(8), 0xFFFF_FF80);
    assert_eq!(0xFFFF_FF80u32.un_sign_extend(8), Some(0x80));
    assert_eq!(0x180u32.un_sign_extend(8), None);
    assert_eq!(Narrow::<u16>::narrow(0x1_0000u32), None);
    assert_eq!(Narrow::<u16>::trunc(0x1_0005u32), 5u16);
    assert_eq!(Narrow::<u8>::narrow(200u16), Some(200u8));
    assert_eq!(Ext::<u32>::ext(7u16), 7u32);
    assert_eq!(Ext::<u16>::ext(7u8), 7u16);
    assert_eq!(u32::MAX.check_add(1), None);
    assert_eq!(3u32.check_sub(4), None);
    assert_eq!(300u16.check_mul(300), None);
    assert_eq!(30u16.check_mul(30), Some(900));
}
