use binutil::endian::{
    copy_from_slice, copy_to_new_vec, copy_to_slice, copy_to_vec, reversed, Endian, Swap, Unswapped,
};

#[test]
fn needs_swap_only_for_big_endian() {
    assert!(Endian::BigEndian.needs_swap());
    assert!(!Endian::LittleEndian.needs_swap());
}

#[test]
fn writes_in_declared_order() {
    assert_eq!(copy_to_new_vec(&0x1234u16, Endian::BigEndian), vec![0x12u8, 0x34]);
    assert_eq!(copy_to_new_vec(&0x1234u16, Endian::LittleEndian), vec![0x34u8, 0x12]);
    assert_eq!(copy_to_new_vec(&0x01020304u32, Endian::BigEndian), vec![1u8, 2, 3, 4]);
    assert_eq!(copy_to_new_vec(&-2i32, Endian::BigEndian), vec![0xffu8, 0xff, 0xff, 0xfe]);
    assert_eq!(copy_to_new_vec(&0x7fu8, Endian::BigEndian), vec![0x7fu8]);
}

#[test]
fn reads_in_declared_order() {
    let b = [1u8, 2, 3, 4, 5, 6, 7, 8];
    assert_eq!(copy_from_slice::<u64>(&b, Endian::BigEndian), 0x0102030405060708);
    assert_eq!(copy_from_slice::<u64>(&b, Endian::LittleEndian), 0x0807060504030201);
    assert_eq!(copy_from_slice::<i16>(&[0x80, 0x00], Endian::BigEndian), i16::MIN);
    assert_eq!(copy_from_slice::<i8>(&[0xff], Endian::LittleEndian), -1);
}

fn round_trip<T: Swap + PartialEq + std::fmt::Debug>(v: T) {
    for e in [Endian::BigEndian, Endian::LittleEndian] {
        let bytes = copy_to_new_vec(&v, e);
        assert_eq!(copy_from_slice::<T>(&bytes, e), v);
    }
}

#[test]
fn read_after_write_round_trips() {
    round_trip(0xabu8);
    round_trip(-5i8);
    round_trip(0xbeefu16);
    round_trip(-12345i16);
    round_trip(0xdeadbeefu32);
    round_trip(i32::MIN);
    round_trip(u64::MAX - 7);
    round_trip(-1234567890123i64);
}

#[test]
fn write_in_place_and_append() {
    let mut buf = [0u8; 4];
    copy_to_slice(&mut buf, &0x11223344u32, Endian::BigEndian);
    assert_eq!(buf, [0x11, 0x22, 0x33, 0x44]);
    let mut v = vec![9u8];
    copy_to_vec(&mut v, &0x5566u16, Endian::LittleEndian);
    copy_to_vec(&mut v, &0x5566u16, Endian::BigEndian);
    assert_eq!(v, vec![9u8, 0x66, 0x55, 0x55, 0x66]);
}

#[test]
fn bswap_reverses_bytes() {
    let mut x = 0x01020304u32;
    x.bswap();
    assert_eq!(x, 0x04030201);
    let mut y = 0x0102i16;
    y.bswap_from(Endian::LittleEndian);
    assert_eq!(y, 0x0102);
    y.bswap_from(Endian::BigEndian);
    assert_eq!(y, 0x0201);
}

#[test]
fn unswapped_swaps_only_when_copied() {
    let mut u = Unswapped { unswapped: 0x0102u16 };
    u.bswap();
    assert_eq!(u.unswapped, 0x0102);
    assert_eq!(u.copy(Endian::BigEndian), 0x0201);
    assert_eq!(u.copy(Endian::LittleEndian), 0x0102);
}

#[test]
fn reversed_bytes() {
    assert_eq!(reversed(&[1u8, 2, 3]), vec![3u8, 2, 1]);
    assert_eq!(reversed(&[]), Vec::<u8>::new());
}
