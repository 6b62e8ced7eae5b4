use binutil::mem::Mem;
use binutil::raw_binary::{Arch, RawProber, RawBinary, PROT_ALL};
use binutil::endian::Endian;
use binutil::util::{and_tup, copy_memory, extend_slice, fast_slice_to_owned, slice_opt, stopwatch, GenericError, ReadCell};

#[test]
fn test_branch() {
    for i in 0..2usize {
        if i == 1 {
            let (b, c) = (7usize, 8);
            assert_eq!((b + c) as isize, 15);
        } else {
            let (b, c) = (8usize, 9);
            assert_eq!((b + c) as usize, 17);
        }
    }
}

#[test]
fn raw_binary_is_one_segment() {
    let buf = Mem::with_data(&[0u8; 16]);
    let rb = RawBinary::new(buf, "");
    let eb = rb.get_exec_base();
    assert_eq!(eb.arch, Arch::Unknown);
    assert_eq!(eb.endian, Endian::BigEndian);
    assert_eq!(eb.segments.len(), 1);
    assert_eq!(eb.sections, eb.segments);
    let s = &eb.segments[0];
    assert_eq!((s.vmaddr, s.vmsize, s.fileoff, s.filesize, s.prot), (0, 16, 0, 16, PROT_ALL));
    assert!(s.name.is_none());
    assert_eq!(eb.buf.as_ref().unwrap().len(), 16);
}

#[test]
fn raw_prober_never_likely() {
    let p = RawProber;
    assert_eq!(p.name(), "raw");
    let buf = Mem::with_data(&[1u8, 2]);
    let r = p.probe(&buf);
    assert_eq!(r.len(), 1);
    assert_eq!(r[0].desc, "raw");
    assert!(!r[0].likely);
    let rb = p.create(buf, &r[0], "");
    assert_eq!(rb.eb.segments[0].filesize, 2);
}

#[test]
fn small_helpers() {
    let v = [1, 2, 3, 4];
    assert_eq!(slice_opt(&v, 1, 3), Some(&v[1..3]));
    assert_eq!(slice_opt(&v, 3, 2), None);
    assert_eq!(slice_opt(&v, 0, 5), None);
    assert_eq!(and_tup(Some(1), Some('a')), Some((1, 'a')));
    assert_eq!(and_tup(Some(1), None::<u8>), None);
    let mut d = [0u8; 3];
    copy_memory(&[7, 8, 9], &mut d);
    assert_eq!(d, [7, 8, 9]);
    let mut w = vec![1u16];
    extend_slice(&mut w, &[2, 3]);
    assert_eq!(w, vec![1, 2, 3]);
    assert_eq!(fast_slice_to_owned(&v), v.to_vec());
    assert_eq!(ReadCell::new(5).get(), 5);
    assert_eq!(GenericError("oops".to_string()).description(), "oops");
    stopwatch("work").stop();
}
