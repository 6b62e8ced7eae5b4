use binutil::endian::Endian;
use binutil::mem::{offset_within, Mem};

fn ten() -> Mem<u8> {
    Mem::with_data(&[1u8, 2, 3, 4, 5, 6, 7, 8, 9, 10])
}

#[test]
fn slice_yields_the_range() {
    let m = ten();
    let s = m.slice(2, 5).unwrap();
    assert_eq!(s.get(), &[3u8, 4, 5][..]);
    assert_eq!(s.len(), 3);
    let inner = s.slice(1, 3).unwrap();
    assert_eq!(inner.get(), &[4u8, 5][..]);
}

#[test]
fn slice_whole_and_empty() {
    let m = ten();
    assert_eq!(m.slice(0, 10).unwrap().get(), m.get());
    assert_eq!(m.slice(10, 10).unwrap().len(), 0);
    assert_eq!(m.slice(4, 4).unwrap().get(), &[] as &[u8]);
}

#[test]
fn slice_out_of_bounds_is_none() {
    let m = ten();
    assert!(m.slice(11, 11).is_none());
    assert!(m.slice(5, 11).is_none());
    assert!(m.slice(6, 3).is_none());
    assert!(m.slice(usize::MAX, usize::MAX).is_none());
}

#[test]
fn cast_without_slack() {
    let m = Mem::with_data(&[1u8, 0, 0, 0, 2, 0, 0, 0]);
    let (w, slack) = m.clone().cast::<u32>();
    assert_eq!(w.len(), 2);
    assert_eq!(slack, 0);
    assert_eq!(w.get(), m.get());
    assert_eq!(w.into_vec(), vec![1u32, 2]);
}

#[test]
fn cast_reports_slack() {
    let m = Mem::with_data(&[1u8, 2, 3, 4, 5, 6, 7]);
    let (w, slack) = m.cast::<u32>();
    assert_eq!(w.len(), 1);
    assert_eq!(slack, 3);
    assert_eq!(w.get(), &[1u8, 2, 3, 4][..]);
}

#[test]
fn cast_to_smaller_elements() {
    let m = Mem::with_data(&[0x0102u16, 0x0304]);
    assert_eq!(m.get(), &[2u8, 1, 4, 3][..]);
    let (b, slack) = m.cast::<u8>();
    assert_eq!(b.len(), 4);
    assert_eq!(slack, 0);
}

#[test]
fn get_mut_only_for_a_sole_holder() {
    let mut a = Mem::with_data(&[1u8, 2, 3]);
    assert!(a.get_mut().is_some());
    let b = a.clone();
    assert!(a.get_mut().is_none());
    drop(b);
    let m = a.get_mut().unwrap();
    m[0] = 7;
    assert_eq!(a.get(), &[7u8, 2, 3][..]);
}

#[test]
fn get_mut_decow_leaves_other_views_alone() {
    let mut a = Mem::with_data(&[1u8, 2, 3, 4]);
    let b = a.clone();
    let mut s = a.slice(1, 3).unwrap();
    {
        let m = s.get_mut_decow();
        assert_eq!(m, &[2u8, 3][..]);
        m[0] = 9;
    }
    assert_eq!(s.get(), &[9u8, 3][..]);
    assert_eq!(b.get(), &[1u8, 2, 3, 4][..]);
    let m = a.get_mut_decow();
    m[3] = 0;
    assert_eq!(a.get(), &[1u8, 2, 3, 0][..]);
    assert_eq!(b.get(), &[1u8, 2, 3, 4][..]);
}

#[test]
fn empty_and_default() {
    let e: Mem<u32> = Mem::empty();
    assert_eq!(e.len(), 0);
    assert_eq!(e.get(), &[] as &[u8]);
    let d: Mem<u8> = Default::default();
    assert_eq!(d.len(), 0);
}

#[test]
fn into_vec_gives_the_elements() {
    let m = Mem::with_vec(vec![5i32, -1, 70000]);
    assert_eq!(m.len(), 3);
    assert_eq!(m.slice(1, 3).unwrap().into_vec(), vec![-1i32, 70000]);
}

#[test]
fn offset_of_a_sub_view() {
    let m = ten();
    let s = m.slice(3, 6).unwrap();
    assert_eq!(s.offset_in(&m), Some(3));
    assert_eq!(m.offset_in(&s), None);
    let other = ten();
    assert_eq!(s.offset_in(&other), None);
    let e = m.slice(4, 4).unwrap();
    assert_eq!(e.offset_in(&e), Some(0));
    assert_eq!(m.slice(10, 10).unwrap().offset_in(&m), Some(10));
}

#[test]
fn offset_needs_the_whole_view_inside() {
    let m = ten();
    let inner = m.slice(4, 7).unwrap();
    let longer = m.slice(4, 9).unwrap();
    assert_eq!(longer.offset_in(&inner), None);
    assert_eq!(inner.offset_in(&longer), Some(0));
    let straddle = m.slice(5, 8).unwrap();
    assert_eq!(straddle.offset_in(&inner), None);
    let (words, _) = m.slice(2, 10).unwrap().cast::<u32>();
    assert_eq!(words.offset_in(&m), Some(2));
    assert_eq!(words.offset_in(&m.slice(0, 9).unwrap()), None);
}

#[test]
fn offset_within_span() {
    assert_eq!(offset_within(10, 2, 4, 8), Some(6));
    assert_eq!(offset_within(10, 3, 4, 8), None);
    assert_eq!(offset_within(12, 0, 4, 8), Some(8));
    assert_eq!(offset_within(4, 0, 4, 0), Some(0));
    assert_eq!(offset_within(4, 5, 4, 3), None);
    assert_eq!(offset_within(3, 1, 4, 8), None);
}

#[test]
fn endian_default_is_big() {
    assert_eq!(Endian::default(), Endian::BigEndian);
}
