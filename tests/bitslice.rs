use binutil::bitslice::{Bitslice, Run};

fn unused() -> Run {
    Run(0, 0, 0)
}

#[test]
fn single_low_byte_run() {
    let b = Bitslice::new([Run(0, 0, 8), unused(), unused(), unused(), unused()]);
    assert_eq!(b.get(0x000000FF), 0xFF);
    assert_eq!(b.set(0x00000000, 0xFF), 0x000000FF);
}

#[test]
fn run_moves_bits() {
    let b = Bitslice::new([Run(4, 0, 4), unused(), unused(), unused(), unused()]);
    assert_eq!(b.get(0x0000_00A0), 0xA);
    assert_eq!(b.get(0xFFFF_FF0F), 0x0);
    assert_eq!(b.set(0xFFFF_FFFF, 0x5), 0xFFFF_FF5F);
}

#[test]
fn two_runs_round_trip() {
    let b = Bitslice::new([Run(0, 4, 4), Run(24, 0, 4), unused(), unused(), unused()]);
    let w = 0x1234_5678u32;
    assert_eq!(b.get(w), 0x82);
    let set = b.set(w, 0xC3);
    assert_eq!(set, 0x1334_567C);
    assert_eq!(b.get(set), 0xC3);
    assert_eq!(set & !0x0F00_000F, w & !0x0F00_000F);
}

#[test]
fn full_width_run() {
    let b = Bitslice::new([Run(8, 0, 32), unused(), unused(), unused(), unused()]);
    assert_eq!(b.get(0x1122_3344), 0x4411_2233);
    assert_eq!(b.set(0, 0x4411_2233), 0x1122_3344);
}

#[test]
fn wrapping_run() {
    let b = Bitslice::new([Run(30, 0, 4), unused(), unused(), unused(), unused()]);
    assert_eq!(b.get(0xC000_0003), 0xF);
    assert_eq!(b.set(0, 0x9), 0x4000_0002);
}
