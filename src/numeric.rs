use vstd::prelude::*;
use vstd::string::StringSliceAdditionalSpecFns;
use vstd::utf8::{encode_utf8_valid_utf8, is_char_boundary, pop_first_scalar, valid_utf8};
use std::num::ParseIntError;

verus! {

#[verifier::external_type_specification]
#[verifier::external_body]
pub struct ExParseIntError(ParseIntError);

/// The value of an ASCII digit or letter as a digit; 99 for any other byte.
pub open spec fn digit_of(b: u8) -> nat {
    if 0x30 <= b <= 0x39 {
        (b - 0x30) as nat
    } else if 0x61 <= b <= 0x7a {
        (b - 0x61 + 10) as nat
    } else if 0x41 <= b <= 0x5a {
        (b - 0x41 + 10) as nat
    } else {
        99
    }
}

/// Whether `d` is one or more digits of the radix.
pub open spec fn all_digits(d: Seq<u8>, radix: nat) -> bool {
    d.len() > 0 && forall|i: int| 0 <= i < d.len() ==> digit_of(#[trigger] d[i]) < radix
}

/// The number that the digits `d` write in the radix.
pub open spec fn digits_value(d: Seq<u8>, radix: nat) -> nat
    decreases d.len(),
{
    if d.len() == 0 {
        0
    } else {
        digits_value(d.drop_last(), radix) * radix + digit_of(d.last())
    }
}

/// The number that `b` writes in the radix with an optional leading `+`.
pub open spec fn parse_unsigned(b: Seq<u8>, radix: nat) -> Option<int> {
    let d = if b.len() > 0 && b[0] == 0x2b { b.drop_first() } else { b };
    if all_digits(d, radix) {
        Some(digits_value(d, radix) as int)
    } else {
        None
    }
}

/// The number that `b` writes in the radix with an optional leading sign.
pub open spec fn parse_signed(b: Seq<u8>, radix: nat) -> Option<int> {
    if b.len() > 0 && b[0] == 0x2d {
        if all_digits(b.drop_first(), radix) {
            Some(-digits_value(b.drop_first(), radix))
        } else {
            None
        }
    } else {
        parse_unsigned(b, radix)
    }
}

/// `n` when it lies in `lo..=hi`.
pub open spec fn in_range(n: Option<int>, lo: int, hi: int) -> Option<int> {
    match n {
        Some(v) if lo <= v <= hi => Some(v),
        _ => None,
    }
}

/// Relies on `u64::from_str_radix`: an optional `+` and one or more digits
/// of the radix, whose value fits; an error otherwise.
#[verifier::external_body]
fn u64_from_str_radix(src: &str, radix: u32) -> (r: Result<u64, ParseIntError>)
    requires
        2 <= radix <= 36,
    ensures
        match r {
            Ok(v) => in_range(parse_unsigned(src.spec_bytes(), radix as nat), 0, u64::MAX as int) == Some(
                v as int,
            ),
            Err(_) => in_range(parse_unsigned(src.spec_bytes(), radix as nat), 0, u64::MAX as int) is None,
        },
{
    u64::from_str_radix(src, radix)
}

/// Relies on `i64::from_str_radix`: an optional sign and one or more digits
/// of the radix, whose value fits; an error otherwise.
#[verifier::external_body]
fn i64_from_str_radix(src: &str, radix: u32) -> (r: Result<i64, ParseIntError>)
    requires
        2 <= radix <= 36,
    ensures
        match r {
            Ok(v) => in_range(parse_signed(src.spec_bytes(), radix as nat), i64::MIN as int, i64::MAX as int)
                == Some(v as int),
            Err(_) => in_range(
                parse_signed(src.spec_bytes(), radix as nat),
                i64::MIN as int,
                i64::MAX as int,
            ) is None,
        },
{
    i64::from_str_radix(src, radix)
}

/// Negation where the type has it.
pub trait IntStuffSU: Sized + Copy {
    spec fn negated(self) -> Option<Self>;

    /// The negated value; `None` for an unsigned type, and for a value whose
    /// negation does not fit.
    fn neg_if_possible(self) -> (r: Option<Self>)
        ensures
            r == self.negated(),
    ;
}

/// Parsing and alignment of integers.
pub trait IntStuff: IntStuffSU {
    /// The value that `b` writes in the radix, when it fits the type.
    spec fn spec_parse(b: Seq<u8>, radix: nat) -> Option<Self>;

    fn from_str_radix(src: &str, radix: u32) -> (r: Result<Self, ParseIntError>)
        requires
            2 <= radix <= 36,
        ensures
            r is Ok <==> Self::spec_parse(src.spec_bytes(), radix as nat) is Some,
            r matches Ok(v) ==> Self::spec_parse(src.spec_bytes(), radix as nat) == Some(v),
    ;
}

impl IntStuffSU for u64 {
    open spec fn negated(self) -> Option<u64> {
        None
    }

    fn neg_if_possible(self) -> (r: Option<u64>) {
        None
    }
}

impl IntStuffSU for i64 {
    open spec fn negated(self) -> Option<i64> {
        if self == i64::MIN {
            None
        } else {
            Some((0 - self) as i64)
        }
    }

    fn neg_if_possible(self) -> (r: Option<i64>) {
        if self == i64::MIN {
            None
        } else {
            Some(-self)
        }
    }
}

impl IntStuff for u64 {
    open spec fn spec_parse(b: Seq<u8>, radix: nat) -> Option<u64> {
        match in_range(parse_unsigned(b, radix), 0, u64::MAX as int) {
            Some(v) => Some(v as u64),
            None => None,
        }
    }

    fn from_str_radix(src: &str, radix: u32) -> (r: Result<u64, ParseIntError>) {
        u64_from_str_radix(src, radix)
    }
}

impl IntStuff for i64 {
    open spec fn spec_parse(b: Seq<u8>, radix: nat) -> Option<i64> {
        match in_range(parse_signed(b, radix), i64::MIN as int, i64::MAX as int) {
            Some(v) => Some(v as i64),
            None => None,
        }
    }

    fn from_str_radix(src: &str, radix: u32) -> (r: Result<i64, ParseIntError>) {
        i64_from_str_radix(src, radix)
    }
}

/// Rounds `x` up to a multiple of `size`, a power of two.
pub fn align_to(x: u64, size: u64) -> (r: u64)
    requires
        size >= 1,
        x + (size - 1) <= u64::MAX,
    ensures
        r == (x + (size - 1)) as u64 & !((size - 1) as u64),
{
    let mask = size - 1;
    (x + mask) & !mask
}

/// Sign extension from a narrower width.
pub trait SignExtend: Sized {
    /// The number of bits of the type.
    spec fn width() -> nat;

    /// Bit `bits - 1` copied into every bit above it.
    fn sign_extend(self, bits: u8) -> Self
        requires
            1 <= bits < Self::width(),
    ;

    /// The low `bits` bits, when sign-extending them gives the value back.
    fn un_sign_extend(self, bits: u8) -> Option<Self>
        requires
            1 <= bits < Self::width(),
    ;
}

/// `x` with bit `bits - 1` copied into every bit above it.
pub open spec fn sign_extended(x: u64, bits: u8) -> u64 {
    x | ((0u64.wrapping_sub((x >> ((bits - 1) as u64)) & 1)) << bits as u64) as u64
}

impl SignExtend for u64 {
    open spec fn width() -> nat {
        64
    }

    fn sign_extend(self, bits: u8) -> (r: u64)
        ensures
            r == sign_extended(self, bits),
    {
        self | (0u64.wrapping_sub((self >> ((bits - 1) as u64)) & 1) << bits as u64)
    }

    fn un_sign_extend(self, bits: u8) -> (r: Option<u64>)
        ensures
            ({
                let masked = self & ((1u64 << bits as u64) - 1) as u64;
                r == if sign_extended(masked, bits) == self { Some(masked) } else { None::<u64> }
            }),
    {
        assert(1u64 << bits as u64 >= 1) by (bit_vector)
            requires
                bits < 64,
        ;
        let masked = self & ((1u64 << bits as u64) - 1);
        if masked.sign_extend(bits) == self {
            Some(masked)
        } else {
            None
        }
    }
}

/// `x` with bit `bits - 1` copied into every bit above it.
pub open spec fn sign_extended32(x: u32, bits: u8) -> u32 {
    x | ((0u32.wrapping_sub((x >> ((bits - 1) as u32)) & 1)) << bits as u32) as u32
}

impl SignExtend for u32 {
    open spec fn width() -> nat {
        32
    }

    fn sign_extend(self, bits: u8) -> (r: u32)
        ensures
            r == sign_extended32(self, bits),
    {
        self | (0u32.wrapping_sub((self >> ((bits - 1) as u32)) & 1) << bits as u32)
    }

    fn un_sign_extend(self, bits: u8) -> (r: Option<u32>)
        ensures
            ({
                let masked = self & ((1u32 << bits as u32) - 1) as u32;
                r == if sign_extended32(masked, bits) == self { Some(masked) } else { None::<u32> }
            }),
    {
        assert(1u32 << bits as u32 >= 1) by (bit_vector)
            requires
                bits < 32,
        ;
        let masked = self & ((1u32 << bits as u32) - 1);
        if masked.sign_extend(bits) == self {
            Some(masked)
        } else {
            None
        }
    }
}

/// Narrowing to a smaller integer type.
pub trait Narrow<Smaller> {
    /// The low bits that fit.
    fn trunc(self) -> Smaller;

    /// The value, when it fits.
    fn narrow(self) -> Option<Smaller>;
}

impl Narrow<u32> for u64 {
    fn trunc(self) -> (r: u32)
        ensures
            r == self as u32,
    {
        self as u32
    }

    fn narrow(self) -> (r: Option<u32>)
        ensures
            r == if self <= u32::MAX { Some(self as u32) } else { None::<u32> },
    {
        let res = self as u32;
        if res as u64 == self {
            Some(res)
        } else {
            None
        }
    }
}

impl Narrow<u16> for u32 {
    fn trunc(self) -> (r: u16)
        ensures
            r == self as u16,
    {
        self as u16
    }

    fn narrow(self) -> (r: Option<u16>)
        ensures
            r == if self <= u16::MAX { Some(self as u16) } else { None::<u16> },
    {
        let res = self as u16;
        if res as u32 == self {
            Some(res)
        } else {
            None
        }
    }
}

impl Narrow<u8> for u16 {
    fn trunc(self) -> (r: u8)
        ensures
            r == self as u8,
    {
        self as u8
    }

    fn narrow(self) -> (r: Option<u8>)
        ensures
            r == if self <= u8::MAX { Some(self as u8) } else { None::<u8> },
    {
        let res = self as u8;
        if res as u16 == self {
            Some(res)
        } else {
            None
        }
    }
}

/// Widening to a larger integer type.
pub trait Ext<Larger> {
    fn ext(self) -> Larger;
}

impl Ext<u64> for u32 {
    fn ext(self) -> (r: u64)
        ensures
            r == self as u64,
    {
        self as u64
    }
}

impl Ext<u32> for u16 {
    fn ext(self) -> (r: u32)
        ensures
            r == self as u32,
    {
        self as u32
    }
}

impl Ext<u16> for u8 {
    fn ext(self) -> (r: u16)
        ensures
            r == self as u16,
    {
        self as u16
    }
}

/// Addition that reports overflow.
pub trait CheckAdd<Other> {
    fn check_add(self, other: Other) -> Option<Self> where Self: Sized;
}

impl CheckAdd<u64> for u64 {
    fn check_add(self, other: u64) -> (r: Option<u64>)
        ensures
            r == if self + other <= u64::MAX { Some((self + other) as u64) } else { None::<u64> },
    {
        self.checked_add(other)
    }
}

/// Subtraction that reports overflow.
pub trait CheckSub<Other> {
    fn check_sub(self, other: Other) -> Option<Self> where Self: Sized;
}

impl CheckSub<u64> for u64 {
    fn check_sub(self, other: u64) -> (r: Option<u64>)
        ensures
            r == if self >= other { Some((self - other) as u64) } else { None::<u64> },
    {
        self.checked_sub(other)
    }
}

/// Multiplication that reports overflow.
pub trait CheckMul<Other> {
    fn check_mul(self, other: Other) -> Option<Self> where Self: Sized;
}

impl CheckMul<u64> for u64 {
    fn check_mul(self, other: u64) -> (r: Option<u64>)
        ensures
            r == if self * other <= u64::MAX { Some((self * other) as u64) } else { None::<u64> },
    {
        self.checked_mul(other)
    }
}

impl CheckAdd<u32> for u32 {
    fn check_add(self, other: u32) -> (r: Option<u32>)
        ensures
            r == if self + other <= u32::MAX { Some((self + other) as u32) } else { None::<u32> },
    {
        self.checked_add(other)
    }
}

impl CheckSub<u32> for u32 {
    fn check_sub(self, other: u32) -> (r: Option<u32>)
        ensures
            r == if self >= other { Some((self - other) as u32) } else { None::<u32> },
    {
        self.checked_sub(other)
    }
}

impl CheckMul<u32> for u32 {
    fn check_mul(self, other: u32) -> (r: Option<u32>)
        ensures
            r == if self * other <= u32::MAX { Some((self * other) as u32) } else { None::<u32> },
    {
        self.checked_mul(other)
    }
}

impl CheckAdd<u16> for u16 {
    fn check_add(self, other: u16) -> (r: Option<u16>)
        ensures
            r == if self + other <= u16::MAX { Some((self + other) as u16) } else { None::<u16> },
    {
        self.checked_add(other)
    }
}

impl CheckSub<u16> for u16 {
    fn check_sub(self, other: u16) -> (r: Option<u16>)
        ensures
            r == if self >= other { Some((self - other) as u16) } else { None::<u16> },
    {
        self.checked_sub(other)
    }
}

impl CheckMul<u16> for u16 {
    fn check_mul(self, other: u16) -> (r: Option<u16>)
        ensures
            r == if self * other <= u16::MAX { Some((self * other) as u16) } else { None::<u16> },
    {
        self.checked_mul(other)
    }
}

/// The radix that a two-byte prefix names, and how many bytes it takes.
pub open spec fn prefix_radix(b: Seq<u8>) -> (nat, int) {
    if b.len() > 2 && b[2] != 0x2d && b[0] == 0x30 {
        if b[1] == 0x78 {
            (16, 2)
        } else if b[1] == 0x62 {
            (2, 2)
        } else if b[1] == 0x6f {
            (8, 2)
        } else {
            (10, 0)
        }
    } else {
        (10, 0)
    }
}

/// What `stoi` makes of the bytes of a text: an optional `-`, then an
/// optional `0x`, `0b` or `0o` prefix (not when a `-` follows it), then a
/// number in that radix, decimal by default.
pub open spec fn stoi_spec<T: IntStuff>(b: Seq<u8>) -> Option<T> {
    if b.len() == 0 {
        None
    } else {
        let neg = b[0] == 0x2d;
        let rest = if neg { b.drop_first() } else { b };
        let (radix, skip) = prefix_radix(rest);
        let v = T::spec_parse(rest.subrange(skip, rest.len() as int), radix);
        if neg {
            match v {
                Some(x) => x.negated(),
                None => None,
            }
        } else {
            v
        }
    }
}

proof fn lemma_ascii_boundary(bytes: Seq<u8>, k: int)
    requires
        valid_utf8(bytes),
        0 <= k <= bytes.len(),
        forall|i: int| 0 <= i < k ==> bytes[i] < 0x80,
    ensures
        is_char_boundary(bytes, k),
    decreases k,
{
    if k > 0 {
        let rest = pop_first_scalar(bytes);
        assert(rest == bytes.subrange(1, bytes.len() as int));
        lemma_ascii_boundary(rest, k - 1);
    }
}

/// The text after its first `k` bytes, all of them ASCII.
fn drop_ascii(s: &str, k: usize) -> (r: &str)
    requires
        k <= s.spec_bytes().len(),
        forall|i: int| 0 <= i < k ==> s.spec_bytes()[i] < 0x80,
    ensures
        r.spec_bytes() == s.spec_bytes().subrange(k as int, s.spec_bytes().len() as int),
{
    proof {
        encode_utf8_valid_utf8(s@);
        lemma_ascii_boundary(s.spec_bytes(), k as int);
    }
    let (_, rest) = s.split_at(k);
    rest
}

/// Parses an integer written with an optional `-` and an optional radix
/// prefix (`0x`, `0b`, `0o`).
pub fn stoi<T: IntStuff>(s: &str) -> (r: Option<T>)
    ensures
        r == stoi_spec::<T>(s.spec_bytes()),
{
    let b = s.as_bytes();
    if b.len() == 0 {
        return None;
    }
    let neg = b[0] == 0x2d;
    let rest = if neg { drop_ascii(s, 1) } else { s };
    let rb = rest.as_bytes();
    proof {
        assert(rb@ == (if neg { b@.drop_first() } else { b@ }));
    }
    let mut radix: u32 = 10;
    let mut digits = rest;
    if rb.len() > 2 && rb[2] != 0x2d && rb[0] == 0x30 {
        if rb[1] == 0x78 {
            radix = 16;
            digits = drop_ascii(rest, 2);
        } else if rb[1] == 0x62 {
            radix = 2;
            digits = drop_ascii(rest, 2);
        } else if rb[1] == 0x6f {
            radix = 8;
            digits = drop_ascii(rest, 2);
        }
    }
    proof {
        let (pr, skip) = prefix_radix(rb@);
        assert(radix == pr);
        assert(digits.spec_bytes() =~= rb@.subrange(skip, rb@.len() as int));
    }
    let result = match T::from_str_radix(digits, radix) {
        Ok(v) => Some(v),
        Err(_) => None,
    };
    if neg {
        match result {
            Some(x) => x.neg_if_possible(),
            None => None,
        }
    } else {
        result
    }
}

} // verus!
