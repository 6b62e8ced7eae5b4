use vstd::prelude::*;
use vstd::bytes::*;

verus! {

/// The declared byte order of a value as it is stored.
#[derive(Debug, PartialEq, Eq, Copy, Clone, Structural)]
pub enum Endian {
    BigEndian,
    LittleEndian,
}

impl Default for Endian {
    fn default() -> (r: Endian)
        ensures
            r == Endian::BigEndian,
    {
        Endian::BigEndian
    }
}

impl Endian {
    /// Whether a value stored in this order is byte-reversed on its way to
    /// or from the in-memory representation, which is little-endian here:
    /// exactly the big-endian order swaps.
    pub open spec fn spec_needs_swap(self) -> bool {
        self is BigEndian
    }

    pub fn needs_swap(self) -> (r: bool)
        ensures
            r == self.spec_needs_swap(),
    {
        self == Endian::BigEndian
    }
}

/// A fixed-size value that can appear in binary data, with its in-memory
/// byte representation and its byte reversal.
pub trait Swap: Sized + Copy {
    /// Number of bytes of the representation.
    spec fn spec_size() -> nat;

    /// The in-memory bytes of a value.
    spec fn native(self) -> Seq<u8>;

    /// The value whose in-memory bytes are `b`.
    spec fn from_native(b: Seq<u8>) -> Self;

    /// The value after byte reversal.
    spec fn swapped(self) -> Self;

    proof fn lemma_encoding(x: Self)
        ensures
            x.native().len() == Self::spec_size(),
            Self::from_native(x.native()) == x,
            x.swapped().swapped() == x,
    ;

    fn size() -> (r: usize)
        ensures
            r == Self::spec_size(),
            r >= 1,
    ;

    fn to_native(&self) -> (r: Vec<u8>)
        ensures
            r@ == self.native(),
    ;

    fn from_native_bytes(b: &[u8]) -> (r: Self)
        requires
            b@.len() == Self::spec_size(),
        ensures
            r == Self::from_native(b@),
    ;

    fn bswap(&mut self)
        ensures
            *final(self) == old(self).swapped(),
    ;

    /// Reverses the bytes when the declared order calls for it.
    fn bswap_from(&mut self, end: Endian)
        ensures
            *final(self) == (if end.spec_needs_swap() {
                old(self).swapped()
            } else {
                *old(self)
            }),
    {
        if end == Endian::BigEndian {
            self.bswap();
        }
    }
}

/// The bytes of `b` in reverse order.
pub fn reversed(b: &[u8]) -> (r: Vec<u8>)
    ensures
        r@ == b@.reverse(),
{
    let mut r: Vec<u8> = Vec::new();
    let mut i: usize = b.len();
    while i > 0
        invariant
            i <= b@.len(),
            r@ == b@.subrange(i as int, b@.len() as int).reverse(),
        decreases i,
    {
        i -= 1;
        r.push(b[i]);
        assert(r@ =~= b@.subrange(i as int, b@.len() as int).reverse());
    }
    assert(b@.subrange(0, b@.len() as int) =~= b@);
    r
}

proof fn lemma_reverse_twice(s: Seq<u8>)
    ensures
        s.reverse().reverse() == s,
{
    assert(s.reverse().reverse() =~= s);
}

impl Swap for u16 {
    open spec fn spec_size() -> nat {
        2
    }

    open spec fn native(self) -> Seq<u8> {
        spec_u16_to_le_bytes(self)
    }

    open spec fn from_native(b: Seq<u8>) -> u16 {
        spec_u16_from_le_bytes(b)
    }

    open spec fn swapped(self) -> u16 {
        spec_u16_from_le_bytes(spec_u16_to_le_bytes(self).reverse())
    }

    proof fn lemma_encoding(x: u16) {
        lemma_auto_spec_u16_to_from_le_bytes();
        let r = spec_u16_to_le_bytes(x).reverse();
        assert(spec_u16_to_le_bytes(spec_u16_from_le_bytes(r)) == r);
        lemma_reverse_twice(spec_u16_to_le_bytes(x));
    }

    fn size() -> (r: usize) {
        2
    }

    fn to_native(&self) -> (r: Vec<u8>) {
        u16_to_le_bytes(*self)
    }

    fn from_native_bytes(b: &[u8]) -> (r: u16) {
        u16_from_le_bytes(b)
    }

    fn bswap(&mut self) {
        proof {
            lemma_auto_spec_u16_to_from_le_bytes();
        }
        let b = u16_to_le_bytes(*self);
        let r = reversed(b.as_slice());
        *self = u16_from_le_bytes(r.as_slice());
    }
}

impl Swap for i16 {
    open spec fn spec_size() -> nat {
        2
    }

    open spec fn native(self) -> Seq<u8> {
        spec_u16_to_le_bytes(self as u16)
    }

    open spec fn from_native(b: Seq<u8>) -> i16 {
        spec_u16_from_le_bytes(b) as i16
    }

    open spec fn swapped(self) -> i16 {
        spec_u16_from_le_bytes(spec_u16_to_le_bytes(self as u16).reverse()) as i16
    }

    proof fn lemma_encoding(x: i16) {
        lemma_auto_spec_u16_to_from_le_bytes();
        let r = spec_u16_to_le_bytes(x as u16).reverse();
        let y = spec_u16_from_le_bytes(r);
        assert(spec_u16_to_le_bytes(y) == r);
        assert((y as i16) as u16 == y) by (bit_vector);
        assert((x as u16) as i16 == x) by (bit_vector);
        lemma_reverse_twice(spec_u16_to_le_bytes(x as u16));
    }

    fn size() -> (r: usize) {
        2
    }

    fn to_native(&self) -> (r: Vec<u8>) {
        u16_to_le_bytes(*self as u16)
    }

    fn from_native_bytes(b: &[u8]) -> (r: i16) {
        u16_from_le_bytes(b) as i16
    }

    fn bswap(&mut self) {
        let b = u16_to_le_bytes(*self as u16);
        let r = reversed(b.as_slice());
        proof {
            lemma_auto_spec_u16_to_from_le_bytes();
        }
        *self = u16_from_le_bytes(r.as_slice()) as i16;
    }
}

impl Swap for u32 {
    open spec fn spec_size() -> nat {
        4
    }

    open spec fn native(self) -> Seq<u8> {
        spec_u32_to_le_bytes(self)
    }

    open spec fn from_native(b: Seq<u8>) -> u32 {
        spec_u32_from_le_bytes(b)
    }

    open spec fn swapped(self) -> u32 {
        spec_u32_from_le_bytes(spec_u32_to_le_bytes(self).reverse())
    }

    proof fn lemma_encoding(x: u32) {
        lemma_auto_spec_u32_to_from_le_bytes();
        let r = spec_u32_to_le_bytes(x).reverse();
        assert(spec_u32_to_le_bytes(spec_u32_from_le_bytes(r)) == r);
        lemma_reverse_twice(spec_u32_to_le_bytes(x));
    }

    fn size() -> (r: usize) {
        4
    }

    fn to_native(&self) -> (r: Vec<u8>) {
        u32_to_le_bytes(*self)
    }

    fn from_native_bytes(b: &[u8]) -> (r: u32) {
        u32_from_le_bytes(b)
    }

    fn bswap(&mut self) {
        proof {
            lemma_auto_spec_u32_to_from_le_bytes();
        }
        let b = u32_to_le_bytes(*self);
        let r = reversed(b.as_slice());
        *self = u32_from_le_bytes(r.as_slice());
    }
}

impl Swap for i32 {
    open spec fn spec_size() -> nat {
        4
    }

    open spec fn native(self) -> Seq<u8> {
        spec_u32_to_le_bytes(self as u32)
    }

    open spec fn from_native(b: Seq<u8>) -> i32 {
        spec_u32_from_le_bytes(b) as i32
    }

    open spec fn swapped(self) -> i32 {
        spec_u32_from_le_bytes(spec_u32_to_le_bytes(self as u32).reverse()) as i32
    }

    proof fn lemma_encoding(x: i32) {
        lemma_auto_spec_u32_to_from_le_bytes();
        let r = spec_u32_to_le_bytes(x as u32).reverse();
        let y = spec_u32_from_le_bytes(r);
        assert(spec_u32_to_le_bytes(y) == r);
        assert((y as i32) as u32 == y) by (bit_vector);
        assert((x as u32) as i32 == x) by (bit_vector);
        lemma_reverse_twice(spec_u32_to_le_bytes(x as u32));
    }

    fn size() -> (r: usize) {
        4
    }

    fn to_native(&self) -> (r: Vec<u8>) {
        u32_to_le_bytes(*self as u32)
    }

    fn from_native_bytes(b: &[u8]) -> (r: i32) {
        u32_from_le_bytes(b) as i32
    }

    fn bswap(&mut self) {
        let b = u32_to_le_bytes(*self as u32);
        let r = reversed(b.as_slice());
        proof {
            lemma_auto_spec_u32_to_from_le_bytes();
        }
        *self = u32_from_le_bytes(r.as_slice()) as i32;
    }
}

impl Swap for u64 {
    open spec fn spec_size() -> nat {
        8
    }

    open spec fn native(self) -> Seq<u8> {
        spec_u64_to_le_bytes(self)
    }

    open spec fn from_native(b: Seq<u8>) -> u64 {
        spec_u64_from_le_bytes(b)
    }

    open spec fn swapped(self) -> u64 {
        spec_u64_from_le_bytes(spec_u64_to_le_bytes(self).reverse())
    }

    proof fn lemma_encoding(x: u64) {
        lemma_auto_spec_u64_to_from_le_bytes();
        let r = spec_u64_to_le_bytes(x).reverse();
        assert(spec_u64_to_le_bytes(spec_u64_from_le_bytes(r)) == r);
        lemma_reverse_twice(spec_u64_to_le_bytes(x));
    }

    fn size() -> (r: usize) {
        8
    }

    fn to_native(&self) -> (r: Vec<u8>) {
        u64_to_le_bytes(*self)
    }

    fn from_native_bytes(b: &[u8]) -> (r: u64) {
        u64_from_le_bytes(b)
    }

    fn bswap(&mut self) {
        proof {
            lemma_auto_spec_u64_to_from_le_bytes();
        }
        let b = u64_to_le_bytes(*self);
        let r = reversed(b.as_slice());
        *self = u64_from_le_bytes(r.as_slice());
    }
}

impl Swap for i64 {
    open spec fn spec_size() -> nat {
        8
    }

    open spec fn native(self) -> Seq<u8> {
        spec_u64_to_le_bytes(self as u64)
    }

    open spec fn from_native(b: Seq<u8>) -> i64 {
        spec_u64_from_le_bytes(b) as i64
    }

    open spec fn swapped(self) -> i64 {
        spec_u64_from_le_bytes(spec_u64_to_le_bytes(self as u64).reverse()) as i64
    }

    proof fn lemma_encoding(x: i64) {
        lemma_auto_spec_u64_to_from_le_bytes();
        let r = spec_u64_to_le_bytes(x as u64).reverse();
        let y = spec_u64_from_le_bytes(r);
        assert(spec_u64_to_le_bytes(y) == r);
        assert((y as i64) as u64 == y) by (bit_vector);
        assert((x as u64) as i64 == x) by (bit_vector);
        lemma_reverse_twice(spec_u64_to_le_bytes(x as u64));
    }

    fn size() -> (r: usize) {
        8
    }

    fn to_native(&self) -> (r: Vec<u8>) {
        u64_to_le_bytes(*self as u64)
    }

    fn from_native_bytes(b: &[u8]) -> (r: i64) {
        u64_from_le_bytes(b) as i64
    }

    fn bswap(&mut self) {
        let b = u64_to_le_bytes(*self as u64);
        let r = reversed(b.as_slice());
        proof {
            lemma_auto_spec_u64_to_from_le_bytes();
        }
        *self = u64_from_le_bytes(r.as_slice()) as i64;
    }
}

impl Swap for u8 {
    open spec fn spec_size() -> nat {
        1
    }

    open spec fn native(self) -> Seq<u8> {
        seq![self]
    }

    open spec fn from_native(b: Seq<u8>) -> u8 {
        b[0]
    }

    open spec fn swapped(self) -> u8 {
        self
    }

    proof fn lemma_encoding(x: u8) {
    }

    fn size() -> (r: usize) {
        1
    }

    fn to_native(&self) -> (r: Vec<u8>) {
        let mut r: Vec<u8> = Vec::new();
        r.push(*self);
        assert(r@ =~= seq![*self]);
        r
    }

    fn from_native_bytes(b: &[u8]) -> (r: u8) {
        b[0]
    }

    fn bswap(&mut self) {
    }
}

impl Swap for i8 {
    open spec fn spec_size() -> nat {
        1
    }

    open spec fn native(self) -> Seq<u8> {
        seq![self as u8]
    }

    open spec fn from_native(b: Seq<u8>) -> i8 {
        b[0] as i8
    }

    open spec fn swapped(self) -> i8 {
        self
    }

    proof fn lemma_encoding(x: i8) {
        assert((x as u8) as i8 == x) by (bit_vector);
    }

    fn size() -> (r: usize) {
        1
    }

    fn to_native(&self) -> (r: Vec<u8>) {
        let mut r: Vec<u8> = Vec::new();
        r.push(*self as u8);
        assert(r@ =~= seq![*self as u8]);
        r
    }

    fn from_native_bytes(b: &[u8]) -> (r: i8) {
        b[0] as i8
    }

    fn bswap(&mut self) {
    }
}

/// A value kept in its stored byte order, to be put in order when copied
/// out. Swapping it as a whole does nothing.
#[derive(Debug, Clone, Copy, PartialEq, Eq)]
pub struct Unswapped<T: Swap> {
    pub unswapped: T,
}

impl<T: Swap> Swap for Unswapped<T> {
    open spec fn spec_size() -> nat {
        T::spec_size()
    }

    open spec fn native(self) -> Seq<u8> {
        self.unswapped.native()
    }

    open spec fn from_native(b: Seq<u8>) -> Unswapped<T> {
        Unswapped { unswapped: T::from_native(b) }
    }

    open spec fn swapped(self) -> Unswapped<T> {
        self
    }

    proof fn lemma_encoding(x: Unswapped<T>) {
        T::lemma_encoding(x.unswapped);
    }

    fn size() -> (r: usize) {
        T::size()
    }

    fn to_native(&self) -> (r: Vec<u8>) {
        self.unswapped.to_native()
    }

    fn from_native_bytes(b: &[u8]) -> (r: Unswapped<T>) {
        Unswapped { unswapped: T::from_native_bytes(b) }
    }

    fn bswap(&mut self) {
    }
}

impl<T: Swap> Unswapped<T> {
    /// The value put in order for the declared byte order.
    pub fn copy(&self, endian: Endian) -> (r: T)
        ensures
            r == swap_for(self.unswapped, endian),
    {
        let mut result = self.unswapped;
        result.bswap_from(endian);
        result
    }
}

/// `x` reversed when the declared order calls for it.
pub open spec fn swap_for<T: Swap>(x: T, end: Endian) -> T {
    if end.spec_needs_swap() {
        x.swapped()
    } else {
        x
    }
}

/// The value that bytes stored in the order `end` hold.
pub open spec fn read_spec<T: Swap>(b: Seq<u8>, end: Endian) -> T {
    swap_for(T::from_native(b), end)
}

/// The bytes that store `x` in the order `end`.
pub open spec fn write_spec<T: Swap>(x: T, end: Endian) -> Seq<u8> {
    swap_for(x, end).native()
}

/// Reads a value stored in the order `end`; the slice holds exactly its
/// bytes.
pub fn copy_from_slice<T: Swap>(slice: &[u8], end: Endian) -> (r: T)
    requires
        slice@.len() == T::spec_size(),
    ensures
        r == read_spec::<T>(slice@, end),
{
    let mut t = T::from_native_bytes(slice);
    t.bswap_from(end);
    t
}

/// Writes `t` in the order `end` over a slice of exactly its size.
pub fn copy_to_slice<T: Swap>(slice: &mut [u8], t: &T, end: Endian)
    requires
        old(slice)@.len() == T::spec_size(),
    ensures
        final(slice)@ == write_spec(*t, end),
{
    let mut v = *t;
    v.bswap_from(end);
    let b = v.to_native();
    proof {
        T::lemma_encoding(v);
    }
    let mut i: usize = 0;
    while i < b.len()
        invariant
            b@ == v.native(),
            slice@.len() == b@.len(),
            i <= b@.len(),
            forall|j: int| 0 <= j < i ==> slice@[j] == b@[j],
        decreases b.len() - i,
    {
        slice[i] = b[i];
        i += 1;
    }
    assert(slice@ =~= b@);
}

/// Appends `t` in the order `end` to `vec`.
pub fn copy_to_vec<T: Swap>(vec: &mut Vec<u8>, t: &T, end: Endian)
    requires
        old(vec)@.len() + T::spec_size() <= usize::MAX,
    ensures
        final(vec)@ == old(vec)@ + write_spec(*t, end),
{
    let mut v = *t;
    v.bswap_from(end);
    let b = v.to_native();
    let mut i: usize = 0;
    while i < b.len()
        invariant
            b@ == v.native(),
            i <= b@.len(),
            vec@ == old(vec)@ + b@.subrange(0, i as int),
        decreases b.len() - i,
    {
        vec.push(b[i]);
        i += 1;
        assert(vec@ =~= old(vec)@ + b@.subrange(0, i as int));
    }
    assert(b@.subrange(0, b@.len() as int) =~= b@);
}

/// The bytes that store `t` in the order `end`, in a new vector.
pub fn copy_to_new_vec<T: Swap>(t: &T, end: Endian) -> (r: Vec<u8>)
    ensures
        r@ == write_spec(*t, end),
        r@.len() == T::spec_size(),
{
    let mut v = *t;
    v.bswap_from(end);
    proof {
        T::lemma_encoding(v);
    }
    v.to_native()
}

/// Reading back what was written: for every value and both orders, the
/// bytes that store a value read back as that value.
pub proof fn lemma_read_after_write<T: Swap>(x: T, end: Endian)
    ensures
        write_spec(x, end).len() == T::spec_size(),
        read_spec::<T>(write_spec(x, end), end) == x,
{
    T::lemma_encoding(x);
    T::lemma_encoding(x.swapped());
}

} // verus!
