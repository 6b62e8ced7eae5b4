use vstd::prelude::*;
use vstd::slice::{slice_subrange, slice_to_vec};
use crate::bytestr::ByteStr;

verus! {

/// A value that is only ever read.
#[derive(Clone, Copy)]
pub struct ReadCell<T: Copy> {
    pub value: T,
}

impl<T: Copy> ReadCell<T> {
    pub fn new(value: T) -> (r: ReadCell<T>)
        ensures
            r.value == value,
    {
        ReadCell { value }
    }

    pub fn get(&self) -> (r: T)
        ensures
            r == self.value,
    {
        self.value
    }
}

/// An error that carries only its message.
#[derive(Debug, Clone)]
pub struct GenericError(pub String);

impl GenericError {
    pub fn description(&self) -> (r: &String)
        ensures
            r == &self.0,
    {
        &self.0
    }
}

/// A timer for a stretch of work; this build keeps no time.
pub struct Stopwatch;

pub fn stopwatch(_desc: &str) -> Stopwatch {
    Stopwatch
}

impl Stopwatch {
    pub fn stop(self) {
    }
}

/// The elements from `start` up to `end`, or `None` when that range does
/// not lie in `s`.
pub fn slice_opt<T>(s: &[T], start: usize, end: usize) -> (r: Option<&[T]>)
    ensures
        r is Some <==> start <= end <= s@.len(),
        r matches Some(x) ==> x@ == s@.subrange(start as int, end as int),
{
    if end > s.len() || start > end {
        None
    } else {
        Some(slice_subrange(s, start, end))
    }
}

/// Both values, when both are there.
pub fn and_tup<T, U>(a: Option<T>, b: Option<U>) -> (r: Option<(T, U)>)
    ensures
        r == (match (a, b) {
            (Some(x), Some(y)) => Some((x, y)),
            _ => None,
        }),
{
    match (a, b) {
        (Some(x), Some(y)) => Some((x, y)),
        _ => None,
    }
}

/// Overwrites `dst` with `src`, of the same length.
pub fn copy_memory(src: &[u8], dst: &mut [u8])
    requires
        old(dst)@.len() == src@.len(),
    ensures
        final(dst)@ == src@,
{
    let mut i: usize = 0;
    while i < src.len()
        invariant
            dst@.len() == src@.len(),
            i <= src@.len(),
            forall|j: int| 0 <= j < i ==> dst@[j] == src@[j],
        decreases src.len() - i,
    {
        dst[i] = src[i];
        i += 1;
    }
    assert(dst@ =~= src@);
}

/// Appends the elements of `other` to `v`.
pub fn extend_slice<T: Copy>(v: &mut Vec<T>, other: &[T])
    ensures
        final(v)@ == old(v)@ + other@,
{
    let mut i: usize = 0;
    while i < other.len()
        invariant
            i <= other@.len(),
            v@ == old(v)@ + other@.subrange(0, i as int),
        decreases other.len() - i,
    {
        v.push(other[i]);
        i += 1;
        assert(v@ =~= old(v)@ + other@.subrange(0, i as int));
    }
    assert(other@.subrange(0, other@.len() as int) =~= other@);
}

pub fn fast_slice_to_owned<T: Copy>(slice: &[T]) -> (r: Vec<T>)
    ensures
        r@ == slice@,
{
    slice_to_vec(slice)
}

/// The length of the C string at the start of `s`: the position of the
/// first zero byte, or the whole length when there is none.
pub open spec fn c_len(s: Seq<u8>) -> nat {
    if exists|i: int| 0 <= i < s.len() && s[i] == 0 {
        (choose|i: int| 0 <= i < s.len() && s[i] == 0 && forall|j: int| 0 <= j < i ==> s[j] != 0) as nat
    } else {
        s.len()
    }
}

fn strnlen(s: &[u8]) -> (r: usize)
    ensures
        r == c_len(s@),
        r <= s@.len(),
        r < s@.len() ==> s@[r as int] == 0,
        forall|j: int| 0 <= j < r ==> s@[j] != 0,
{
    let mut i: usize = 0;
    while i < s.len()
        invariant
            i <= s@.len(),
            forall|j: int| 0 <= j < i ==> s@[j] != 0,
        decreases s.len() - i,
    {
        if s[i] == 0 {
            proof {
                assert(0 <= i < s@.len() && s@[i as int] == 0 && forall|j: int| 0 <= j < i ==> s@[j] != 0);
                let k = choose|k: int| 0 <= k < s@.len() && s@[k] == 0 && forall|j: int| 0 <= j < k ==> s@[j] != 0;
                assert(k == i) by {
                    if k < i {
                        assert(s@[k] != 0);
                    }
                    if i < k {
                        assert(s@[i as int] != 0);
                    }
                }
            }
            return i;
        }
        i += 1;
    }
    i
}

/// The bytes before the first zero byte, or all of them when there is none.
pub fn from_cstr<'a>(chs: &'a [u8]) -> (r: ByteStr<'a>)
    ensures
        r.bytes() == chs@.subrange(0, c_len(chs@) as int),
{
    let len = strnlen(chs);
    ByteStr(slice_subrange(chs, 0, len))
}

/// The bytes before the first zero byte; `None` when there is no zero byte.
pub fn from_cstr_strict<'a>(chs: &'a [u8]) -> (r: Option<ByteStr<'a>>)
    ensures
        r is Some <==> exists|i: int| 0 <= i < chs@.len() && chs@[i] == 0,
        r matches Some(b) ==> b.bytes() == chs@.subrange(0, c_len(chs@) as int),
{
    let len = strnlen(chs);
    if len == chs.len() {
        None
    } else {
        Some(ByteStr(slice_subrange(chs, 0, len)))
    }
}

} // verus!
