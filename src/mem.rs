use vstd::prelude::*;
use vstd::slice::slice_subrange;
use std::marker::PhantomData;
use std::sync::Arc;
use crate::endian::Swap;

verus! {

/// Relies on `Arc::get_mut`: it hands out the contents only to the sole
/// holder of the allocation, and then mutation through it is mutation of
/// the contents.
#[verifier::external_body]
fn arc_get_mut(a: &mut Arc<Vec<u8>>) -> (r: Option<&mut Vec<u8>>)
    ensures
        match r {
            Some(m) => (*m)@ == (*old(a))@ && (*final(a))@ == (*final(m))@,
            None => *final(a) == *old(a),
        },
{
    Arc::get_mut(a)
}

/// Relies on `Arc::make_mut`: the contents, first cloned into an allocation
/// of their own when the allocation is shared; mutation through the result
/// is mutation of the contents.
#[verifier::external_body]
fn arc_make_mut(a: &mut Arc<Vec<u8>>) -> (r: &mut Vec<u8>)
    ensures
        (*r)@ == (*old(a))@,
        (*final(a))@ == (*final(r))@,
{
    Arc::make_mut(a)
}

/// Relies on `Arc::clone`: a second handle to the same contents.
#[verifier::external_body]
fn arc_share(a: &Arc<Vec<u8>>) -> (r: Arc<Vec<u8>>)
    ensures
        r@ == a@,
{
    Arc::clone(a)
}

/// Relies on `Arc::ptr_eq`: whether two handles hold the same allocation.
/// Which allocation a handle holds is not a matter of the contents, so
/// nothing is said of the answer.
#[verifier::external_body]
fn arc_same(a: &Arc<Vec<u8>>, b: &Arc<Vec<u8>>) -> (r: bool) {
    Arc::ptr_eq(a, b)
}

/// A shared, sliceable view of `len` elements of type `T` in a backing
/// store of bytes, starting `start` bytes into it. Views made from one
/// another share the store; it is freed with the last of them.
pub struct Mem<T: Swap> {
    store: Arc<Vec<u8>>,
    start: usize,
    len: usize,
    elem: PhantomData<T>,
}

/// The offset of a range of `my_len` bytes from `mine` within the range of
/// `their_len` bytes from `theirs`, when the first lies entirely in the
/// second.
pub open spec fn offset_within_spec(mine: usize, my_len: nat, theirs: usize, their_len: nat) -> Option<usize> {
    if theirs <= mine && mine + my_len <= theirs + their_len {
        Some((mine - theirs) as usize)
    } else {
        None
    }
}

pub fn offset_within(mine: usize, my_len: usize, theirs: usize, their_len: usize) -> (r: Option<usize>)
    ensures
        r == offset_within_spec(mine, my_len as nat, theirs, their_len as nat),
{
    if mine >= theirs && my_len <= their_len && mine - theirs <= their_len - my_len {
        Some(mine - theirs)
    } else {
        None
    }
}

proof fn lemma_mul_le(a: nat, b: nat, s: nat)
    requires
        a <= b,
    ensures
        a * s <= b * s,
{
    assert(a * s <= b * s) by (nonlinear_arith)
        requires
            a <= b,
    ;
}

impl<T: Swap> Mem<T> {
    /// The view lies within its store.
    pub closed spec fn wf(&self) -> bool {
        &&& self.start + self.len * T::spec_size() <= self.store@.len()
        &&& self.store@.len() <= usize::MAX
    }

    /// The bytes of the view.
    pub closed spec fn bytes(&self) -> Seq<u8> {
        self.store@.subrange(self.start as int, self.start + self.len * T::spec_size())
    }

    /// Where the view starts in its store, in bytes.
    pub closed spec fn spec_start(&self) -> usize {
        self.start
    }

    /// The number of elements of the view.
    pub closed spec fn spec_len(&self) -> nat {
        self.len as nat
    }

    /// The elements of the view, each read from its bytes.
    pub open spec fn elements(&self) -> Seq<T> {
        Seq::new(
            self.spec_len(),
            |i: int|
                T::from_native(
                    self.bytes().subrange(i * T::spec_size(), (i + 1) * T::spec_size()),
                ),
        )
    }

    /// A view of its own over a new store holding `bytes`.
    fn with_bytes(bytes: Vec<u8>, len: usize) -> (r: Mem<T>)
        requires
            len * T::spec_size() == bytes@.len(),
        ensures
            r.wf(),
            r.bytes() == bytes@,
            r.spec_len() == len,
    {
        let _ = bytes.len();
        let r = Mem { store: Arc::new(bytes), start: 0, len, elem: PhantomData };
        assert(r.bytes() =~= bytes@);
        r
    }

    /// A view of zero elements.
    pub fn empty() -> (r: Mem<T>)
        ensures
            r.wf(),
            r.spec_len() == 0,
            r.bytes() == Seq::<u8>::empty(),
    {
        let r = Mem { store: Arc::new(Vec::new()), start: 0, len: 0, elem: PhantomData };
        assert(r.bytes() =~= Seq::<u8>::empty());
        r
    }

    /// A view of its own over the in-memory bytes of `vec`'s elements.
    pub fn with_vec(vec: Vec<T>) -> (r: Mem<T>)
        requires
            vec@.len() * T::spec_size() <= usize::MAX,
        ensures
            r.wf(),
            r.spec_len() == vec@.len(),
            r.elements() == vec@,
    {
        Self::with_data(vec.as_slice())
    }

    /// A view of its own over a copy of the in-memory bytes of `data`.
    pub fn with_data(data: &[T]) -> (r: Mem<T>)
        requires
            data@.len() * T::spec_size() <= usize::MAX,
        ensures
            r.wf(),
            r.spec_len() == data@.len(),
            r.elements() == data@,
    {
        let sz = T::size();
        let ghost s = T::spec_size();
        let mut bytes: Vec<u8> = Vec::new();
        let mut i: usize = 0;
        while i < data.len()
            invariant
                sz == s,
                s == T::spec_size(),
                s >= 1,
                i <= data@.len(),
                data@.len() * s <= usize::MAX,
                bytes@.len() == i * s,
                forall|k: int|
                    0 <= k < i ==> #[trigger] bytes@.subrange(k * s, (k + 1) * s) == data@[k].native(),
            decreases data.len() - i,
        {
            let x = data[i];
            let b = x.to_native();
            proof {
                T::lemma_encoding(x);
                lemma_mul_le((i + 1) as nat, data@.len(), s);
                assert((i + 1) * s == i * s + s) by (nonlinear_arith);
            }
            let mut j: usize = 0;
            let ghost before = bytes@;
            while j < b.len()
                invariant
                    b@ == data@[i as int].native(),
                    b@.len() == s,
                    j <= b@.len(),
                    before.len() == i * s,
                    (i + 1) * s <= usize::MAX,
                    bytes@ == before + b@.subrange(0, j as int),
                decreases b.len() - j,
            {
                bytes.push(b[j]);
                j += 1;
                assert(bytes@ =~= before + b@.subrange(0, j as int));
            }
            proof {
                assert(b@.subrange(0, b@.len() as int) =~= b@);
                assert forall|k: int| 0 <= k < i + 1 implies #[trigger] bytes@.subrange(k * s, (k + 1) * s)
                    == data@[k].native() by {
                    if k < i {
                        assert(k * s + s <= i * s) by (nonlinear_arith)
                            requires
                                k < i,
                        ;
                        assert((k + 1) * s == k * s + s) by (nonlinear_arith);
                        assert(before.subrange(k * s, (k + 1) * s) == data@[k].native());
                        assert(bytes@.subrange(k * s, (k + 1) * s) =~= before.subrange(k * s, (k + 1) * s));
                    } else {
                        assert(bytes@.subrange(k * s, (k + 1) * s) =~= b@);
                    }
                }
            }
            i += 1;
        }
        let r = Self::with_bytes(bytes, data.len());
        proof {
            assert forall|k: int| 0 <= k < data@.len() implies #[trigger] r.elements()[k] == data@[k] by {
                T::lemma_encoding(data@[k]);
            }
            assert(r.elements() =~= data@);
        }
        r
    }

    pub fn len(&self) -> (r: usize)
        requires
            self.wf(),
        ensures
            r == self.spec_len(),
            self.bytes().len() == r * T::spec_size(),
    {
        self.len
    }

    /// The view's bytes.
    pub fn get(&self) -> (r: &[u8])
        requires
            self.wf(),
        ensures
            r@ == self.bytes(),
    {
        proof {
            lemma_mul_le(self.len as nat, self.len as nat, T::spec_size());
        }
        let end = self.start + self.len * T::size();
        slice_subrange(self.store.as_slice(), self.start, end)
    }

    /// The view of elements `from` up to `to`, or `None` when that range
    /// does not lie within this view.
    pub fn slice(&self, from: usize, to: usize) -> (r: Option<Mem<T>>)
        requires
            self.wf(),
        ensures
            r is Some <==> from <= to <= self.spec_len(),
            r matches Some(m) ==> {
                &&& m.wf()
                &&& m.spec_len() == to - from
                &&& m.bytes() == self.bytes().subrange(
                    from * T::spec_size(),
                    to * T::spec_size(),
                )
            },
    {
        if from > self.len || to < from || to - from > self.len - from {
            return None;
        }
        let ghost s = T::spec_size();
        proof {
            lemma_mul_le(from as nat, self.len as nat, s);
            lemma_mul_le(to as nat, self.len as nat, s);
            assert((to - from) * s == to * s - from * s) by (nonlinear_arith)
                requires
                    from <= to,
            ;
        }
        let start = self.start + from * T::size();
        let m = Mem { store: arc_share(&self.store), start, len: to - from, elem: PhantomData };
        assert(m.bytes() =~= self.bytes().subrange(from * s, to * s));
        Some(m)
    }

    /// The view's bytes, writable; `None` unless this view is the only
    /// holder of its store.
    pub fn get_mut(&mut self) -> (r: Option<&mut [u8]>)
        requires
            old(self).wf(),
        ensures
            match r {
                Some(m) => {
                    &&& m@ == old(self).bytes()
                    &&& final(self).spec_len() == old(self).spec_len()
                    &&& final(m)@.len() == m@.len() ==> {
                        &&& final(self).wf()
                        &&& final(self).bytes() == final(m)@
                    }
                },
                None => *final(self) == *old(self),
            },
    {
        proof {
            lemma_mul_le(self.len as nat, self.len as nat, T::spec_size());
        }
        let start = self.start;
        let n = self.len * T::size();
        match arc_get_mut(&mut self.store) {
            Some(v) => {
                let (_, rest) = v.as_mut_slice().split_at_mut(start);
                let (mine, _) = rest.split_at_mut(n);
                Some(mine)
            },
            None => None,
        }
    }

    /// The view's bytes, writable: when the store is shared, the view first
    /// moves to a copy of its bytes of its own, so that writes never reach
    /// another view.
    pub fn get_mut_decow(&mut self) -> (r: &mut [u8])
        requires
            old(self).wf(),
        ensures
            r@ == old(self).bytes(),
            final(self).spec_len() == old(self).spec_len(),
            final(r)@.len() == r@.len() ==> {
                &&& final(self).wf()
                &&& final(self).bytes() == final(r)@
            },
    {
        let sole = match arc_get_mut(&mut self.store) {
            Some(_) => true,
            None => false,
        };
        if !sole {
            let copy = vstd::slice::slice_to_vec(self.get());
            *self = Self::with_bytes(copy, self.len);
        }
        let start = self.start;
        let n = self.len * T::size();
        let v = arc_make_mut(&mut self.store);
        let (_, rest) = v.as_mut_slice().split_at_mut(start);
        let (mine, _) = rest.split_at_mut(n);
        mine
    }

    /// The byte offset of this view's start within `other`, when the view
    /// lies entirely within `other`'s span of the same store.
    pub fn offset_in(&self, other: &Mem<u8>) -> (r: Option<usize>)
        requires
            self.wf(),
            other.wf(),
        ensures
            r is Some ==> r == offset_within_spec(
                self.spec_start(),
                self.spec_len() * T::spec_size(),
                other.spec_start(),
                other.spec_len(),
            ),
    {
        proof {
            lemma_mul_le(self.len as nat, self.len as nat, T::spec_size());
        }
        if arc_same(&self.store, &other.store) {
            offset_within(self.start, self.len * T::size(), other.start, other.len)
        } else {
            None
        }
    }

    /// The view's elements in a vector of their own.
    pub fn into_vec(self) -> (r: Vec<T>)
        requires
            self.wf(),
        ensures
            r@ == self.elements(),
    {
        let sz = T::size();
        let ghost s = T::spec_size();
        let bytes = self.get();
        let mut r: Vec<T> = Vec::new();
        let mut i: usize = 0;
        while i < self.len
            invariant
                sz == s,
                s == T::spec_size(),
                s >= 1,
                self.wf(),
                bytes@ == self.bytes(),
                bytes@.len() == self.len * s,
                i <= self.len,
                r@ =~= self.elements().subrange(0, i as int),
            decreases self.len - i,
        {
            proof {
                lemma_mul_le((i + 1) as nat, self.len as nat, s);
                assert((i + 1) * s == i * s + s) by (nonlinear_arith);
                assert(self.len * s <= usize::MAX);
            }
            let b = slice_subrange(bytes, i * sz, i * sz + sz);
            r.push(T::from_native_bytes(b));
            i += 1;
        }
        r
    }

    /// The same bytes seen as elements of type `U`, with the count of bytes
    /// at the end that make no whole `U`.
    pub fn cast<U: Swap>(self) -> (r: (Mem<U>, usize))
        requires
            self.wf(),
        ensures
            r.0.wf(),
            r.0.spec_len() == self.spec_len() * T::spec_size() / U::spec_size(),
            r.1 == self.spec_len() * T::spec_size() % U::spec_size(),
            r.0.bytes() == self.bytes().subrange(0, (r.0.spec_len() * U::spec_size()) as int),
            r.1 == 0 ==> r.0.bytes() == self.bytes(),
    {
        proof {
            lemma_mul_le(self.len as nat, self.len as nat, T::spec_size());
        }
        let total = self.len * T::size();
        let usz = U::size();
        let n = total / usz;
        let slack = total % usz;
        proof {
            assert(n * usz <= total && (slack == 0 ==> n * usz == total)) by (nonlinear_arith)
                requires
                    n == total / usz,
                    slack == total % usz,
                    usz >= 1,
            ;
        }
        let m = Mem::<U> { store: self.store, start: self.start, len: n, elem: PhantomData };
        assert(m.bytes() =~= self.bytes().subrange(0, (n * U::spec_size()) as int));
        assert(slack == 0 ==> self.bytes().subrange(0, (n * U::spec_size()) as int) =~= self.bytes());
        (m, slack)
    }
}

impl<T: Swap> Clone for Mem<T> {
    /// A second view of the same bytes, sharing the store.
    fn clone(&self) -> (r: Mem<T>)
        ensures
            self.wf() ==> r.wf(),
            r.bytes() == self.bytes(),
            r.spec_len() == self.spec_len(),
    {
        Mem { store: arc_share(&self.store), start: self.start, len: self.len, elem: PhantomData }
    }
}

impl<T: Swap> Default for Mem<T> {
    fn default() -> (r: Mem<T>)
        ensures
            r.wf(),
            r.spec_len() == 0,
    {
        Mem::empty()
    }
}

} // verus!
