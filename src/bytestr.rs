use vstd::prelude::*;
use vstd::slice::{slice_subrange, slice_to_vec};
use vstd::string::StringSliceAdditionalSpecFns;
use vstd::utf8::{decode_utf8, encode_utf8, encode_utf8_decode_utf8, encode_utf8_valid_utf8, valid_utf8};

verus! {

/// What `String::from_utf8_lossy` makes of a byte sequence.
pub uninterp spec fn lossy_of(b: Seq<u8>) -> Seq<char>;

/// Relies on `String::from_utf8_lossy`: the text of the bytes, with each
/// invalid sequence replaced; it depends on the bytes alone, and bytes that
/// are valid UTF-8 come back as the text they encode.
#[verifier::external_body]
fn utf8_lossy(b: &[u8]) -> (r: String)
    ensures
        r@ == lossy_of(b@),
        valid_utf8(b@) ==> r@ == decode_utf8(b@),
{
    String::from_utf8_lossy(b).into_owned()
}

/// The first position of `pat` in `s`.
pub open spec fn first_index_of(s: Seq<u8>, pat: u8) -> Option<usize> {
    if exists|i: int| 0 <= i < s.len() && s[i] == pat {
        Some(
            (choose|i: int| 0 <= i < s.len() && s[i] == pat && forall|j: int| 0 <= j < i ==> s[j] != pat) as usize,
        )
    } else {
        None
    }
}

/// The last position of `pat` in `s`.
pub open spec fn last_index_of(s: Seq<u8>, pat: u8) -> Option<usize> {
    if exists|i: int| 0 <= i < s.len() && s[i] == pat {
        Some(
            (choose|i: int|
                0 <= i < s.len() && s[i] == pat && forall|j: int| i < j < s.len() ==> s[j] != pat) as usize,
        )
    } else {
        None
    }
}

/// Whether `pat` occurs in `s` at position `i`.
pub open spec fn occurs_at(s: Seq<u8>, pat: Seq<u8>, i: int) -> bool {
    0 <= i && i + pat.len() <= s.len() && s.subrange(i, i + pat.len()) == pat
}

/// The first position at which `pat` occurs in `s`.
pub open spec fn first_occurrence(s: Seq<u8>, pat: Seq<u8>) -> Option<usize> {
    if exists|i: int| occurs_at(s, pat, i) {
        Some((choose|i: int| occurs_at(s, pat, i) && forall|j: int| 0 <= j < i ==> !occurs_at(s, pat, j)) as usize)
    } else {
        None
    }
}

/// What follows the last `/` of a path, or the whole path when it has none.
pub open spec fn basename_of(s: Seq<u8>) -> Seq<u8> {
    match last_index_of(s, 0x2fu8) {
        Some(i) => s.subrange(i + 1, s.len() as int),
        None => s,
    }
}

proof fn lemma_first_is(s: Seq<u8>, pat: u8, k: int)
    requires
        0 <= k < s.len(),
        s[k] == pat,
        forall|j: int| 0 <= j < k ==> s[j] != pat,
    ensures
        first_index_of(s, pat) == Some(k as usize),
{
    assert(0 <= k < s.len() && s[k] == pat && forall|j: int| 0 <= j < k ==> s[j] != pat);
    let i = choose|i: int| 0 <= i < s.len() && s[i] == pat && forall|j: int| 0 <= j < i ==> s[j] != pat;
    assert(i == k) by {
        if i < k {
            assert(s[i] != pat);
        }
        if k < i {
            assert(s[k] != pat);
        }
    }
}

proof fn lemma_last_is(s: Seq<u8>, pat: u8, k: int)
    requires
        0 <= k < s.len(),
        s[k] == pat,
        forall|j: int| k < j < s.len() ==> s[j] != pat,
    ensures
        last_index_of(s, pat) == Some(k as usize),
{
    assert(0 <= k < s.len() && s[k] == pat && forall|j: int| k < j < s.len() ==> s[j] != pat);
    let i = choose|i: int| 0 <= i < s.len() && s[i] == pat && forall|j: int| i < j < s.len() ==> s[j] != pat;
    assert(i == k) by {
        if i < k {
            assert(s[k] != pat);
        }
        if k < i {
            assert(s[i] != pat);
        }
    }
}

proof fn lemma_occurrence_is(s: Seq<u8>, pat: Seq<u8>, k: int)
    requires
        occurs_at(s, pat, k),
        forall|j: int| 0 <= j < k ==> !occurs_at(s, pat, j),
    ensures
        first_occurrence(s, pat) == Some(k as usize),
{
    assert(occurs_at(s, pat, k) && forall|j: int| 0 <= j < k ==> !occurs_at(s, pat, j));
    let i = choose|i: int| occurs_at(s, pat, i) && forall|j: int| 0 <= j < i ==> !occurs_at(s, pat, j);
    assert(i == k) by {
        if i < k {
            assert(!occurs_at(s, pat, i));
        }
        if k < i {
            assert(!occurs_at(s, pat, k));
        }
    }
}

/// Text read back lossily is that text: the bytes of a `str` are valid
/// UTF-8 and decode to its characters.
pub proof fn lemma_lossy_of_text(s: Seq<char>)
    ensures
        valid_utf8(encode_utf8(s)),
        decode_utf8(encode_utf8(s)) == s,
{
    encode_utf8_valid_utf8(s);
    encode_utf8_decode_utf8(s);
}

/// A borrowed run of bytes with string operations and no promise of any
/// text encoding.
#[derive(Clone, Copy)]
pub struct ByteStr<'a>(pub &'a [u8]);

impl<'a> ByteStr<'a> {
    pub open spec fn bytes(&self) -> Seq<u8> {
        self.0@
    }

    pub fn from_bytes(s: &'a [u8]) -> (r: ByteStr<'a>)
        ensures
            r.bytes() == s@,
    {
        ByteStr(s)
    }

    pub fn from_str(s: &'a str) -> (r: ByteStr<'a>)
        ensures
            r.bytes() == s.spec_bytes(),
    {
        ByteStr(s.as_bytes())
    }

    pub fn as_bytes(&self) -> (r: &'a [u8])
        ensures
            r@ == self.bytes(),
    {
        self.0
    }

    pub fn len(&self) -> (r: usize)
        ensures
            r == self.bytes().len(),
    {
        self.0.len()
    }

    /// The byte at `i`.
    pub fn at(&self, i: usize) -> (r: u8)
        requires
            i < self.bytes().len(),
        ensures
            r == self.bytes()[i as int],
    {
        self.0[i]
    }

    /// The bytes from `from` up to `to`, without copying.
    pub fn range(&self, from: usize, to: usize) -> (r: ByteStr<'a>)
        requires
            from <= to <= self.bytes().len(),
        ensures
            r.bytes() == self.bytes().subrange(from as int, to as int),
    {
        ByteStr(slice_subrange(self.0, from, to))
    }

    /// The bytes as text, invalid sequences replaced.
    pub fn lossy(&self) -> (r: String)
        ensures
            r@ == lossy_of(self.bytes()),
            valid_utf8(self.bytes()) ==> r@ == decode_utf8(self.bytes()),
    {
        utf8_lossy(self.0)
    }

    pub fn find(&self, pat: u8) -> (r: Option<usize>)
        ensures
            r == first_index_of(self.bytes(), pat),
    {
        let s = self.0;
        let mut i: usize = 0;
        while i < s.len()
            invariant
                s@ == self.bytes(),
                i <= s@.len(),
                forall|j: int| 0 <= j < i ==> s@[j] != pat,
            decreases s.len() - i,
        {
            if s[i] == pat {
                proof {
                    lemma_first_is(s@, pat, i as int);
                }
                return Some(i);
            }
            i += 1;
        }
        None
    }

    pub fn rfind(&self, pat: u8) -> (r: Option<usize>)
        ensures
            r == last_index_of(self.bytes(), pat),
            r matches Some(i) ==> i < self.bytes().len(),
    {
        let s = self.0;
        let mut i: usize = s.len();
        while i > 0
            invariant
                s@ == self.bytes(),
                i <= s@.len(),
                forall|j: int| i <= j < s@.len() ==> s@[j] != pat,
            decreases i,
        {
            i -= 1;
            if s[i] == pat {
                proof {
                    lemma_last_is(s@, pat, i as int);
                }
                return Some(i);
            }
        }
        None
    }

    /// The first position at which `pat` occurs; an empty pattern occurs at
    /// the start.
    pub fn find_bstr(&self, pat: &ByteStr) -> (r: Option<usize>)
        ensures
            r == first_occurrence(self.bytes(), pat.bytes()),
    {
        let s = self.0;
        let p = pat.0;
        if p.len() > s.len() {
            assert forall|j: int| !occurs_at(s@, p@, j) by {}
            return None;
        }
        let n = s.len();
        let last = n - p.len();
        let mut i: usize = 0;
        while i <= last
            invariant
                s@ == self.bytes(),
                p@ == pat.bytes(),
                n == s@.len(),
                last == s@.len() - p@.len(),
                i <= last + 1,
                forall|j: int| 0 <= j < i ==> !occurs_at(s@, p@, j),
            decreases last + 1 - i,
        {
            let mut k: usize = 0;
            let mut same = true;
            while k < p.len()
                invariant
                    n == s@.len(),
                    last == s@.len() - p@.len(),
                    i <= last,
                    k <= p@.len(),
                    same == (forall|m: int| 0 <= m < k ==> s@[i + m] == p@[m]),
                decreases p.len() - k,
            {
                assert(i + k < s@.len());
                if s[i + k] != p[k] {
                    same = false;
                }
                k += 1;
            }
            if same {
                proof {
                    assert(s@.subrange(i as int, i + p@.len()) =~= p@);
                    lemma_occurrence_is(s@, p@, i as int);
                }
                return Some(i);
            }
            proof {
                assert(!occurs_at(s@, p@, i as int)) by {
                    let m = choose|m: int| 0 <= m < p@.len() && s@[i + m] != p@[m];
                    if occurs_at(s@, p@, i as int) {
                        assert(s@.subrange(i as int, i + p@.len())[m] == s@[i + m]);
                    }
                }
            }
            i += 1;
        }
        proof {
            assert forall|j: int| !occurs_at(s@, p@, j) by {
                if 0 <= j && j + p@.len() <= s@.len() {
                    assert(j < i);
                }
            }
        }
        None
    }

    /// What follows the last `/`, or the whole string when it has none.
    pub fn unix_basename(&self) -> (r: ByteStr<'a>)
        ensures
            r.bytes() == basename_of(self.bytes()),
    {
        let n = self.0.len();
        match self.rfind(0x2fu8) {
            Some(pos) => {
                self.range(pos + 1, n)
            },
            None => *self,
        }
    }

    /// Whether the bytes are those of the text `s`.
    pub fn eq_str(&self, s: &str) -> (r: bool)
        ensures
            r == (self.bytes() == s.spec_bytes()),
    {
        bytes_eq(self.0, s.as_bytes())
    }

    pub fn to_owned(&self) -> (r: ByteString)
        ensures
            r.0@ == self.bytes(),
    {
        ByteString(slice_to_vec(self.0))
    }
}

fn bytes_eq(a: &[u8], b: &[u8]) -> (r: bool)
    ensures
        r == (a@ == b@),
{
    if a.len() != b.len() {
        return false;
    }
    let mut i: usize = 0;
    while i < a.len()
        invariant
            a@.len() == b@.len(),
            i <= a@.len(),
            forall|j: int| 0 <= j < i ==> a@[j] == b@[j],
        decreases a.len() - i,
    {
        if a[i] != b[i] {
            return false;
        }
        i += 1;
    }
    assert(a@ =~= b@);
    true
}

/// An owned run of bytes with string operations.
#[derive(Clone, Debug, PartialEq, Eq, Hash)]
pub struct ByteString(pub Vec<u8>);

impl ByteString {
    pub fn new(s: &ByteStr) -> (r: ByteString)
        ensures
            r.0@ == s.bytes(),
    {
        ByteString(slice_to_vec(s.0))
    }

    pub fn from_bytes(s: &[u8]) -> (r: ByteString)
        ensures
            r.0@ == s@,
    {
        ByteString(slice_to_vec(s))
    }

    pub fn from_str(s: &str) -> (r: ByteString)
        ensures
            r.0@ == s.spec_bytes(),
    {
        ByteString::from_bytes(s.as_bytes())
    }

    pub fn from_vec(s: Vec<u8>) -> (r: ByteString)
        ensures
            r.0@ == s@,
    {
        ByteString(s)
    }

    pub fn from_string(s: String) -> (r: ByteString)
        ensures
            r.0@ == vstd::utf8::encode_utf8(s@),
    {
        ByteString::from_bytes(s.as_str().as_bytes())
    }

    pub fn with_capacity(c: usize) -> (r: ByteString)
        ensures
            r.0@ == Seq::<u8>::empty(),
    {
        ByteString(Vec::with_capacity(c))
    }

    /// The borrowed view of the bytes.
    pub fn as_bstr(&self) -> (r: ByteStr<'_>)
        ensures
            r.bytes() == self.0@,
    {
        ByteStr(self.0.as_slice())
    }

    pub fn push_bstr(&mut self, bs: &ByteStr)
        ensures
            final(self).0@ == old(self).0@ + bs.bytes(),
    {
        self.0.extend_from_slice(bs.0);
    }

    /// `left` followed by `right`.
    pub fn concat2(left: &ByteStr, right: &ByteStr) -> (r: ByteString)
        requires
            left.bytes().len() + right.bytes().len() <= usize::MAX,
        ensures
            r.0@ == left.bytes() + right.bytes(),
    {
        let mut result = ByteString::with_capacity(left.len() + right.len());
        result.push_bstr(left);
        result.push_bstr(right);
        assert(result.0@ =~= left.bytes() + right.bytes());
        result
    }

    /// Whether the bytes are those of the text `s`.
    pub fn eq_str(&self, s: &str) -> (r: bool)
        ensures
            r == (self.0@ == s.spec_bytes()),
    {
        bytes_eq(self.0.as_slice(), s.as_bytes())
    }
}

} // verus!
