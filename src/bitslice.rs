use vstd::prelude::*;

verus! {

/// One run of a bit field: the position of its lowest bit in the
/// instruction word, the position of that bit in the field value, and the
/// number of bits.
#[derive(Debug, PartialEq, Eq, Copy, Clone, Structural)]
pub struct Run(pub u8, pub u8, pub u8);

/// A bit field of a 32-bit instruction word made of up to five runs; unused
/// runs have length zero.
#[derive(Debug, Copy, Clone)]
pub struct Bitslice {
    pub runs: [Run; 5],
}

/// Rotation of a 32-bit word to the left by `r` places.
#[verifier::inline]
pub open spec fn rotl(x: u32, r: u32) -> u32 {
    if r == 0 {
        x
    } else {
        ((x << r) | (x >> ((32u32 - r) as u32))) as u32
    }
}

/// The low `len` bits set.
pub open spec fn low_mask(len: u8) -> u32 {
    if len >= 32 {
        0xffff_ffffu32
    } else {
        ((1u32 << len) - 1) as u32
    }
}

/// The bits that a run occupies in the instruction word.
pub open spec fn word_mask(run: Run) -> u32 {
    rotl(low_mask(run.2), (run.0 % 32) as u32)
}

/// The bits that a run occupies in the field value.
pub open spec fn field_mask(run: Run) -> u32 {
    rotl(low_mask(run.2), (run.1 % 32) as u32)
}

/// The rotation that carries a run from the word to the field.
pub open spec fn to_field(run: Run) -> u32 {
    ((run.1 % 32 + 32 - run.0 % 32) % 32) as u32
}

/// The rotation that carries a run from the field back to the word.
pub open spec fn to_word(run: Run) -> u32 {
    ((run.0 % 32 + 32 - run.1 % 32) % 32) as u32
}

/// The field value gathered from `word` by the first `n` runs.
pub open spec fn get_spec(runs: Seq<Run>, word: u32, n: nat) -> u32
    decreases n,
{
    if n == 0 || n > runs.len() {
        0
    } else {
        let run = runs[n - 1];
        get_spec(runs, word, (n - 1) as nat) | (rotl(word, to_field(run)) & field_mask(run))
    }
}

/// `word` with the bits of the first `n` runs replaced from `field`.
pub open spec fn set_spec(runs: Seq<Run>, word: u32, field: u32, n: nat) -> u32
    decreases n,
{
    if n == 0 || n > runs.len() {
        word
    } else {
        let run = runs[n - 1];
        let prev = set_spec(runs, word, field, (n - 1) as nat);
        (prev & !word_mask(run)) | (rotl(field, to_word(run)) & word_mask(run))
    }
}

fn rotate(x: u32, r: u32) -> (y: u32)
    requires
        r < 32,
    ensures
        y == rotl(x, r),
{
    if r == 0 {
        x
    } else {
        (x << r) | (x >> (32 - r))
    }
}

fn run_mask(len: u8) -> (m: u32)
    ensures
        m == low_mask(len),
{
    if len >= 32 {
        0xffff_ffff
    } else {
        assert(1u32 << len >= 1) by (bit_vector)
            requires
                len < 32,
        ;
        (1u32 << len) - 1
    }
}

impl Bitslice {
    pub fn new(runs: [Run; 5]) -> (b: Bitslice)
        ensures
            b.runs == runs,
    {
        Bitslice { runs }
    }

    /// Gathers the field from an instruction word: each run's bits are
    /// rotated from their place in the word to their place in the field.
    pub fn get(&self, insn: u32) -> (r: u32)
        ensures
            r == get_spec(self.runs@, insn, 5),
    {
        let mut val: u32 = 0;
        let mut i: usize = 0;
        while i < 5
            invariant
                i <= 5,
                self.runs@.len() == 5,
                val == get_spec(self.runs@, insn, i as nat),
            decreases 5 - i,
        {
            let run = self.runs[i];
            let rot = ((run.1 % 32) as u32 + 32 - (run.0 % 32) as u32) % 32;
            let mask = rotate(run_mask(run.2), (run.1 % 32) as u32);
            val = val | (rotate(insn, rot) & mask);
            i += 1;
        }
        val
    }

    /// Puts a field value into an instruction word: each run's bits of the
    /// word are replaced by the matching bits of the field.
    pub fn set(&self, insn: u32, field_val: u32) -> (r: u32)
        ensures
            r == set_spec(self.runs@, insn, field_val, 5),
    {
        let mut val: u32 = insn;
        let mut i: usize = 0;
        while i < 5
            invariant
                i <= 5,
                self.runs@.len() == 5,
                val == set_spec(self.runs@, insn, field_val, i as nat),
            decreases 5 - i,
        {
            let run = self.runs[i];
            let rot = ((run.0 % 32) as u32 + 32 - (run.1 % 32) as u32) % 32;
            let mask = rotate(run_mask(run.2), (run.0 % 32) as u32);
            val = (val & !mask) | (rotate(field_val, rot) & mask);
            i += 1;
        }
        val
    }
}

/// No two runs share a bit, in the word or in the field.
pub open spec fn runs_disjoint(runs: Seq<Run>) -> bool {
    forall|i: int, j: int|
        0 <= i < runs.len() && 0 <= j < runs.len() && i != j ==> {
            &&& #[trigger] word_mask(runs[i]) & #[trigger] word_mask(runs[j]) == 0
            &&& field_mask(runs[i]) & field_mask(runs[j]) == 0
        }
}

/// The bits of the word covered by the first `n` runs.
pub open spec fn word_cover(runs: Seq<Run>, n: nat) -> u32
    decreases n,
{
    if n == 0 || n > runs.len() {
        0
    } else {
        word_cover(runs, (n - 1) as nat) | word_mask(runs[n - 1])
    }
}

/// The bits of the field covered by the first `n` runs.
pub open spec fn field_cover(runs: Seq<Run>, n: nat) -> u32
    decreases n,
{
    if n == 0 || n > runs.len() {
        0
    } else {
        field_cover(runs, (n - 1) as nat) | field_mask(runs[n - 1])
    }
}

proof fn lemma_replace_same(p: u32, a: u32, m: u32) by (bit_vector)
    ensures
        ((p & !m) | (a & m)) & m == a & m,
{
}

proof fn lemma_replace_other(p: u32, a: u32, m: u32, m2: u32) by (bit_vector)
    requires
        m & m2 == 0,
    ensures
        ((p & !m) | (a & m)) & m2 == p & m2,
{
}

proof fn lemma_replace_outside(p: u32, a: u32, m: u32, u: u32, w: u32) by (bit_vector)
    requires
        p & !u == w & !u,
    ensures
        ((p & !m) | (a & m)) & !(u | m) == w & !(u | m),
{
}

proof fn lemma_rotl_and(x: u32, y: u32, r: u32) by (bit_vector)
    requires
        r < 32,
    ensures
        rotl(x & y, r) == rotl(x, r) & rotl(y, r),
{
}

#[verifier::rlimit(100)]
proof fn lemma_rotl_rotl_low(x: u32, a: u32, b: u32) by (bit_vector)
    requires
        a < 32,
        b < 32,
        a + b < 32,
    ensures
        rotl(rotl(x, a), b) == rotl(x, (a + b) as u32),
{
}

#[verifier::rlimit(100)]
proof fn lemma_rotl_rotl_high(x: u32, a: u32, b: u32) by (bit_vector)
    requires
        a < 32,
        b < 32,
        a + b >= 32,
    ensures
        rotl(rotl(x, a), b) == rotl(x, (a + b - 32) as u32),
{
}

proof fn lemma_rotl_rotl(x: u32, a: u32, b: u32)
    requires
        a < 32,
        b < 32,
    ensures
        rotl(rotl(x, a), b) == rotl(x, ((a + b) % 32) as u32),
{
    if a + b < 32 {
        lemma_rotl_rotl_low(x, a, b);
    } else {
        lemma_rotl_rotl_high(x, a, b);
    }
}

proof fn lemma_rotate_back(s: u32, v: u32, low: u32, i: u32, o: u32)
    requires
        i < 32,
        o < 32,
        s & rotl(low, i) == rotl(v, ((i + 32 - o) % 32) as u32) & rotl(low, i),
    ensures
        rotl(s, ((o + 32 - i) % 32) as u32) & rotl(low, o) == v & rotl(low, o),
{
    let tf = ((o + 32 - i) % 32) as u32;
    let tw = ((i + 32 - o) % 32) as u32;
    lemma_rotl_rotl(low, i, tf);
    assert((i + tf) % 32 == o);
    lemma_rotl_and(s, rotl(low, i), tf);
    lemma_rotl_and(rotl(v, tw), rotl(low, i), tf);
    lemma_rotl_rotl(v, tw, tf);
    assert((tw + tf) % 32 == 0);
}

proof fn lemma_or_masks(g: u32, v: u32, u: u32, m: u32) by (bit_vector)
    requires
        g == v & u,
    ensures
        g | (v & m) == v & (u | m),
{
}

proof fn lemma_set_places(runs: Seq<Run>, w: u32, v: u32, n: nat)
    requires
        n <= runs.len(),
        runs_disjoint(runs),
    ensures
        forall|j: int|
            0 <= j < n ==> set_spec(runs, w, v, n) & word_mask(#[trigger] runs[j])
                == rotl(v, to_word(runs[j])) & word_mask(runs[j]),
        set_spec(runs, w, v, n) & !word_cover(runs, n) == w & !word_cover(runs, n),
    decreases n,
{
    if n > 0 {
        let k = (n - 1) as nat;
        lemma_set_places(runs, w, v, k);
        let prev = set_spec(runs, w, v, k);
        let run = runs[k as int];
        let a = rotl(v, to_word(run));
        let m = word_mask(run);
        lemma_replace_same(prev, a, m);
        lemma_replace_outside(prev, a, m, word_cover(runs, k), w);
        assert forall|j: int| 0 <= j < n implies set_spec(runs, w, v, n) & word_mask(#[trigger] runs[j])
            == rotl(v, to_word(runs[j])) & word_mask(runs[j]) by {
            if j < k {
                assert(m & word_mask(runs[j]) == 0);
                lemma_replace_other(prev, a, m, word_mask(runs[j]));
            }
        }
    } else {
        assert(w & !0u32 == w & !0u32);
    }
}

proof fn lemma_get_gathers(runs: Seq<Run>, s: u32, v: u32, n: nat)
    requires
        n <= runs.len(),
        forall|j: int|
            0 <= j < n ==> s & word_mask(#[trigger] runs[j]) == rotl(v, to_word(runs[j])) & word_mask(
                runs[j],
            ),
    ensures
        get_spec(runs, s, n) == v & field_cover(runs, n),
    decreases n,
{
    if n > 0 {
        let k = (n - 1) as nat;
        lemma_get_gathers(runs, s, v, k);
        let run = runs[k as int];
        let i = (run.0 % 32) as u32;
        let o = (run.1 % 32) as u32;
        assert(s & word_mask(runs[k as int]) == rotl(v, to_word(runs[k as int])) & word_mask(runs[k as int]));
        assert(to_word(run) == ((i + 32 - o) % 32) as u32);
        assert(to_field(run) == ((o + 32 - i) % 32) as u32);
        lemma_rotate_back(s, v, low_mask(run.2), i, o);
        lemma_or_masks(get_spec(runs, s, k), v, field_cover(runs, k), field_mask(run));
    } else {
        assert(v & 0u32 == 0u32) by (bit_vector);
    }
}

/// Setting a field and reading it back: for runs that share no bit, and a
/// field value with no bit outside the runs' places in the field, reading
/// the field from the word that `set` made gives that value, and `set`
/// leaves every bit of the word outside the runs as it was.
pub proof fn lemma_set_then_get(b: Bitslice, w: u32, v: u32)
    requires
        runs_disjoint(b.runs@),
        v & !field_cover(b.runs@, 5) == 0,
    ensures
        get_spec(b.runs@, set_spec(b.runs@, w, v, 5), 5) == v,
        set_spec(b.runs@, w, v, 5) & !word_cover(b.runs@, 5) == w & !word_cover(b.runs@, 5),
{
    let runs = b.runs@;
    assert(runs.len() == 5);
    lemma_set_places(runs, w, v, 5);
    lemma_get_gathers(runs, set_spec(runs, w, v, 5), v, 5);
    let u = field_cover(runs, 5);
    assert(v & u == v) by (bit_vector)
        requires
            v & !u == 0,
    ;
}

} // verus!
