use vstd::prelude::*;
use vstd::string::StringExecFns;

verus! {

/// An architecture-defined selector among the encodings of one
/// architecture; carried through unchanged.
#[derive(Debug, PartialEq, Eq, Copy, Clone, Structural)]
pub struct CodeMode(pub u32);

/// What a decoder needs to know of the architecture it decodes.
#[derive(Debug, PartialEq, Eq, Copy, Clone, Structural)]
pub struct ArchAndOptions {
    /// Bytes to skip after an instruction that cannot be decoded.
    pub insn_align: u32,
}

impl ArchAndOptions {
    pub fn natural_insn_align(&self, _mode: &CodeMode) -> (r: u32)
        ensures
            r == self.insn_align,
    {
        self.insn_align
    }
}

/// One decoding request: a window of bytes, the address of its first byte
/// and the decode submode.
#[derive(Clone, Copy)]
pub struct DisassemblerInput<'a> {
    pub data: &'a [u8],
    pub pc: u64,
    pub mode: CodeMode,
}

/// How a lead was found.
#[derive(Debug, PartialEq, Eq, Copy, Clone, Structural)]
pub enum TrawlLeadKind {
    NextInsn,
    JumpRef { mode: CodeMode },
    OtherRef,
}

/// A candidate address discovered by trawling.
#[derive(Debug, PartialEq, Eq, Copy, Clone, Structural)]
pub struct TrawlLead {
    pub addr: u64,
    pub kind: TrawlLeadKind,
}

/// Why a decoder could not be built.
#[derive(Debug)]
pub enum CreateDisError {
    InvalidArgs(String),
    Other(String),
}

impl CreateDisError {
    pub fn description(&self) -> (r: &String)
        ensures
            match self {
                CreateDisError::InvalidArgs(s) => r == s,
                CreateDisError::Other(s) => r == s,
            },
    {
        match self {
            CreateDisError::InvalidArgs(s) => s,
            CreateDisError::Other(s) => s,
        }
    }
}

/// One entry of a multi-instruction scan: the text (none where the bytes
/// have no readable form), the address, and the bytes taken.
pub type ScanEntry = (Option<String>, u64, u32);

/// The entry that the scan records at offset `off` of `data`, given what the
/// single-instruction decoder made of the bytes from there.
pub open spec fn scan_step(
    decoded: Option<(Option<String>, u32)>,
    pc: u64,
    off: nat,
    len: nat,
    align: nat,
) -> ScanEntry {
    let rest: nat = (len - off) as nat;
    match decoded {
        Some((text, n)) if 0 < n <= rest => (text, (pc + off) as u64, n),
        _ => (None, (pc + off) as u64, (if align < rest { align } else { rest }) as u32),
    }
}

/// Offsets at which every entry of a scan begins: each entry starts where
/// the one before it ended.
pub open spec fn entry_offset(entries: Seq<ScanEntry>, i: int) -> nat
    decreases i,
{
    if i <= 0 {
        0
    } else {
        entry_offset(entries, i - 1) + entries[i - 1].2 as nat
    }
}

/// A per-architecture decoder. Every capability is optional.
pub trait Disassembler {
    /// The architecture that `arch` returns; a decoder states it.
    open spec fn spec_arch(&self) -> ArchAndOptions {
        arbitrary()
    }

    /// What the single-instruction decoder returns for a window, an address
    /// and a submode: nothing, unless the decoder can decode.
    open spec fn decode(&self, data: Seq<u8>, pc: u64, mode: CodeMode) -> Option<(Option<String>, u32)> {
        None
    }

    fn arch(&self) -> (r: &ArchAndOptions)
        ensures
            *r == self.spec_arch(),
    ;

    fn can_disassemble_to_str(&self) -> bool {
        false
    }

    fn disassemble_insn_to_str(&self, input: &DisassemblerInput) -> (r: Option<(Option<String>, u32)>)
        ensures
            r == self.decode(input.data@, input.pc, input.mode),
    ;

    /// The scan of a whole window from its first byte (see `scan_spec`).
    fn disassemble_multiple_to_str(&self, input: &DisassemblerInput) -> (r: Vec<ScanEntry>)
        requires
            self.spec_arch().insn_align >= 1,
            input.pc + input.data@.len() <= u64::MAX,
        ensures
            r@ == scan_spec(
                |d: Seq<u8>, p: u64, m: CodeMode| self.decode(d, p, m),
                self.spec_arch().insn_align as nat,
                input.data@,
                input.pc,
                input.mode,
                0,
            ),
            r@.len() == 0 <==> input.data@.len() == 0,
            entry_offset(r@, r@.len() as int) == input.data@.len(),
            forall|i: int|
                0 <= i < r@.len() ==> {
                    &&& r@[i].2 > 0
                    &&& r@[i].1 == input.pc + entry_offset(r@, i)
                },
    {
        let ghost dec = |d: Seq<u8>, p: u64, m: CodeMode| self.decode(d, p, m);
        let mut result: Vec<ScanEntry> = Vec::new();
        let len = input.data.len();
        let nia = self.arch().natural_insn_align(&input.mode);
        let mut off: usize = 0;
        while off < len
            invariant
                off <= len == input.data@.len(),
                nia == self.spec_arch().insn_align,
                nia >= 1,
                input.pc + len <= u64::MAX,
                dec == (|d: Seq<u8>, p: u64, m: CodeMode| self.decode(d, p, m)),
                result@ + scan_spec(dec, nia as nat, input.data@, input.pc, input.mode, off as nat)
                    == scan_spec(dec, nia as nat, input.data@, input.pc, input.mode, 0),
            decreases len - off,
        {
            let (_, rest) = input.data.split_at(off);
            let pc = input.pc + off as u64;
            let sub = DisassemblerInput { data: rest, pc, mode: input.mode };
            let decoded = self.disassemble_insn_to_str(&sub);
            let ghost step = scan_step(decoded, input.pc, off as nat, len as nat, nia as nat);
            let remaining = len - off;
            let entry: ScanEntry = match decoded {
                Some((text, n)) if 0 < n && n as usize <= remaining => (text, pc, n),
                _ => {
                    let gap: u32 = if (nia as usize) < remaining { nia } else { remaining as u32 };
                    (None, pc, gap)
                },
            };
            proof {
                assert(decoded == dec(
                    input.data@.subrange(off as int, len as int),
                    (input.pc + off) as u64,
                    input.mode,
                ));
                let next = scan_spec(dec, nia as nat, input.data@, input.pc, input.mode, off as nat + step.2 as nat);
                assert(scan_spec(dec, nia as nat, input.data@, input.pc, input.mode, off as nat) == seq![step]
                    + next);
                assert(result@.push(entry) + next =~= result@ + seq![step] + next);
            }
            off = off + entry.2 as usize;
            result.push(entry);
        }
        proof {
            assert(result@ =~= result@ + scan_spec(dec, nia as nat, input.data@, input.pc, input.mode, off as nat));
            lemma_scan_covers_window(dec, nia as nat, input.data@, input.pc, input.mode);
        }
        result
    }

    fn can_trawl(&self) -> bool {
        false
    }

    /// Adds the leads found in a window to `leads`; `None` where the decoder
    /// cannot trawl, in which case `leads` is left as it was.
    fn trawl(&self, _input: &DisassemblerInput, leads: &mut Vec<TrawlLead>) -> (r: Option<()>)
        ensures
            r is None ==> final(leads)@ == old(leads)@,
    {
        None
    }
}

/// The scan of `data` from offset `off`: decode there; on success take the
/// decoded length, otherwise record a gap of the natural alignment (cut at
/// the end of the window); go on until the window is used up.
pub open spec fn scan_spec(
    decode: spec_fn(Seq<u8>, u64, CodeMode) -> Option<(Option<String>, u32)>,
    align: nat,
    data: Seq<u8>,
    pc: u64,
    mode: CodeMode,
    off: nat,
) -> Seq<ScanEntry>
    decreases data.len() - off,
{
    if off >= data.len() || align == 0 || align > u32::MAX {
        seq![]
    } else {
        let decoded = decode(data.subrange(off as int, data.len() as int), (pc + off) as u64, mode);
        let step = scan_step(decoded, pc, off, data.len(), align);
        seq![step] + scan_spec(decode, align, data, pc, mode, off + step.2 as nat)
    }
}

proof fn lemma_entry_offset_cons(x: ScanEntry, t: Seq<ScanEntry>, i: int)
    requires
        1 <= i <= t.len() + 1,
    ensures
        entry_offset(seq![x] + t, i) == x.2 as nat + entry_offset(t, i - 1),
    decreases i,
{
    let s = seq![x] + t;
    if i > 1 {
        lemma_entry_offset_cons(x, t, i - 1);
        assert(s[i - 1] == t[i - 2]);
    } else {
        assert(entry_offset(s, 0) == 0);
        assert(entry_offset(t, 0) == 0);
        assert(s[0] == x);
    }
}

proof fn lemma_scan_from(
    decode: spec_fn(Seq<u8>, u64, CodeMode) -> Option<(Option<String>, u32)>,
    align: nat,
    data: Seq<u8>,
    pc: u64,
    mode: CodeMode,
    off: nat,
)
    requires
        1 <= align <= u32::MAX,
        off <= data.len(),
        pc + data.len() <= u64::MAX,
    ensures
        ({
            let s = scan_spec(decode, align, data, pc, mode, off);
            &&& off + entry_offset(s, s.len() as int) == data.len()
            &&& forall|i: int|
                0 <= i < s.len() ==> {
                    &&& s[i].2 > 0
                    &&& s[i].1 == pc + off + entry_offset(s, i)
                    &&& off + entry_offset(s, i) < data.len()
                }
        }),
    decreases data.len() - off,
{
    let s = scan_spec(decode, align, data, pc, mode, off);
    if off < data.len() {
        let decoded = decode(data.subrange(off as int, data.len() as int), (pc + off) as u64, mode);
        let step = scan_step(decoded, pc, off, data.len(), align);
        let next = off + step.2 as nat;
        let t = scan_spec(decode, align, data, pc, mode, next);
        lemma_scan_from(decode, align, data, pc, mode, next);
        assert(s == seq![step] + t);
        lemma_entry_offset_cons(step, t, s.len() as int);
        assert forall|i: int| 0 <= i < s.len() implies {
            &&& s[i].2 > 0
            &&& s[i].1 == pc + off + entry_offset(s, i)
            &&& off + entry_offset(s, i) < data.len()
        } by {
            if i > 0 {
                lemma_entry_offset_cons(step, t, i);
                assert(s[i] == t[i - 1]);
            }
        }
    }
}

/// A scan tiles its window: the entries start at offset 0, each one starts
/// where the one before it ended, every entry takes at least one byte, and
/// the last one ends exactly at the end of the window. Each entry's address
/// is the window's address plus its offset.
pub proof fn lemma_scan_covers_window(
    decode: spec_fn(Seq<u8>, u64, CodeMode) -> Option<(Option<String>, u32)>,
    align: nat,
    data: Seq<u8>,
    pc: u64,
    mode: CodeMode,
)
    requires
        1 <= align <= u32::MAX,
        pc + data.len() <= u64::MAX,
    ensures
        ({
            let s = scan_spec(decode, align, data, pc, mode, 0);
            &&& entry_offset(s, s.len() as int) == data.len()
            &&& (data.len() > 0 <==> s.len() > 0)
            &&& forall|i: int|
                0 <= i < s.len() ==> {
                    &&& s[i].2 > 0
                    &&& s[i].1 == pc + entry_offset(s, i)
                    &&& entry_offset(s, i) < entry_offset(s, i + 1)
                }
        }),
{
    lemma_scan_from(decode, align, data, pc, mode, 0);
}

/// A named factory of decoders.
pub trait DisassemblerFamily {
    type Dis: Disassembler;

    /// The name that `name` returns; a family states it.
    open spec fn spec_name(&self) -> Seq<char> {
        arbitrary()
    }

    /// Whether `r` is a result this family's constructor may give for the
    /// architecture and the arguments; any, unless the family says more.
    open spec fn creates(&self, arch: ArchAndOptions, args: Seq<String>, r: Result<Self::Dis, CreateDisError>) -> bool {
        true
    }

    fn create_disassembler(&self, arch: ArchAndOptions, args: &[String]) -> (r: Result<Self::Dis, CreateDisError>)
        ensures
            self.creates(arch, args@, r),
    ;

    fn name(&self) -> (r: &str)
        ensures
            r@ == self.spec_name(),
    ;
}

/// What a decoder type provides to be built by name.
pub trait DisassemblerStatics: Disassembler + Sized {
    /// The name that `name` returns; a decoder type states it.
    open spec fn spec_static_name() -> Seq<char> {
        arbitrary()
    }

    /// Whether `r` is a result the constructor may give; any, unless the
    /// decoder type says more.
    open spec fn constructs(arch: ArchAndOptions, args: Seq<String>, r: Result<Self, CreateDisError>) -> bool {
        true
    }

    fn new_with_args(arch: ArchAndOptions, args: &[String]) -> (r: Result<Self, CreateDisError>)
        ensures
            Self::constructs(arch, args@, r),
    ;

    fn name() -> (r: &'static str)
        ensures
            r@ == Self::spec_static_name(),
    ;
}

/// The family of one decoder type.
pub struct DisassemblerFamilyImpl<D>(pub std::marker::PhantomData<D>);

impl<D: DisassemblerStatics> DisassemblerFamily for DisassemblerFamilyImpl<D> {
    type Dis = D;

    open spec fn spec_name(&self) -> Seq<char> {
        D::spec_static_name()
    }

    open spec fn creates(&self, arch: ArchAndOptions, args: Seq<String>, r: Result<D, CreateDisError>) -> bool {
        D::constructs(arch, args, r)
    }

    fn create_disassembler(&self, arch: ArchAndOptions, args: &[String]) -> (r: Result<D, CreateDisError>) {
        D::new_with_args(arch, args)
    }

    fn name(&self) -> (r: &str) {
        D::name()
    }
}

/// Index of the first family registered under `name`, if any.
pub open spec fn first_named<F: DisassemblerFamily>(dfs: Seq<F>, name: Seq<char>) -> Option<int> {
    if exists|i: int| 0 <= i < dfs.len() && dfs[i].spec_name() == name {
        let i = choose|i: int|
            0 <= i < dfs.len() && dfs[i].spec_name() == name && forall|j: int|
                0 <= j < i ==> dfs[j].spec_name() != name;
        Some(i)
    } else {
        None
    }
}

pub open spec fn no_such_family_message(name: Seq<char>) -> Seq<char> {
    "no disassembler named "@ + name
}

pub open spec fn empty_args_message() -> Seq<char> {
    "empty argument list passed to dis::create"@
}

proof fn lemma_first_named_exists<F: DisassemblerFamily>(dfs: Seq<F>, name: Seq<char>, k: int)
    requires
        0 <= k < dfs.len(),
        dfs[k].spec_name() == name,
        forall|j: int| 0 <= j < k ==> dfs[j].spec_name() != name,
    ensures
        first_named(dfs, name) == Some(k),
{
    let i = choose|i: int|
        0 <= i < dfs.len() && dfs[i].spec_name() == name && forall|j: int|
            0 <= j < i ==> dfs[j].spec_name() != name;
    assert(i == k) by {
        if i < k {
            assert(dfs[i].spec_name() != name);
        }
        if k < i {
            assert(dfs[k].spec_name() != name);
        }
    }
}

fn str_eq(a: &str, b: &String) -> (r: bool)
    ensures
        r == (a@ == b@),
{
    let owned = a.to_owned();
    owned.eq(b)
}

/// Builds a decoder from an argument list whose first element names the
/// family; the rest goes to that family's constructor.
pub fn create<F: DisassemblerFamily>(dfs: &[F], arch: ArchAndOptions, args: &[String]) -> (r: Result<F::Dis, CreateDisError>)
    ensures
        args@.len() == 0 ==> (r matches Err(CreateDisError::InvalidArgs(m)) && m@ == empty_args_message()),
        args@.len() > 0 ==> match first_named(dfs@, args@[0]@) {
            Some(i) => dfs@[i].creates(arch, args@.drop_first(), r),
            None => (r matches Err(CreateDisError::InvalidArgs(m)) && m@ == no_such_family_message(args@[0]@)),
        },
{
    if args.len() == 0 {
        return Err(CreateDisError::InvalidArgs(String::from_str("empty argument list passed to dis::create")));
    }
    let name = &args[0];
    let mut i: usize = 0;
    while i < dfs.len()
        invariant
            i <= dfs@.len(),
            args@.len() > 0,
            name == args@[0],
            forall|j: int| 0 <= j < i ==> dfs@[j].spec_name() != name@,
        decreases dfs.len() - i,
    {
        if str_eq(dfs[i].name(), name) {
            let (_, rest) = args.split_at(1);
            proof {
                lemma_first_named_exists(dfs@, name@, i as int);
                assert(rest@ =~= args@.drop_first());
            }
            return dfs[i].create_disassembler(arch, rest);
        }
        i += 1;
    }
    let mut msg = String::from_str("no disassembler named ");
    msg.append(name.as_str());
    assert(first_named(dfs@, name@) is None);
    Err(CreateDisError::InvalidArgs(msg))
}

} // verus!
