use vstd::prelude::*;
use vstd::string::StringExecFns;
use crate::bytestr::ByteString;
use crate::endian::Endian;
use crate::mem::Mem;

verus! {

/// Read, write and execute together.
pub const PROT_ALL: u8 = 7;

/// The architecture of an executable, when known.
#[derive(Debug, PartialEq, Eq, Copy, Clone, Structural)]
pub enum Arch {
    Unknown,
}

/// One region of an executable: where it is mapped, where its bytes are in
/// the file, and what may be done with it.
#[derive(Debug, PartialEq, Eq, Clone)]
pub struct Segment {
    pub vmaddr: u64,
    pub vmsize: u64,
    pub fileoff: u64,
    pub filesize: u64,
    pub name: Option<ByteString>,
    pub prot: u8,
    pub private: u64,
}

/// What every executable format provides.
pub struct ExecBase {
    pub arch: Arch,
    pub endian: Endian,
    pub segments: Vec<Segment>,
    pub sections: Vec<Segment>,
    pub buf: Option<Mem<u8>>,
}

/// An input of no recognised format: the whole of it as one segment and
/// one section.
pub struct RawBinary {
    pub eb: ExecBase,
}

/// The region that covers `len` bytes of input from its start, mapped at
/// address zero with every permission.
pub open spec fn whole_input(len: nat) -> Segment {
    Segment {
        vmaddr: 0,
        vmsize: len as u64,
        fileoff: 0,
        filesize: len as u64,
        name: None,
        prot: PROT_ALL,
        private: 0,
    }
}

impl RawBinary {
    pub fn new(buf: Mem<u8>, _args: &str) -> (r: RawBinary)
        requires
            buf.wf(),
        ensures
            r.eb.arch == Arch::Unknown,
            r.eb.endian == Endian::BigEndian,
            r.eb.segments@ == seq![whole_input(buf.spec_len())],
            r.eb.sections@ == seq![whole_input(buf.spec_len())],
            r.eb.buf == Some(buf),
    {
        let len = buf.len() as u64;
        let mut segments: Vec<Segment> = Vec::new();
        segments.push(
            Segment { vmaddr: 0, vmsize: len, fileoff: 0, filesize: len, name: None, prot: PROT_ALL, private: 0 },
        );
        let mut sections: Vec<Segment> = Vec::new();
        sections.push(
            Segment { vmaddr: 0, vmsize: len, fileoff: 0, filesize: len, name: None, prot: PROT_ALL, private: 0 },
        );
        assert(segments@ =~= seq![whole_input(buf.spec_len())]);
        assert(sections@ =~= seq![whole_input(buf.spec_len())]);
        RawBinary {
            eb: ExecBase { arch: Arch::Unknown, endian: Endian::BigEndian, segments, sections, buf: Some(buf) },
        }
    }

    pub fn get_exec_base(&self) -> (r: &ExecBase)
        ensures
            r == &self.eb,
    {
        &self.eb
    }
}

/// How a prober rates an input, and what to build from it.
pub struct ProbeResult {
    pub desc: String,
    pub arch: Arch,
    pub likely: bool,
    pub cmd: Vec<String>,
}

/// The prober of last resort: it takes any input as raw bytes, and never
/// claims it likely.
pub struct RawProber;

impl RawProber {
    pub fn name(&self) -> (r: &'static str)
        ensures
            r@ == "raw"@,
    {
        "raw"
    }

    pub fn probe(&self, _buf: &Mem<u8>) -> (r: Vec<ProbeResult>)
        ensures
            r@.len() == 1,
            r@[0].desc@ == "raw"@,
            r@[0].arch == Arch::Unknown,
            !r@[0].likely,
            r@[0].cmd@.len() == 0,
    {
        let mut r: Vec<ProbeResult> = Vec::new();
        r.push(ProbeResult { desc: String::from_str("raw"), arch: Arch::Unknown, likely: false, cmd: Vec::new() });
        r
    }

    pub fn create(&self, buf: Mem<u8>, _pr: &ProbeResult, args: &str) -> (r: RawBinary)
        requires
            buf.wf(),
        ensures
            r.eb.segments@ == seq![whole_input(buf.spec_len())],
            r.eb.sections@ == seq![whole_input(buf.spec_len())],
            r.eb.buf == Some(buf),
    {
        RawBinary::new(buf, args)
    }
}

} // verus!
