use binutil::dis::{
    create, ArchAndOptions, CodeMode, CreateDisError, Disassembler, DisassemblerFamily,
    DisassemblerFamilyImpl, DisassemblerInput, DisassemblerStatics, TrawlLead,
};
use std::marker::PhantomData;

/// Decodes a byte below 0x80 as a one-byte instruction, a byte from 0x80
/// up to 0xf0 as the first of a two-byte instruction, and nothing else.
struct Toy {
    arch: ArchAndOptions,
    args: Vec<String>,
}

impl Disassembler for Toy {
    fn arch(&self) -> &ArchAndOptions {
        &self.arch
    }

    fn can_disassemble_to_str(&self) -> bool {
        true
    }

    fn disassemble_insn_to_str(&self, input: &DisassemblerInput) -> Option<(Option<String>, u32)> {
        let b = input.data[0];
        if b < 0x80 {
            Some((Some(format!("op{}", b)), 1))
        } else if b < 0xf0 {
            Some((None, 2))
        } else {
            None
        }
    }
}

struct ToyFamily(&'static str);

impl DisassemblerFamily for ToyFamily {
    type Dis = Toy;

    fn create_disassembler(&self, arch: ArchAndOptions, args: &[String]) -> Result<Toy, CreateDisError> {
        if args.iter().any(|a| a == "bad") {
            return Err(CreateDisError::Other(format!("{} refuses", self.0)));
        }
        Ok(Toy { arch, args: args.to_vec() })
    }

    fn name(&self) -> &str {
        self.0
    }
}

fn toy(align: u32) -> Toy {
    Toy { arch: ArchAndOptions { insn_align: align }, args: vec![] }
}

fn strings(v: &[&str]) -> Vec<String> {
    v.iter().map(|s| s.to_string()).collect()
}

#[test]
fn scan_decodes_and_skips() {
    let d = toy(1);
    let data = [0x01u8, 0x81, 0x00, 0xff, 0x02];
    let input = DisassemblerInput { data: &data, pc: 0x1000, mode: CodeMode(0) };
    let r = d.disassemble_multiple_to_str(&input);
    assert_eq!(
        r,
        vec![
            (Some("op1".to_string()), 0x1000, 1),
            (None, 0x1001, 2),
            (None, 0x1003, 1),
            (Some("op2".to_string()), 0x1004, 1),
        ]
    );
}

#[test]
fn scan_covers_window_exactly() {
    let data = [0xffu8, 0xff, 0xff, 0xff, 0xff, 0x10, 0x85];
    for align in [1u32, 2, 3, 4, 8] {
        let d = toy(align);
        let input = DisassemblerInput { data: &data, pc: 0, mode: CodeMode(1) };
        let r = d.disassemble_multiple_to_str(&input);
        let mut off = 0u64;
        for (_, addr, len) in &r {
            assert_eq!(*addr, off);
            assert!(*len > 0);
            off += *len as u64;
        }
        assert_eq!(off, data.len() as u64);
    }
}

#[test]
fn scan_of_empty_window() {
    let d = toy(4);
    let input = DisassemblerInput { data: &[], pc: 5, mode: CodeMode(0) };
    assert!(d.disassemble_multiple_to_str(&input).is_empty());
}

#[test]
fn no_trawling_by_default() {
    let d = toy(1);
    let input = DisassemblerInput { data: &[1, 2], pc: 0, mode: CodeMode(0) };
    let mut leads: Vec<TrawlLead> = Vec::new();
    assert!(!d.can_trawl());
    assert!(d.trawl(&input, &mut leads).is_none());
    assert!(leads.is_empty());
}

#[test]
fn create_without_arguments_fails() {
    let fams = [ToyFamily("x")];
    match create(&fams, ArchAndOptions { insn_align: 1 }, &[]) {
        Err(CreateDisError::InvalidArgs(m)) => assert_eq!(m, "empty argument list passed to dis::create"),
        _ => panic!("expected invalid arguments"),
    }
}

#[test]
fn create_names_an_unknown_family() {
    let fams = [ToyFamily("x"), ToyFamily("y")];
    match create(&fams, ArchAndOptions { insn_align: 1 }, &strings(&["nonexistent"])) {
        Err(CreateDisError::InvalidArgs(m)) => {
            assert_eq!(m, "no disassembler named nonexistent");
            assert!(m.contains("nonexistent"));
        },
        _ => panic!("expected invalid arguments"),
    }
}

#[test]
fn create_dispatches_to_the_first_match() {
    let fams = [ToyFamily("y"), ToyFamily("x"), ToyFamily("x")];
    let d = match create(&fams, ArchAndOptions { insn_align: 4 }, &strings(&["x", "a", "b"])) {
        Ok(d) => d,
        Err(_) => panic!("expected a decoder"),
    };
    assert_eq!(d.args, strings(&["a", "b"]));
    assert_eq!(d.arch().insn_align, 4);
    match create(&fams, ArchAndOptions { insn_align: 4 }, &strings(&["x", "bad"])) {
        Err(e) => assert_eq!(e.description(), "x refuses"),
        Ok(_) => panic!("expected the family's error"),
    }
}

impl DisassemblerStatics for Toy {
    fn new_with_args(arch: ArchAndOptions, args: &[String]) -> Result<Toy, CreateDisError> {
        Ok(Toy { arch, args: args.to_vec() })
    }

    fn name() -> &'static str {
        "toy"
    }
}

#[test]
fn family_of_a_decoder_type() {
    let fams = [DisassemblerFamilyImpl::<Toy>(PhantomData)];
    assert_eq!(fams[0].name(), "toy");
    let d = match create(&fams, ArchAndOptions { insn_align: 2 }, &strings(&["toy", "q"])) {
        Ok(d) => d,
        Err(_) => panic!("expected a decoder"),
    };
    assert_eq!(d.args, strings(&["q"]));
    assert!(d.can_disassemble_to_str());
}
