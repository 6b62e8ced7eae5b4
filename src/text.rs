use vstd::prelude::*;
use vstd::string::StringSliceAdditionalSpecFns;

verus! {

/// Whether the code point `c` is printed as it is: the printable ASCII
/// range and the whitespace controls from tab to carriage return.
pub open spec fn printable(c: u32) -> bool {
    if c >= 32 {
        c < 127
    } else {
        9 <= c <= 13
    }
}

/// Whether the code point `c` needs no quoting in a shell word.
pub open spec fn shell_safe_code(c: u32) -> bool {
    ||| 0x61 <= c <= 0x7a
    ||| 0x41 <= c <= 0x5a
    ||| 0x30 <= c <= 0x39
    ||| c == 0x5f
    ||| c == 0x5c
    ||| c == 0x2e
    ||| c == 0x40
    ||| c == 0x2f
    ||| c == 0x2b
    ||| c == 0x2d
}

pub fn isprint(c: char) -> (r: bool)
    ensures
        r == printable(c as u32),
{
    let c = c as u32;
    if c >= 32 {
        c < 127
    } else {
        let r = (1u32 << c) & 0x3e00 != 0;
        assert(r == (9 <= c <= 13)) by (bit_vector)
            requires
                c < 32,
                r == ((1u32 << c) & 0x3e00 != 0),
        ;
        r
    }
}

pub fn shell_safe(c: char) -> (r: bool)
    ensures
        r == shell_safe_code(c as u32),
{
    code_safe(c as u32)
}

fn code_safe(c: u32) -> (r: bool)
    ensures
        r == shell_safe_code(c),
{
    (0x61 <= c && c <= 0x7a) || (0x41 <= c && c <= 0x5a) || (0x30 <= c && c <= 0x39) || c == 0x5f
        || c == 0x5c || c == 0x2e || c == 0x40 || c == 0x2f || c == 0x2b || c == 0x2d
}

/// The lower-case hexadecimal digit of `d`.
pub open spec fn hex_digit(d: u8) -> u8 {
    if d < 10 {
        (0x30 + d) as u8
    } else {
        (0x61 + d - 10) as u8
    }
}

/// How one byte of a word stands between double quotes.
pub open spec fn escape_byte(b: u8) -> Seq<u8> {
    if b == 0x0a {
        seq![0x5cu8, 0x6eu8]
    } else if b == 0x24 || b == 0x60 || b == 0x5c || b == 0x22 {
        seq![0x5cu8, b]
    } else if !printable(b as u32) {
        seq![0x5cu8, 0x5cu8, 0x78u8, hex_digit(b / 16), hex_digit(b % 16)]
    } else {
        seq![b]
    }
}

/// The bytes of a word escaped one by one.
pub open spec fn escape_all(w: Seq<u8>) -> Seq<u8>
    decreases w.len(),
{
    if w.len() == 0 {
        seq![]
    } else {
        escape_all(w.drop_last()) + escape_byte(w.last())
    }
}

/// A word as the shell reads it back: as it is when every byte is safe,
/// otherwise escaped between double quotes.
pub open spec fn quote_word(w: Seq<u8>) -> Seq<u8> {
    if forall|i: int| 0 <= i < w.len() ==> shell_safe_code(#[trigger] w[i] as u32) {
        w
    } else {
        seq![0x22u8] + escape_all(w) + seq![0x22u8]
    }
}

/// The quoted words joined by single spaces.
pub open spec fn quote_line(words: Seq<Seq<u8>>) -> Seq<u8>
    decreases words.len(),
{
    if words.len() == 0 {
        seq![]
    } else if words.len() == 1 {
        quote_word(words[0])
    } else {
        quote_line(words.drop_last()) + seq![0x20u8] + quote_word(words.last())
    }
}

/// The bytes of each argument's text.
pub open spec fn arg_bytes(args: Seq<String>) -> Seq<Seq<u8>> {
    args.map_values(|a: String| vstd::utf8::encode_utf8(a@))
}

pub open spec fn ascii_chars(b: Seq<u8>) -> Seq<char> {
    b.map_values(|x: u8| x as char)
}

/// Relies on `String::from_utf8`: bytes that are all ASCII are valid UTF-8,
/// and each of them is the character with its code.
#[verifier::external_body]
fn ascii_string(b: Vec<u8>) -> (r: String)
    requires
        forall|i: int| 0 <= i < b@.len() ==> b@[i] < 128,
    ensures
        r@ == ascii_chars(b@),
{
    String::from_utf8(b).unwrap_or_default()
}

fn hex(d: u8) -> (r: u8)
    requires
        d < 16,
    ensures
        r == hex_digit(d),
{
    if d < 10 {
        0x30 + d
    } else {
        0x61 + d - 10
    }
}

fn push_all(out: &mut Vec<u8>, add: &[u8])
    ensures
        final(out)@ == old(out)@ + add@,
{
    let mut i: usize = 0;
    while i < add.len()
        invariant
            i <= add@.len(),
            out@ == old(out)@ + add@.subrange(0, i as int),
        decreases add.len() - i,
    {
        out.push(add[i]);
        i += 1;
        assert(out@ =~= old(out)@ + add@.subrange(0, i as int));
    }
    assert(add@.subrange(0, add@.len() as int) =~= add@);
}

/// Appends how one byte stands between double quotes.
fn push_escaped(out: &mut Vec<u8>, b: u8)
    ensures
        final(out)@ == old(out)@ + escape_byte(b),
{
    if b == 0x0a {
        push_all(out, &[0x5c, 0x6e]);
        assert(seq![0x5cu8, 0x6eu8] =~= escape_byte(b));
    } else if b == 0x24 || b == 0x60 || b == 0x5c || b == 0x22 {
        push_all(out, &[0x5c, b]);
        assert(seq![0x5cu8, b] =~= escape_byte(b));
    } else if !isprint(b as char) {
        push_all(out, &[0x5c, 0x5c, 0x78, hex(b / 16), hex(b % 16)]);
    } else {
        out.push(b);
    }
}

proof fn lemma_escape_ascii(b: u8)
    ensures
        forall|i: int| 0 <= i < escape_byte(b).len() ==> escape_byte(b)[i] < 128,
{
}

proof fn lemma_escape_step(w: Seq<u8>, i: int)
    requires
        0 <= i < w.len(),
    ensures
        escape_all(w.subrange(0, i + 1)) == escape_all(w.subrange(0, i)) + escape_byte(w[i]),
{
    let t = w.subrange(0, i + 1);
    assert(t.drop_last() =~= w.subrange(0, i));
}

proof fn lemma_line_step(args: Seq<String>, n: int)
    requires
        0 <= n < args.len(),
    ensures
        n == 0 ==> quote_line(arg_bytes(args.subrange(0, n + 1))) == quote_word(
            vstd::utf8::encode_utf8(args[n]@),
        ),
        n > 0 ==> quote_line(arg_bytes(args.subrange(0, n + 1))) == quote_line(
            arg_bytes(args.subrange(0, n)),
        ) + seq![0x20u8] + quote_word(vstd::utf8::encode_utf8(args[n]@)),
{
    let words = arg_bytes(args.subrange(0, n + 1));
    assert(words.drop_last() =~= arg_bytes(args.subrange(0, n)));
    assert(words.last() == vstd::utf8::encode_utf8(args[n]@));
}

/// Joins the arguments into one shell command line, quoting each one that
/// holds anything but letters, digits and `_\.@/+-`.
pub fn shell_quote(args: &[String]) -> (r: String)
    ensures
        r@ == ascii_chars(quote_line(arg_bytes(args@))),
{
    let mut sb: Vec<u8> = Vec::new();
    let mut n: usize = 0;
    proof {
        assert(arg_bytes(args@.subrange(0, 0)).len() == 0);
    }
    while n < args.len()
        invariant
            n <= args@.len(),
            sb@ == quote_line(arg_bytes(args@.subrange(0, n as int))),
            forall|i: int| 0 <= i < sb@.len() ==> sb@[i] < 128,
        decreases args.len() - n,
    {
        let arg = args[n].as_str().as_bytes();
        let ghost w = arg@;
        proof {
            lemma_line_step(args@, n as int);
            assert(w == vstd::utf8::encode_utf8(args@[n as int]@));
        }
        if n != 0 {
            sb.push(0x20);
        }
        let ghost pre = sb@;
        let mut safe = true;
        let mut i: usize = 0;
        while i < arg.len()
            invariant
                w == arg@,
                i <= arg@.len(),
                safe == (forall|j: int| 0 <= j < i ==> shell_safe_code(#[trigger] arg@[j] as u32)),
            decreases arg.len() - i,
        {
            if !code_safe(arg[i] as u32) {
                safe = false;
            }
            i += 1;
        }
        if safe {
            push_all(&mut sb, arg);
            assert(sb@ == pre + quote_word(w));
        } else {
            sb.push(0x22);
            let mut i: usize = 0;
            while i < arg.len()
                invariant
                    w == arg@,
                    i <= arg@.len(),
                    sb@ == pre + seq![0x22u8] + escape_all(arg@.subrange(0, i as int)),
                    forall|k: int| 0 <= k < sb@.len() ==> sb@[k] < 128,
                decreases arg.len() - i,
            {
                proof {
                    lemma_escape_step(arg@, i as int);
                    lemma_escape_ascii(arg@[i as int]);
                }
                let ghost before = sb@;
                push_escaped(&mut sb, arg[i]);
                i += 1;
                proof {
                    assert(sb@ =~= pre + seq![0x22u8] + escape_all(arg@.subrange(0, i as int)));
                    assert forall|k: int| 0 <= k < sb@.len() implies sb@[k] < 128 by {
                        if k >= before.len() {
                            assert(sb@[k] == escape_byte(arg@[i - 1])[k - before.len()]);
                        }
                    }
                }
            }
            sb.push(0x22);
            proof {
                assert(arg@.subrange(0, arg@.len() as int) =~= arg@);
                assert(sb@ =~= pre + quote_word(w));
            }
        }
        n += 1;
    }
    proof {
        assert(args@.subrange(0, args@.len() as int) =~= args@);
    }
    ascii_string(sb)
}

} // verus!
