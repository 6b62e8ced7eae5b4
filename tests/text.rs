use binutil::text::{isprint, shell_quote, shell_safe};

fn q(args: &[&str]) -> String {
    let v: Vec<String> = args.iter().map(|s| s.to_string()).collect();
    shell_quote(&v)
}

#[test]
fn safe_words_stay_bare() {
    assert_eq!(q(&["ls", "-l", "/usr/lib", "a_b.c@d+e"]), "ls -l /usr/lib a_b.c@d+e");
    assert_eq!(q(&[]), "");
}

#[test]
fn unsafe_words_are_quoted() {
    assert_eq!(q(&["a b"]), "\"a b\"");
    assert_eq!(q(&["$x", "`y`"]), "\"\\$x\" \"\\`y\\`\"");
    assert_eq!(q(&["say \"hi\""]), "\"say \\\"hi\\\"\"");
    assert_eq!(q(&["a\nb"]), "\"a\\nb\"");
    assert_eq!(q(&[""]), "");
    assert_eq!(q(&["x", ""]), "x ");
}

#[test]
fn unprintable_bytes_are_hex() {
    assert_eq!(q(&["\u{1}"]), "\"\\\\x01\"");
    assert_eq!(q(&["é"]), "\"\\\\xc3\\\\xa9\"");
    assert_eq!(q(&["a\tb"]), "\"a\tb\"");
}

#[test]
fn character_classes() {
    assert!(isprint('a'));
    assert!(isprint('\t'));
    assert!(!isprint('\u{7f}'));
    assert!(!isprint('\u{1}'));
    assert!(shell_safe('Z'));
    assert!(shell_safe('-'));
    assert!(!shell_safe(' '));
    assert!(!shell_safe('é'));
}
