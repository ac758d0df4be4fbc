use linkpad_core::text::{
    chars_le, chars_to_string, dedup_adjacent, find_sub, join_chars, parse_u64, sort_char_seqs,
    split_lines, split_ws, str_to_chars, sub_vec, trim, u64_to_dec, u64_to_hex,
};

fn chars(s: &str) -> Vec<char> {
    str_to_chars(s)
}

fn string(v: &[char]) -> String {
    chars_to_string(v)
}

#[test]
fn decimal_and_hex_rendering() {
    assert_eq!(string(&u64_to_dec(0)), "0");
    assert_eq!(string(&u64_to_dec(7890)), "7890");
    assert_eq!(string(&u64_to_dec(u64::MAX)), "18446744073709551615");
    assert_eq!(string(&u64_to_hex(0)), "0");
    assert_eq!(string(&u64_to_hex(0xdeadbeef)), "deadbeef");
}

#[test]
fn decimal_parsing_and_overflow() {
    assert_eq!(parse_u64(&chars("0")), Some(0));
    assert_eq!(parse_u64(&chars("007890")), Some(7890));
    assert_eq!(parse_u64(&chars("18446744073709551615")), Some(u64::MAX));
    assert_eq!(parse_u64(&chars("18446744073709551616")), None);
    assert_eq!(parse_u64(&chars("")), None);
    assert_eq!(parse_u64(&chars("12a")), None);
    assert_eq!(parse_u64(&chars("-1")), None);
}

#[test]
fn trimming_and_searching() {
    assert_eq!(string(&trim(&chars("  x y\t\r\n"))), "x y");
    assert_eq!(string(&trim(&chars("   "))), "");
    assert_eq!(find_sub(&chars("ss://x"), &chars("://")), Some(2));
    assert_eq!(find_sub(&chars("nothing"), &chars("://")), None);
    assert_eq!(string(&sub_vec(&chars("abcdef"), 2, 4)), "cd");
}

#[test]
fn line_and_token_splitting() {
    let lines = split_lines(&chars("a\r\nb\n\nc"));
    let lines: Vec<String> = lines.iter().map(|l| string(l)).collect();
    assert_eq!(lines, vec!["a", "b", "", "c"]);
    // no empty final line for text ending in a newline
    let ending = split_lines(&chars("x\n"));
    assert_eq!(ending.len(), 1);

    let tokens = split_ws(&chars("  one\ttwo  three "));
    let tokens: Vec<String> = tokens.iter().map(|t| string(t)).collect();
    assert_eq!(tokens, vec!["one", "two", "three"]);
}

#[test]
fn sorting_and_deduplication() {
    let sorted = sort_char_seqs(vec![chars("beta"), chars("alpha"), chars("beta")]);
    let unique = dedup_adjacent(sorted);
    let names: Vec<String> = unique.iter().map(|v| string(v)).collect();
    assert_eq!(names, vec!["alpha", "beta"]);
    assert!(chars_le(&chars("alpha"), &chars("beta")));
    assert!(chars_le(&chars("a"), &chars("ab")));
    assert!(!chars_le(&chars("b"), &chars("ab")));
}

#[test]
fn joining_with_separator() {
    let joined = join_chars(&vec![chars("a"), chars("bc"), chars("d")], &chars(", "));
    assert_eq!(string(&joined), "a, bc, d");
    let single = join_chars(&vec![chars("only")], &chars(", "));
    assert_eq!(string(&single), "only");
    let none = join_chars(&Vec::new(), &chars(", "));
    assert_eq!(string(&none), "");
}
