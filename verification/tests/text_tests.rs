use luo9_sdk::text::{chars_of, find_exec, occurs_at_exec, push_decimal, str_eq};

#[test]
fn decimal_digits() {
    for n in [0u64, 1, 9, 10, 99, 100, 12345, u64::MAX] {
        let mut s = String::from("x");
        push_decimal(&mut s, n);
        assert_eq!(s, format!("x{}", n));
    }
}

#[test]
fn chars_and_equality() {
    assert_eq!(chars_of("a状b"), vec!['a', '状', 'b']);
    assert!(str_eq("状态", "状态"));
    assert!(!str_eq("状态", "状"));
    assert!(!str_eq("ab", "ac"));
    assert!(str_eq("", ""));
}

#[test]
fn finding() {
    let s = chars_of("abcabc");
    assert_eq!(find_exec(&s, &chars_of("ca"), 0), Some(2));
    assert_eq!(find_exec(&s, &chars_of("abc"), 1), Some(3));
    assert_eq!(find_exec(&s, &chars_of("abd"), 0), None);
    assert_eq!(find_exec(&s, &chars_of(""), 6), Some(6));
    assert!(occurs_at_exec(&s, &chars_of("bc"), 4));
    assert!(!occurs_at_exec(&s, &chars_of("bca"), 4));
}
