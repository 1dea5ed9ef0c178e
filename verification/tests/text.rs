use achieve::text::{
    chars_lt, chars_of, contains, esc, find, i64_string, nth_item, parse_i64, parse_u32, split_once,
    split_two, split_words, starts_with, str_eq, tail_after, trimmed, trimmed_end,
};

fn v(x: &str) -> Vec<char> {
    x.chars().collect()
}

fn st(x: &[char]) -> String {
    x.iter().collect()
}

#[test]
fn numbers_print_and_parse() {
    assert_eq!(i64_string(0), "0");
    assert_eq!(i64_string(-42), "-42");
    assert_eq!(i64_string(i64::MIN), "-9223372036854775808");
    assert_eq!(parse_i64(&v("+17")), Some(17));
    assert_eq!(parse_i64(&v("-0")), Some(0));
    assert_eq!(parse_i64(&v("9223372036854775808")), None);
    assert_eq!(parse_i64(&v(" 1")), None);
    assert_eq!(parse_i64(&v("")), None);
    assert_eq!(parse_u32(&v("4294967295")), Some(u32::MAX));
    assert_eq!(parse_u32(&v("-1")), None);
}

#[test]
fn trimming_and_words() {
    assert_eq!(st(&trimmed(&v("  a b \n"))), "a b");
    assert_eq!(st(&trimmed_end(&v("  a b \n"))), "  a b");
    let w: Vec<String> = split_words(&v("  one\ttwo  three ")).iter().map(|x| st(x)).collect();
    assert_eq!(w, vec!["one", "two", "three"]);
    assert!(split_words(&v("   ")).is_empty());
}

#[test]
fn searching_and_splitting() {
    assert_eq!(find(&v("hello world"), &v("o w")), Some(4));
    assert_eq!(find(&v("hello"), &v("z")), None);
    assert!(contains(&v("Niri session"), &v("session")));
    assert!(starts_with(&v("every:3:days"), &v("every:")));
    assert_eq!(st(&tail_after(&v("org.mozilla.firefox"), '.')), "firefox");
    assert_eq!(st(&tail_after(&v("kitty"), '.')), "kitty");
    let (a, b) = split_two(&v("09:30:15"), ':');
    assert_eq!((st(&a), b.map(|x| st(&x))), (s("09"), Some(s("30"))));
    assert_eq!(nth_item(&v("every:2:weeks"), ':', 2).map(|x| st(&x)), Some(s("weeks")));
    assert_eq!(nth_item(&v("every:2"), ':', 2), None);
    let once = split_once(&v("2026-07-20 14:30 x"), ' ').map(|(a, b)| (st(&a), st(&b)));
    assert_eq!(once, Some((s("2026-07-20"), s("14:30 x"))));
    assert!(chars_lt(&v("2026-07-01 09:00:00"), &v("2026-07-01 10:00:00")));
    assert!(chars_lt(&v("ab"), &v("abc")));
    assert!(!chars_lt(&v("abc"), &v("abc")));
    assert!(str_eq("x", "x"));
    assert_eq!(chars_of("héllo").len(), 5);
    assert_eq!(esc("\"q\""), "&quot;q&quot;");
}

fn s(x: &str) -> String {
    x.to_string()
}
