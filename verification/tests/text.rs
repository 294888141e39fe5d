use renumber::number::{decimal_len, parse_number, push_decimal, push_zero_padded};
use renumber::path::{find_file_name, get_file_name, join};
use renumber::sort::sort_texts;
use renumber::text::{chars_of, text_eq, text_le};

fn padded(n: usize, width: usize) -> String {
    let mut out = String::new();
    push_zero_padded(&mut out, n, width);
    out
}

#[test]
fn index_three_is_written_with_six_digits() {
    assert_eq!(padded(3, 6), "000003");
}

#[test]
fn padding_fills_up_to_the_width() {
    assert_eq!(padded(0, 6), "000000");
    assert_eq!(padded(9, 6), "000009");
    assert_eq!(padded(10, 6), "000010");
    assert_eq!(padded(42, 6), "000042");
    assert_eq!(padded(99_999, 6), "099999");
    assert_eq!(padded(100_000, 6), "100000");
    assert_eq!(padded(999_999, 6), "999999");
    assert_eq!(padded(7, 1), "7");
    assert_eq!(padded(7, 0), "7");
    assert_eq!(padded(7, 3), "007");
}

#[test]
fn a_wide_number_is_not_clipped() {
    assert_eq!(padded(1_000_000, 6), "1000000");
    assert_eq!(padded(1_234_567, 6), "1234567");
    assert_eq!(padded(usize::MAX, 6), usize::MAX.to_string());
}

#[test]
fn padding_appends_to_what_is_there() {
    let mut out = String::from("out_");
    push_zero_padded(&mut out, 12, 6);
    assert_eq!(out, "out_000012");
}

#[test]
fn padding_agrees_with_the_formatter() {
    for n in [0usize, 1, 5, 10, 11, 99, 100, 101, 12_345, 654_321, 999_999, 1_000_000, 98_765_432] {
        assert_eq!(padded(n, 6), format!("{:06}", n));
    }
}

#[test]
fn decimal_notation() {
    let mut out = String::new();
    push_decimal(&mut out, 0);
    assert_eq!(out, "0");
    let mut out = String::from("x");
    push_decimal(&mut out, 9_080_706);
    assert_eq!(out, "x9080706");
    assert_eq!(decimal_len(0), 1);
    assert_eq!(decimal_len(9), 1);
    assert_eq!(decimal_len(10), 2);
    assert_eq!(decimal_len(999_999), 6);
    assert_eq!(decimal_len(1_000_000), 7);
    assert_eq!(decimal_len(usize::MAX), usize::MAX.to_string().len());
}

#[test]
fn numbers_are_read_back() {
    assert_eq!(parse_number("42"), Some(42));
    assert_eq!(parse_number("0"), Some(0));
    assert_eq!(parse_number("000042"), Some(42));
    assert_eq!(parse_number("+42"), Some(42));
    assert_eq!(parse_number("1000000"), Some(1_000_000));
}

#[test]
fn what_is_no_number_is_refused() {
    assert_eq!(parse_number(""), None);
    assert_eq!(parse_number("+"), None);
    assert_eq!(parse_number("-"), None);
    assert_eq!(parse_number("-1"), None);
    assert_eq!(parse_number("-0"), None);
    assert_eq!(parse_number("++1"), None);
    assert_eq!(parse_number("4 2"), None);
    assert_eq!(parse_number(" 42"), None);
    assert_eq!(parse_number("42 "), None);
    assert_eq!(parse_number("4x"), None);
    assert_eq!(parse_number("x4"), None);
    assert_eq!(parse_number("1.5"), None);
    assert_eq!(parse_number("\u{ff14}\u{ff12}"), None);
    assert_eq!(parse_number("4\u{0662}"), None);
}

#[test]
fn numbers_beyond_the_machine_are_refused() {
    let max = usize::MAX.to_string();
    assert_eq!(parse_number(&max), Some(usize::MAX));
    let mut beyond = max.clone();
    beyond.push('0');
    assert_eq!(parse_number(&beyond), None);
    let last = max.chars().last().unwrap();
    let mut next = max[..max.len() - 1].to_string();
    next.push(char::from_u32(last as u32 + 1).unwrap());
    assert_eq!(parse_number(&next), None);
    assert_eq!(parse_number("99999999999999999999999999999999999999999999"), None);
    assert_eq!(parse_number("9999999999999999999999999999999999999999999x"), None);
}

#[test]
fn reading_agrees_with_the_standard_parser() {
    let samples = [
        "", "+", "-", "0", "00", "7", "+7", "-7", "+-7", "++7", "12a", "a12", " 12", "12 ", "1_000",
        "4294967295", "4294967296", "18446744073709551615", "18446744073709551616",
        "+18446744073709551615", "000000000000000000000000000001", "1e3", "0x10", "٣", "１２",
    ];
    for s in samples {
        assert_eq!(parse_number(s), s.parse::<usize>().ok(), "for {:?}", s);
    }
}

#[test]
fn written_numbers_read_back() {
    for n in [0usize, 3, 42, 999_999, 1_000_000, usize::MAX] {
        assert_eq!(parse_number(&padded(n, 6)), Some(n));
    }
}

#[test]
fn file_name_is_the_last_component() {
    assert_eq!(get_file_name("/tmp/foo.txt"), "foo.txt");
    assert_eq!(get_file_name("foo.txt"), "foo.txt");
    assert_eq!(get_file_name("a/b/c"), "c");
    assert_eq!(get_file_name("/usr/bin/"), "bin");
    assert_eq!(get_file_name("tmp/foo.txt/."), "foo.txt");
    assert_eq!(get_file_name("foo.txt/.//"), "foo.txt");
    assert_eq!(get_file_name("./a"), "a");
    assert_eq!(get_file_name("a//b"), "b");
    assert_eq!(get_file_name("dir/.hidden"), ".hidden");
    assert_eq!(get_file_name("dir/..."), "...");
    assert_eq!(get_file_name("dir/a..b"), "a..b");
    assert_eq!(get_file_name("/d/\u{e9}t\u{e9}.png"), "\u{e9}t\u{e9}.png");
}

#[test]
fn some_paths_have_no_file_name() {
    assert_eq!(find_file_name(""), None);
    assert_eq!(find_file_name("/"), None);
    assert_eq!(find_file_name("//"), None);
    assert_eq!(find_file_name("."), None);
    assert_eq!(find_file_name("./"), None);
    assert_eq!(find_file_name("/."), None);
    assert_eq!(find_file_name(".."), None);
    assert_eq!(find_file_name("foo.txt/.."), None);
    assert_eq!(find_file_name("a/../"), None);
    assert_eq!(find_file_name("a/.././"), None);
    assert_eq!(find_file_name("a/b"), Some("b"));
}

#[test]
fn file_names_agree_with_the_standard_path() {
    let parts = ["", "/", "//", ".", "..", "...", "a", "b.txt", ".h", "a.", "é", "a b"];
    let mut samples: Vec<String> = Vec::new();
    for x in parts {
        for y in parts {
            for z in parts {
                samples.push(format!("{}{}{}", x, y, z));
                samples.push(format!("{}/{}/{}", x, y, z));
            }
        }
    }
    for s in &samples {
        let expected = std::path::Path::new(s).file_name().map(|n| n.to_str().unwrap());
        assert_eq!(find_file_name(s), expected, "for {:?}", s);
    }
}

#[test]
fn joined_paths_agree_with_the_standard_path() {
    for dir in ["", "/", "d", "d/", "/a/b", "/a/b/", "./x", "é"] {
        for name in ["x", "out_000001.dat", "a b", "é.png", "sub-x"] {
            let mut expected = std::path::PathBuf::from(dir);
            expected.push(name);
            assert_eq!(join(dir, name), expected.to_str().unwrap(), "for {:?} and {:?}", dir, name);
        }
    }
}

#[test]
fn join_puts_one_separator_between() {
    assert_eq!(join("/dir", "out_000000.dat"), "/dir/out_000000.dat");
    assert_eq!(join("/dir/", "x"), "/dir/x");
    assert_eq!(join("dir", "x"), "dir/x");
    assert_eq!(join("", "x"), "x");
    assert_eq!(join("/", "x"), "/x");
    assert_eq!(join("d", ""), "d/");
    assert_eq!(join("d", "/x"), "d//x");
}

#[test]
fn order_of_texts() {
    assert!(text_le("", ""));
    assert!(text_le("", "a"));
    assert!(!text_le("a", ""));
    assert!(text_le("a", "a"));
    assert!(text_le("a", "b"));
    assert!(!text_le("b", "a"));
    assert!(text_le("a", "ab"));
    assert!(!text_le("ab", "a"));
    assert!(text_le("ab", "b"));
    assert!(text_le("B", "a"));
    assert!(text_le("a10", "a2"));
    assert!(text_le("/d/a.txt", "/d/a.txt.bak"));
    assert!(text_le("z", "\u{e9}"));
    assert!(text_le("\u{e9}", "\u{4e2d}"));
    assert!(text_le("\u{ffff}", "\u{10000}"));
    assert!(!text_le("\u{10000}", "\u{ffff}"));
}

#[test]
fn order_of_texts_agrees_with_the_standard_order() {
    let samples = ["", "a", "A", "ab", "b", "a/b", "a-b", "a.b", "é", "e", "中", "\u{10000}", "\u{ffff}", "zz", "a\u{0}"];
    for a in samples {
        for b in samples {
            assert_eq!(text_le(a, b), a <= b, "for {:?} and {:?}", a, b);
            assert_eq!(text_eq(a, b), a == b, "for {:?} and {:?}", a, b);
        }
    }
}

#[test]
fn equality_of_texts() {
    assert!(text_eq("", ""));
    assert!(text_eq("--cp", "--cp"));
    assert!(!text_eq("--cp", "--cpx"));
    assert!(!text_eq("--cpx", "--cp"));
    assert!(!text_eq("--cp", "--mv"));
}

#[test]
fn characters_of_a_text() {
    assert_eq!(chars_of(""), Vec::<char>::new());
    assert_eq!(chars_of("a\u{e9}\u{4e2d}"), vec!['a', '\u{e9}', '\u{4e2d}']);
}

fn strings(list: &[&str]) -> Vec<String> {
    list.iter().map(|s| s.to_string()).collect()
}

#[test]
fn sorting_orders_texts() {
    assert_eq!(sort_texts(&strings(&[])), strings(&[]));
    assert_eq!(sort_texts(&strings(&["x"])), strings(&["x"]));
    assert_eq!(
        sort_texts(&strings(&["/d/c.txt", "/d/a.txt", "/d/b.txt"])),
        strings(&["/d/a.txt", "/d/b.txt", "/d/c.txt"])
    );
    assert_eq!(
        sort_texts(&strings(&["b", "a", "b", "", "ab", "a"])),
        strings(&["", "a", "a", "ab", "b", "b"])
    );
    assert_eq!(
        sort_texts(&strings(&["img10", "img2", "img1", "Img3"])),
        strings(&["Img3", "img1", "img10", "img2"])
    );
}

#[test]
fn sorting_agrees_with_the_standard_sort() {
    let mut state: u64 = 0x2545_f491_4f6c_dd1d;
    let mut texts: Vec<String> = Vec::new();
    for _ in 0..500 {
        state ^= state << 13;
        state ^= state >> 7;
        state ^= state << 17;
        let len = (state % 5) as usize;
        let mut s = String::new();
        let mut x = state;
        for _ in 0..len {
            s.push(['a', 'b', '/', '.', 'é', '中', 'Z'][(x % 7) as usize]);
            x /= 7;
        }
        texts.push(s);
    }
    let mut expected = texts.clone();
    expected.sort();
    assert_eq!(sort_texts(&texts), expected);
}
