use telemetry_host::number::{float_literal, parse_i32, parse_u64};
use telemetry_host::text::{
    after, before, chars_of, find, first_line, lower, position, same, same_but_for_case,
    split_lines, split_words, strip_prefix, trim, trim_end, trim_start, white, CharSet,
};

const SAMPLES: [&str; 24] = [
    "",
    " ",
    "\n",
    "\r\n",
    "a",
    " a ",
    "\t a b \u{a0}\n",
    "one\ntwo\r\nthree",
    "one\n\ntwo\n",
    "cr at end\r",
    "x\r\r\ny",
    "\n\nlead",
    "abcabc",
    "aab",
    "  MemTotal:  12 kB  ",
    "\u{3000}wide\u{2003}gap\u{85}",
    "caf\u{e9} \u{1f980} end",
    "\u{200b}not white",
    "cpu  1 2 3 4",
    "\u{feff}bom",
    "a\u{b}b\u{c}c",
    "\"key\": 1",
    "\r",
    "\n\r",
];

#[test]
fn white_space_is_that_of_unicode() {
    for n in 0..=0x10ffff_u32 {
        if let Some(c) = char::from_u32(n) {
            assert_eq!(white(c), c.is_whitespace(), "{:x}", n);
            assert_eq!(lower(c), c.to_ascii_lowercase());
        }
    }
}

#[test]
fn character_sets() {
    assert!(CharSet::Only(':').contains(':'));
    assert!(!CharSet::Only(':').contains(';'));
    assert!(CharSet::White.contains('\u{2028}'));
    assert!(!CharSet::NotWhite.contains('\t'));
    assert!(CharSet::NotDigit.contains('/') && CharSet::NotDigit.contains(':'));
    assert!(!CharSet::NotDigit.contains('0') && !CharSet::NotDigit.contains('9'));
    assert!(CharSet::NotDigit.contains('\u{663}'));
    for c in [',', '}', ']'] {
        assert!(CharSet::ValueEnd.contains(c));
    }
    assert!(!CharSet::ValueEnd.contains('{') && !CharSet::ValueEnd.contains(' '));
}

#[test]
fn trimming_agrees_with_std() {
    for s in SAMPLES {
        assert_eq!(trim(s), s.trim());
        assert_eq!(trim_start(s), s.trim_start());
        assert_eq!(trim_end(s), s.trim_end());
        assert_eq!(trim(trim(s)), trim(s));
    }
    assert_eq!(trim(" \t in  ner \r\n"), "in  ner");
}

#[test]
fn lines_agree_with_std() {
    for s in SAMPLES {
        let expected: Vec<&str> = s.lines().collect();
        assert_eq!(split_lines(s), expected, "{:?}", s);
        assert_eq!(first_line(s), s.lines().next());
    }
    assert_eq!(split_lines("a\r\nb\n\nc"), vec!["a", "b", "", "c"]);
}

#[test]
fn words_agree_with_std() {
    for s in SAMPLES {
        let expected: Vec<&str> = s.split_whitespace().collect();
        assert_eq!(split_words(s), expected, "{:?}", s);
    }
    assert_eq!(split_words(" cpu  1\t2\n"), vec!["cpu", "1", "2"]);
}

#[test]
fn searching_agrees_with_std() {
    for s in SAMPLES {
        for pattern in ["", "a", "ab", "abc", "\n", "\u{1f980}", "zzz", "aab", "\"key\""] {
            let expected = s.find(pattern).map(|at| s[..at].chars().count());
            assert_eq!(find(s, pattern), expected, "{:?} {:?}", s, pattern);
            assert_eq!(strip_prefix(s, pattern), s.strip_prefix(pattern));
        }
    }
    assert_eq!(find("caf\u{e9} \u{1f980} end", "end"), Some(7));
}

#[test]
fn parts_of_a_text() {
    let s = "caf\u{e9}!";
    assert_eq!(before(s, 3), "caf");
    assert_eq!(after(s, 3), "\u{e9}!");
    assert_eq!(before(s, 0), "");
    assert_eq!(after(s, 5), "");
    assert_eq!(chars_of(s), vec!['c', 'a', 'f', '\u{e9}', '!']);
    assert_eq!(position(s, CharSet::Only('!')), 4);
    assert_eq!(position(s, CharSet::Only('?')), 5);
}

#[test]
fn comparing_texts() {
    assert!(same("success", "success"));
    assert!(!same("success", "Success"));
    assert!(!same("success", "succes"));
    assert!(same_but_for_case("ShutDown", "SHUTDOWN"));
    assert!(!same_but_for_case("shutdow", "SHUTDOWN"));
    assert!(!same_but_for_case("\u{e9}", "\u{c9}"));
    assert!(!same_but_for_case("@", "`"));
}

const NUMERALS: [&str; 34] = [
    "", "+", "-", "0", "7", "+7", "-7", "--7", "+-7", "-0", "007", "12a", "a12", "1 2", " 12",
    "12 ", "2147483647", "2147483648", "-2147483648", "-2147483649", "4294967296",
    "18446744073709551615", "18446744073709551616", "+18446744073709551615",
    "-18446744073709551615", "99999999999999999999999999", "000000000000000000000000000001",
    "1_000", "0x10", "1.0", "1e3", "\u{663}", "-99999999999999999999", "184467440737095516150",
];

#[test]
fn integers_agree_with_std() {
    for s in NUMERALS {
        assert_eq!(parse_u64(s), s.parse::<u64>().ok(), "{:?}", s);
        assert_eq!(parse_i32(s), s.parse::<i32>().ok(), "{:?}", s);
    }
    for n in -70000..70000_i32 {
        let s = n.to_string();
        assert_eq!(parse_i32(&s), Some(n));
    }
}

#[test]
fn float_literals_agree_with_std() {
    let alphabet = ['0', '9', '.', 'e', 'E', '+', '-', 'x', ' '];
    let mut texts: Vec<String> = vec![String::new()];
    let mut start = 0;
    for _ in 0..5 {
        let end = texts.len();
        for i in start..end {
            for c in alphabet {
                let mut longer = texts[i].clone();
                longer.push(c);
                texts.push(longer);
            }
        }
        start = end;
    }
    for s in &texts {
        assert_eq!(float_literal(s), s.parse::<f64>().is_ok(), "{:?}", s);
        assert_eq!(float_literal(s), s.parse::<f32>().is_ok(), "{:?}", s);
    }
}

#[test]
fn named_values_agree_with_std() {
    for s in [
        "inf", "INF", "Inf", "+inf", "-inf", "infinity", "InFiNiTy", "-INFINITY", "nan", "NaN",
        "-nan", "+NAN", "in", "infi", "infinit", "infinityy", "nann", "na", "--inf", "inf ", "i",
        "\u{131}nf", "1inf", "nan1", "1e999999999999", "0.1e-99999999999", "20.3", "-12.5e+3",
    ] {
        assert_eq!(float_literal(s), s.parse::<f64>().is_ok(), "{:?}", s);
    }
    assert!(float_literal("20.3"));
    assert!(!float_literal("\u{b0}C"));
}
