use hardware_monitor::text::{
    chars_of, find, is_whitespace, parse_u32_chars, parse_u64_chars, parse_usize_chars, push_dec,
    rsplit_once_char, split_char, split_lines, split_once_char, split_words, string_of, trimmed,
};

fn s(v: &[char]) -> String {
    v.iter().collect()
}

fn all(v: &[Vec<char>]) -> Vec<String> {
    v.iter().map(|x| s(x)).collect()
}

const SAMPLES: &[&str] = &[
    "",
    " ",
    "a",
    "  cpu  1 2\t3 ",
    "line\nline2\r\nline3\n",
    "\n\n",
    "\r\n",
    "a\rb\n",
    "x\r",
    "\u{a0}nbsp\u{2003}em\u{3000}",
    "\u{85}next\u{2028}sep\u{1680}",
    "trail\n",
    "αβγ δ",
    "18446744073709551615",
    "18446744073709551616",
    "+42",
    "-1",
    "4294967295",
    "4294967296",
    "007",
    "++1",
    "+",
    "1 2",
    "a,b,,c,",
    ",",
    "k=v:w:x",
];

#[test]
fn whitespace_is_the_unicode_property() {
    for c in ['\u{0}', ' ', '\t', '\n', '\u{b}', '\u{c}', '\r', '\u{1c}', '\u{85}', '\u{a0}', '\u{1680}', '\u{180e}', '\u{2000}', '\u{200a}', '\u{200b}', '\u{2028}', '\u{2029}', '\u{202f}', '\u{205f}', '\u{3000}', '\u{feff}', 'a'] {
        assert_eq!(is_whitespace(c), c.is_whitespace(), "{:?}", c);
    }
}

#[test]
fn splitting_and_trimming_agree_with_str() {
    for text in SAMPLES {
        let chars = chars_of(text);
        assert_eq!(string_of(&chars), *text);
        assert_eq!(s(&trimmed(&chars)), text.trim(), "{text:?}");
        let words: Vec<String> = text.split_whitespace().map(String::from).collect();
        assert_eq!(all(&split_words(&chars)), words, "{text:?}");
        let lines: Vec<String> = text.lines().map(String::from).collect();
        assert_eq!(all(&split_lines(&chars)), lines, "{text:?}");
        let pieces: Vec<String> = text.split(',').map(String::from).collect();
        assert_eq!(all(&split_char(&chars, ',')), pieces, "{text:?}");
        let once = text.split_once(':').map(|(a, b)| (a.to_string(), b.to_string()));
        assert_eq!(split_once_char(&chars, ':').map(|(a, b)| (s(&a), s(&b))), once, "{text:?}");
        let rev = text.rsplit_once(':').map(|(a, b)| (a.to_string(), b.to_string()));
        assert_eq!(rsplit_once_char(&chars, ':').map(|(a, b)| (s(&a), s(&b))), rev, "{text:?}");
    }
}

#[test]
fn parsing_agrees_with_from_str() {
    for text in SAMPLES {
        let chars = chars_of(text);
        assert_eq!(parse_u64_chars(&chars), text.parse::<u64>().ok(), "{text:?}");
        assert_eq!(parse_u32_chars(&chars), text.parse::<u32>().ok(), "{text:?}");
        assert_eq!(parse_usize_chars(&chars), text.parse::<usize>().ok(), "{text:?}");
    }
}

#[test]
fn decimal_digits_and_search() {
    for n in [0u64, 7, 10, 99, 100, 12345, u64::MAX] {
        let mut out = Vec::new();
        push_dec(&mut out, n);
        assert_eq!(s(&out), n.to_string());
    }
    let hay = chars_of("abcabd");
    assert_eq!(find(&hay, &chars_of("abd")), Some(3));
    assert_eq!(find(&hay, &chars_of("")), Some(0));
    assert_eq!(find(&hay, &chars_of("x")), None);
}
