use lib::decimal::push_decimal;
use lib::text::{char_is_whitespace, chars_of, find_separator, next_word, text_is_less};

#[test]
fn whitespace_matches_std() {
    for c in ['\t', '\n', '\u{b}', '\u{c}', '\r', ' ', '\u{85}', '\u{a0}', '\u{1680}', '\u{2000}', '\u{200a}', '\u{2028}', '\u{2029}', '\u{202f}', '\u{205f}', '\u{3000}', 'a', '\u{200b}', '\u{feff}', '\u{180e}', '0'] {
        assert_eq!(char_is_whitespace(c), c.is_whitespace(), "{:?}", c);
    }
}

#[test]
fn words_match_split_whitespace() {
    let text = " \tGET  /p\u{3000}HTTP/1.1 x \r\n";
    let chars = chars_of(text);
    let mut words = Vec::new();
    let mut from = 0;
    while let Some((a, b)) = next_word(&chars, from) {
        words.push(chars[a..b].iter().collect::<String>());
        from = b;
    }
    let expected: Vec<String> = text.split_whitespace().map(|w| w.to_string()).collect();
    assert_eq!(words, expected);
}

#[test]
fn separator_is_the_first_colon_space() {
    assert_eq!(find_separator(&chars_of("a:b: c: d")), Some(3));
    assert_eq!(find_separator(&chars_of("a:b")), None);
    assert_eq!(find_separator(&chars_of(": ")), Some(0));
}

#[test]
fn text_order_matches_string_order() {
    let texts = ["", "a", "ab", "b", "B", "\u{e9}", "\u{10000}", "\u{ffff}", "aa"];
    for x in texts {
        for y in texts {
            assert_eq!(text_is_less(x, y), x < y, "{:?} {:?}", x, y);
        }
    }
}

#[test]
fn decimal_text() {
    for n in [0u64, 5, 10, 99, 100, 1234567890, u64::MAX] {
        let mut out = String::from("x");
        push_decimal(&mut out, n);
        assert_eq!(out, format!("x{}", n));
    }
}
