use buzz::scope::normalized_relay_scope;
use buzz::text::decimal_text;
use buzz::text::is_text_less;
use buzz::text::same_text;

#[test]
fn decimals_are_written_without_leading_zeros() {
    for n in [0, 9, 10, 99, 100, 30175, u64::MAX] {
        assert_eq!(decimal_text(n), n.to_string());
    }
}

#[test]
fn texts_are_ordered_by_their_bytes() {
    let texts = ["", "\0", "a", "a\0", "aa", "ab", "b", "~", "\u{e9}", "\u{ffff}", "\u{10000}"];
    for (i, a) in texts.iter().enumerate() {
        for (j, b) in texts.iter().enumerate() {
            assert_eq!(is_text_less(a, b), i < j, "{a:?} {b:?}");
            assert_eq!(same_text(a, b), i == j);
        }
    }
}

/// Hex text keeps the order of the bytes that it stands for.
#[test]
fn hex_keeps_the_order_of_bytes() {
    let ids = [[0x00, 0x9f], [0x0a, 0x00], [0x9f, 0xff], [0xa0, 0x00], [0xff, 0xfe]];
    for a in ids {
        for b in ids {
            assert_eq!(is_text_less(&hex::encode(a), &hex::encode(b)), a < b);
        }
    }
}

/// The white space that is trimmed is that of the Unicode property.
#[test]
fn white_space_is_trimmed() {
    let white = [
        '\u{9}', '\u{a}', '\u{b}', '\u{c}', '\u{d}', '\u{20}', '\u{85}', '\u{a0}', '\u{1680}',
        '\u{2000}', '\u{2001}', '\u{2002}', '\u{2003}', '\u{2004}', '\u{2005}', '\u{2006}',
        '\u{2007}', '\u{2008}', '\u{2009}', '\u{200a}', '\u{2028}', '\u{2029}', '\u{202f}',
        '\u{205f}', '\u{3000}',
    ];
    for code in 0..=0x10ffff_u32 {
        if let Some(c) = char::from_u32(code) {
            let around = format!("{c}x{c}");
            let expected = if white.contains(&c) {
                "x".to_string()
            } else if c == '/' {
                "/x".to_string()
            } else {
                around.clone()
            };
            assert_eq!(normalized_relay_scope(&around), expected);
        }
    }
}
