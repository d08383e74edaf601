use bdf::number::{parse_integer, push_decimal, push_digits, push_hex_bytes, IntErrorKind};
use bdf::reader::line::{decode_line, keyword_of, tokenize, Keyword};
use bdf::row::{pack_row, padding_of, unpack_row};
use bdf::text::{
    chars_equal, chars_of, find_char, is_whitespace_char, split_chars, split_lines, string_of,
    trim_chars,
};
use bdf::Entry;
use bdf::{Bitmap, BoundingBox, Direction};

#[test]
fn bounding_box_holds_what_it_is_given() {
    let bounds = BoundingBox::new(6, 11, 0, -2);
    assert_eq!(bounds.width(), 6);
    assert_eq!(bounds.height(), 11);
    assert_eq!(bounds.x(), 0);
    assert_eq!(bounds.y(), -2);
    assert_eq!(BoundingBox::empty(), BoundingBox::new(0, 0, 0, 0));
}

#[test]
fn direction_default() {
    assert_eq!(Direction::default(), Direction::Default);
}

#[test]
fn bitmap_set_and_get() {
    let mut bitmap = Bitmap::new(3, 2);
    assert_eq!(bitmap.width(), 3);
    assert_eq!(bitmap.height(), 2);
    for y in 0..2 {
        for x in 0..3 {
            assert!(!bitmap.get(x, y));
        }
    }
    bitmap.set(2, 0, true);
    bitmap.set(0, 1, true);
    assert!(bitmap.get(2, 0));
    assert!(bitmap.get(0, 1));
    assert!(!bitmap.get(0, 0));
    assert!(!bitmap.get(1, 1));
    assert!(!bitmap.get(2, 1));
    bitmap.set(2, 0, true);
    assert!(bitmap.get(2, 0));
    bitmap.set(2, 0, false);
    assert!(!bitmap.get(2, 0));
    bitmap.set(2, 0, false);
    assert!(!bitmap.get(2, 0));
    assert!(bitmap.get(0, 1));
}

#[test]
fn bitmap_clone_and_equality() {
    let mut bitmap = Bitmap::new(3, 2);
    bitmap.set(1, 1, true);
    let copy = bitmap.clone();
    assert_eq!(copy, bitmap);
    assert!(copy.get(1, 1));
    bitmap.set(1, 1, false);
    assert_ne!(copy, bitmap);
    assert_eq!(bitmap, Bitmap::new(3, 2));
    assert_ne!(Bitmap::new(3, 2), Bitmap::new(2, 3));
    assert_eq!(Bitmap::default(), Bitmap::new(0, 0));
}

#[test]
fn bitmap_of_a_large_size() {
    let mut bitmap = Bitmap::new(65535, 65537);
    bitmap.set(65534, 2, true);
    assert!(bitmap.get(65534, 2));
    assert!(!bitmap.get(0, 3));
}

fn chars(s: &str) -> Vec<char> {
    s.chars().collect()
}

fn parse(s: &str, radix: u32, min: i128, max: i128) -> Result<i128, IntErrorKind> {
    parse_integer(&chars(s), radix, min, max)
}

fn kind_of(error: &std::num::ParseIntError) -> IntErrorKind {
    match error.kind() {
        std::num::IntErrorKind::Empty => IntErrorKind::Empty,
        std::num::IntErrorKind::InvalidDigit => IntErrorKind::InvalidDigit,
        std::num::IntErrorKind::PosOverflow => IntErrorKind::PosOverflow,
        std::num::IntErrorKind::NegOverflow => IntErrorKind::NegOverflow,
        other => panic!("{:?}", other),
    }
}

fn samples() -> Vec<String> {
    let alphabet = ['+', '-', '0', '1', '9', 'a', 'F', 'g', ' ', '_'];
    let mut all = vec![String::new()];
    let mut last = vec![String::new()];
    for _ in 0..4 {
        let mut next = Vec::new();
        for s in &last {
            for c in alphabet {
                next.push(format!("{}{}", s, c));
            }
        }
        all.extend(next.iter().cloned());
        last = next;
    }
    for s in [
        "255",
        "256",
        "65535",
        "65536",
        "0065535",
        "2147483647",
        "2147483648",
        "-2147483648",
        "-2147483649",
        "4294967295",
        "4294967296",
        "9223372036854775807",
        "9223372036854775808",
        "-9223372036854775808",
        "-9223372036854775809",
        "18446744073709551615",
        "18446744073709551616",
        "99999999999999999999999999x",
        "x99999999999999999999999999",
        "-99999999999999999999999999x",
        "FFFFFFFFFFFFFFFF",
        "ffffffffffffffff",
        "10000000000000000",
        "+FFFFFFFFFFFFFFFF",
        "٣",
        "１",
    ] {
        all.push(s.to_owned());
    }
    all
}

#[test]
fn decimal_integers_read_as_the_standard_library_reads_them() {
    for s in samples() {
        assert_eq!(
            parse(&s, 10, 0, u16::MAX as i128),
            s.parse::<u16>().map(|v| v as i128).map_err(|e| kind_of(&e)),
            "u16 {:?}",
            s
        );
        assert_eq!(
            parse(&s, 10, 0, u32::MAX as i128),
            s.parse::<u32>().map(|v| v as i128).map_err(|e| kind_of(&e)),
            "u32 {:?}",
            s
        );
        assert_eq!(
            parse(&s, 10, i32::MIN as i128, i32::MAX as i128),
            s.parse::<i32>().map(|v| v as i128).map_err(|e| kind_of(&e)),
            "i32 {:?}",
            s
        );
        assert_eq!(
            parse(&s, 10, i64::MIN as i128, i64::MAX as i128),
            s.parse::<i64>().map(|v| v as i128).map_err(|e| kind_of(&e)),
            "i64 {:?}",
            s
        );
        assert_eq!(
            parse(&s, 10, 0, usize::MAX as i128),
            s.parse::<usize>()
                .map(|v| v as i128)
                .map_err(|e| kind_of(&e)),
            "usize {:?}",
            s
        );
    }
}

#[test]
fn hexadecimal_integers_read_as_the_standard_library_reads_them() {
    for s in samples() {
        assert_eq!(
            parse(&s, 16, 0, u64::MAX as i128),
            u64::from_str_radix(&s, 16)
                .map(|v| v as i128)
                .map_err(|e| kind_of(&e)),
            "{:?}",
            s
        );
    }
}

#[test]
fn integers_are_written_as_the_standard_library_writes_them() {
    let mut values: Vec<i128> = vec![
        0,
        1,
        9,
        10,
        11,
        99,
        100,
        255,
        256,
        65535,
        65536,
        u32::MAX as i128,
        i64::MAX as i128,
        u64::MAX as i128,
    ];
    let negative: Vec<i128> = vec![-1, -9, -10, -100, i32::MIN as i128, i64::MIN as i128];
    values.extend(negative);
    for v in values {
        let mut out = String::from("x");
        push_decimal(&mut out, v);
        assert_eq!(out, format!("x{}", v));
        if v >= 0 {
            let mut hex = String::new();
            push_digits(&mut hex, v as u64, 16);
            assert_eq!(hex, format!("{:X}", v));
            let mut bytes = String::new();
            push_hex_bytes(&mut bytes, v as u64);
            let plain = format!("{:X}", v);
            if plain.len() % 2 == 0 {
                assert_eq!(bytes, plain);
            } else {
                assert_eq!(bytes, format!("0{}", plain));
            }
        }
    }
}

#[test]
fn whitespace_is_what_the_standard_library_takes_for_it() {
    for code in 0..0x11_0000u32 {
        if let Some(c) = char::from_u32(code) {
            assert_eq!(is_whitespace_char(c), c.is_whitespace(), "{:x}", code);
        }
    }
}

#[test]
fn trim_as_the_standard_library_trims() {
    for s in [
        "",
        " ",
        "a",
        " a",
        "a ",
        "  a b  ",
        "\t\r\n a \u{3000}\u{85}",
        "\u{a0}x\u{2003}y\u{2028}",
        "   ",
        "\u{200b}a\u{200b}",
    ] {
        assert_eq!(string_of(trim_chars(&chars(s))), s.trim(), "{:?}", s);
    }
}

#[test]
fn find_and_split() {
    assert_eq!(find_char(&chars("abc def"), ' '), 3);
    assert_eq!(find_char(&chars("abcdef"), ' '), 6);
    assert_eq!(find_char(&chars(""), ' '), 0);
    for s in ["", " ", "a", "a b", "a  b", " a b ", "16 100 100", "  "] {
        let text = chars(s);
        let pieces: Vec<String> = split_chars(&text, ' ')
            .into_iter()
            .map(string_of)
            .collect();
        let expected: Vec<String> = s.split(' ').map(str::to_owned).collect();
        assert_eq!(pieces, expected, "{:?}", s);
    }
}

#[test]
fn lines_as_the_standard_library_splits_them() {
    for s in [
        "",
        "\n",
        "a",
        "a\n",
        "a\nb",
        "a\r\nb\r\n",
        "a\rb\n",
        "a\r",
        "\n\n",
        "a\n\nb\n",
        "a\r\r\n",
        "\r\n",
        "é\nü",
    ] {
        let lines: Vec<String> = split_lines(s)
            .iter()
            .map(|line| string_of(line))
            .collect();
        let expected: Vec<String> = s.lines().map(str::to_owned).collect();
        assert_eq!(lines, expected, "{:?}", s);
    }
}

#[test]
fn characters_of_a_string_and_back() {
    assert_eq!(chars_of("aé\u{10FFFF}"), vec!['a', 'é', '\u{10FFFF}']);
    assert_eq!(string_of(&['a', 'é', '\u{10FFFF}']), "aé\u{10FFFF}");
    assert!(chars_of("").is_empty());
}

#[test]
fn characters_against_a_word() {
    assert!(chars_equal(&chars("FONT"), "FONT"));
    assert!(chars_equal(&chars(""), ""));
    assert!(!chars_equal(&chars("FONT"), "FONTS"));
    assert!(!chars_equal(&chars("FONTS"), "FONT"));
    assert!(!chars_equal(&chars("FONT"), "FOND"));
    assert!(!chars_equal(&chars("fONT"), "FONT"));
    assert!(!chars_equal(&chars(""), "F"));
    assert!(!chars_equal(&chars("F"), ""));
}

#[test]
fn keywords_by_name() {
    assert_eq!(keyword_of(&chars("SWIDTH")), Some(Keyword::ScalableWidth));
    assert_eq!(
        keyword_of(&chars("SWIDTH1")),
        Some(Keyword::AlternateScalableWidth)
    );
    assert_eq!(keyword_of(&chars("BBX")), Some(Keyword::BoundingBox));
    assert_eq!(keyword_of(&chars("ENDPROPERTIES")), Some(Keyword::EndProperties));
    assert_eq!(keyword_of(&chars("swidth")), None);
    assert_eq!(keyword_of(&chars("SWIDTH2")), None);
    assert_eq!(keyword_of(&chars("")), None);
}

#[test]
fn line_as_keyword_and_argument() {
    let line = chars("SIZE  16 100 ");
    let (id, rest) = tokenize(&line);
    assert_eq!(string_of(id), "SIZE");
    assert_eq!(rest.map(string_of), Some("16 100".to_owned()));
    let line = chars(" ENDFONT ");
    let (id, rest) = tokenize(&line);
    assert_eq!(string_of(id), "");
    assert_eq!(rest.map(string_of), Some("ENDFONT".to_owned()));
    let line = chars("\tENDFONT");
    let (id, rest) = tokenize(&line);
    assert_eq!(string_of(id), "ENDFONT");
    assert_eq!(rest.map(string_of), None);
}

#[test]
fn line_by_itself() {
    assert_eq!(
        decode_line(&chars("SIZE 16 100 100"), 7).unwrap(),
        Entry::Size(16, 100, 100)
    );
    assert!(matches!(
        decode_line(&chars("SIZE 16"), 7),
        Err(bdf::Error::MissingValue { line_number: 7, .. })
    ));
    assert!(matches!(
        decode_line(&chars("BITMAP"), 7),
        Err(bdf::Error::MissingBoundingBox { line_number: 7, .. })
    ));
}

#[test]
fn rows_as_words() {
    assert_eq!(padding_of(0), 0);
    assert_eq!(padding_of(1), 7);
    assert_eq!(padding_of(6), 2);
    assert_eq!(padding_of(8), 0);
    assert_eq!(padding_of(9), 7);
    assert_eq!(padding_of(u32::MAX), 1);
    let mut bitmap = Bitmap::new(6, 2);
    unpack_row(&mut bitmap, 1, 0xD8);
    for x in 0..6 {
        assert!(!bitmap.get(x, 0));
        assert_eq!(bitmap.get(x, 1), [true, true, false, true, true, false][x as usize]);
    }
    assert_eq!(pack_row(&bitmap, 0), 0);
    assert_eq!(pack_row(&bitmap, 1), 0xD8);
    unpack_row(&mut bitmap, 1, 0x04);
    for x in 0..6 {
        assert_eq!(bitmap.get(x, 1), x == 5);
    }
    unpack_row(&mut bitmap, 1, 0x03);
    assert_eq!(pack_row(&bitmap, 1), 0);
}
