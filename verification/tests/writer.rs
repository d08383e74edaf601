use bdf::writer;
use bdf::{Bitmap, BoundingBox, Direction, Entry, Property};

fn written(entry: &Entry) -> String {
    let mut writer = writer::new();
    writer.entry(entry);
    writer.into_string()
}

fn check(entry: Entry, string: &str) {
    let output = written(&entry);

    println!("in: {}", output);
    println!("out: {}", &string);

    assert_eq!(output, string);
}

#[test]
fn mod_start_font() {
    check(Entry::StartFont("2.2".to_owned()), "STARTFONT 2.2\n");
}

#[test]
fn mod_comment() {
    check(Entry::Comment("test".to_owned()), "COMMENT \"test\"\n");
}

#[test]
fn mod_content_version() {
    check(
        Entry::ContentVersion("1.0.0".to_owned()),
        "CONTENTVERSION 1.0.0\n",
    );
}

#[test]
fn mod_font() {
    check(
        Entry::Font("-Gohu-GohuFont-Bold-R-Normal--11-80-100-100-C-60-ISO10646-1".to_owned()),
        "FONT -Gohu-GohuFont-Bold-R-Normal--11-80-100-100-C-60-ISO10646-1\n",
    );
}

#[test]
fn mod_size() {
    check(Entry::Size(16, 100, 100), "SIZE 16 100 100\n");
}

#[test]
fn mod_chars() {
    check(Entry::Chars(42), "CHARS 42\n");
}

#[test]
fn mod_font_bounding_box() {
    check(
        Entry::FontBoundingBox(BoundingBox {
            width: 6,
            height: 11,
            x: 0,
            y: -2,
        }),
        "FONTBOUNDINGBOX 6 11 0 -2\n",
    );
}

#[test]
fn mod_end_font() {
    check(Entry::EndFont, "ENDFONT\n");
}

#[test]
fn mod_start_properties() {
    check(Entry::StartProperties(23), "STARTPROPERTIES 23\n");
}

#[test]
fn mod_property() {
    check(
        Entry::Property(
            "FOUNDRY".to_owned(),
            Property::String("GohuFont".to_owned()),
        ),
        "FOUNDRY \"GohuFont\"\n",
    );

    check(
        Entry::Property("X_HEIGHT".to_owned(), Property::Integer(4)),
        "X_HEIGHT 4\n",
    );
}

#[test]
fn mod_end_properties() {
    check(Entry::EndProperties, "ENDPROPERTIES\n");
}

#[test]
fn mod_start_char() {
    check(
        Entry::StartChar("<control>".to_owned()),
        "STARTCHAR <control>\n",
    );
}

#[test]
fn mod_encoding() {
    check(Entry::Encoding('\u{0}'), "ENCODING 0\n");
}

#[test]
fn direction() {
    check(Entry::Direction(Direction::Default), "METRICSSET 0\n");
    check(Entry::Direction(Direction::Alternate), "METRICSSET 1\n");
    check(Entry::Direction(Direction::Both), "METRICSSET 2\n");
}

#[test]
fn mod_scalable_width() {
    check(Entry::ScalableWidth(392, 0), "SWIDTH 392 0\n");
}

#[test]
fn mod_device_width() {
    check(Entry::DeviceWidth(6, 0), "DWIDTH 6 0\n");
}

#[test]
fn alternate_scalable_width() {
    check(Entry::AlternateScalableWidth(392, 0), "SWIDTH1 392 0\n");
}

#[test]
fn alternate_device_width() {
    check(Entry::AlternateDeviceWidth(6, 0), "DWIDTH1 6 0\n");
}

#[test]
fn vector() {
    check(Entry::Vector(6, 0), "VVECTOR 6 0\n");
}

#[test]
fn mod_bounding_box() {
    check(
        Entry::BoundingBox(BoundingBox {
            width: 6,
            height: 11,
            x: 0,
            y: -2,
        }),
        "BBX 6 11 0 -2\n",
    );
}

#[test]
fn mod_bitmap() {
    let mut bitmap = Bitmap::new(6, 11);

    // 00

    // 70
    bitmap.set(1, 1, true);
    bitmap.set(2, 1, true);
    bitmap.set(3, 1, true);

    // D8
    bitmap.set(0, 2, true);
    bitmap.set(1, 2, true);
    bitmap.set(3, 2, true);
    bitmap.set(4, 2, true);

    // D8
    bitmap.set(0, 3, true);
    bitmap.set(1, 3, true);
    bitmap.set(3, 3, true);
    bitmap.set(4, 3, true);

    // F8
    bitmap.set(0, 4, true);
    bitmap.set(1, 4, true);
    bitmap.set(2, 4, true);
    bitmap.set(3, 4, true);
    bitmap.set(4, 4, true);

    // D8
    bitmap.set(0, 5, true);
    bitmap.set(1, 5, true);
    bitmap.set(3, 5, true);
    bitmap.set(4, 5, true);

    // D8
    bitmap.set(0, 6, true);
    bitmap.set(1, 6, true);
    bitmap.set(3, 6, true);
    bitmap.set(4, 6, true);

    // D8
    bitmap.set(0, 7, true);
    bitmap.set(1, 7, true);
    bitmap.set(3, 7, true);
    bitmap.set(4, 7, true);

    // D8
    bitmap.set(0, 8, true);
    bitmap.set(1, 8, true);
    bitmap.set(3, 8, true);
    bitmap.set(4, 8, true);

    // 00

    // 00

    check(
        Entry::Bitmap(bitmap),
        "BITMAP\n\
         00\n\
         70\n\
         D8\n\
         D8\n\
         F8\n\
         D8\n\
         D8\n\
         D8\n\
         D8\n\
         00\n\
         00\n",
    );
}

#[test]
fn mod_end_char() {
    check(Entry::EndChar, "ENDCHAR\n");
}

#[test]
fn comment_doubles_quotes() {
    check(
        Entry::Comment("this is a \"test\"".to_owned()),
        "COMMENT \"this is a \"\"test\"\"\"\n",
    );
    check(Entry::Comment(String::new()), "COMMENT \"\"\n");
}

#[test]
fn property_string_doubles_quotes() {
    check(
        Entry::Property("NAME".to_owned(), Property::String("a\"b".to_owned())),
        "NAME \"a\"\"b\"\n",
    );
}

#[test]
fn negative_and_large_numbers() {
    check(
        Entry::Property("N".to_owned(), Property::Integer(i64::MIN)),
        "N -9223372036854775808\n",
    );
    check(
        Entry::Property("N".to_owned(), Property::Integer(i64::MAX)),
        "N 9223372036854775807\n",
    );
    check(
        Entry::BoundingBox(BoundingBox {
            width: u32::MAX,
            height: 0,
            x: i32::MIN,
            y: i32::MAX,
        }),
        "BBX 4294967295 0 -2147483648 2147483647\n",
    );
    check(Entry::Chars(usize::MAX), &format!("CHARS {}\n", usize::MAX));
    check(Entry::Size(u16::MAX, 0, 10), "SIZE 65535 0 10\n");
    check(Entry::Encoding('\u{10FFFF}'), "ENCODING 1114111\n");
}

#[test]
fn bitmap_rows_are_whole_bytes() {
    let mut bitmap = Bitmap::new(12, 3);
    bitmap.set(0, 0, true);
    bitmap.set(11, 0, true);
    bitmap.set(4, 1, true);
    // 12 columns are padded by 4 bits. The second row has three digits, the
    // third row one; each gets a zero in front.
    check(Entry::Bitmap(bitmap), "BITMAP\n8010\n0800\n00\n");
}

#[test]
fn bitmap_of_a_whole_word() {
    let mut bitmap = Bitmap::new(64, 1);
    bitmap.set(0, 0, true);
    bitmap.set(63, 0, true);
    check(Entry::Bitmap(bitmap), "BITMAP\n8000000000000001\n");
}

#[test]
fn bitmap_wider_than_a_word_loses_its_first_columns() {
    let mut bitmap = Bitmap::new(70, 1);
    bitmap.set(0, 0, true);
    bitmap.set(7, 0, true);
    bitmap.set(8, 0, true);
    bitmap.set(69, 0, true);
    check(Entry::Bitmap(bitmap), "BITMAP\n8000000000000004\n");
}

#[test]
fn bitmap_without_rows() {
    check(Entry::Bitmap(Bitmap::new(5, 0)), "BITMAP\n");
}

#[test]
fn writer_appends() {
    let mut writer = writer::new();
    assert_eq!(writer.as_str(), "");
    writer.entry(&Entry::StartFont("2.1".to_owned()));
    writer.entry(&Entry::EndFont);
    assert_eq!(writer.as_str(), "STARTFONT 2.1\nENDFONT\n");
    assert_eq!(writer.into_string(), "STARTFONT 2.1\nENDFONT\n");
}
