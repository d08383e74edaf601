use bdf::number::IntErrorKind;
use bdf::reader;
use bdf::{Bitmap, BoundingBox, Direction, Entry, Error, Property};

fn last(string: &str) -> Entry {
    reader::new(string).entries().unwrap().pop().unwrap()
}

fn check(string: &str, entry: Entry) {
    let input = last(string);

    assert_eq!(input, entry);
}

fn first_error(string: &str) -> Error {
    let mut reader = reader::new(string);
    loop {
        match reader.entry() {
            Ok(_) => {}
            Err(error) => return error,
        }
    }
}

#[test]
fn start_font() {
    check("STARTFONT 2.2\n", Entry::StartFont("2.2".to_owned()));
}

#[test]
fn comment() {
    check("COMMENT \"hue\"\n", Entry::Comment("hue".to_owned()));
}

#[test]
fn content_version() {
    check(
        "CONTENTVERSION 1.0.0\n",
        Entry::ContentVersion("1.0.0".to_owned()),
    );
}

#[test]
fn font() {
    check(
        "FONT -Gohu-GohuFont-Bold-R-Normal--11-80-100-100-C-60-ISO10646-1\n",
        Entry::Font("-Gohu-GohuFont-Bold-R-Normal--11-80-100-100-C-60-ISO10646-1".to_owned()),
    );
}

#[test]
fn size() {
    check("SIZE 16 100 100\n", Entry::Size(16, 100, 100));
}

#[test]
fn chars() {
    check("CHARS 42\n", Entry::Chars(42));
}

#[test]
fn font_bounding_box() {
    check(
        "FONTBOUNDINGBOX 6 11 0 -2\n",
        Entry::FontBoundingBox(BoundingBox {
            width: 6,
            height: 11,
            x: 0,
            y: -2,
        }),
    );
}

#[test]
fn end_font() {
    check("ENDFONT\n", Entry::EndFont);
}

#[test]
fn start_properties() {
    check("STARTPROPERTIES 23\n", Entry::StartProperties(23));
}

#[test]
fn property() {
    check(
        "FOUNDRY \"GohuFont\"\n",
        Entry::Property(
            "FOUNDRY".to_owned(),
            Property::String("GohuFont".to_owned()),
        ),
    );

    check(
        "X_HEIGHT 4\n",
        Entry::Property("X_HEIGHT".to_owned(), Property::Integer(4)),
    );
}

#[test]
fn end_properties() {
    check("ENDPROPERTIES\n", Entry::EndProperties);
}

#[test]
fn start_char() {
    check(
        "STARTCHAR <control>\n",
        Entry::StartChar("<control>".to_owned()),
    );
}

#[test]
fn encoding() {
    check("ENCODING 0\n", Entry::Encoding('\u{0}'));
}

#[test]
fn scalable_width() {
    check("SWIDTH 392 0\n", Entry::ScalableWidth(392, 0));
}

#[test]
fn device_width() {
    check("DWIDTH 6 0\n", Entry::DeviceWidth(6, 0));
}

#[test]
fn bounding_box() {
    check(
        "BBX 6 11 0 -2\n",
        Entry::BoundingBox(BoundingBox {
            width: 6,
            height: 11,
            x: 0,
            y: -2,
        }),
    );
}

fn gohu_a() -> Bitmap {
    let mut bitmap = Bitmap::new(6, 11);

    // 00

    // 70
    bitmap.set(1, 1, true);
    bitmap.set(2, 1, true);
    bitmap.set(3, 1, true);

    // D8
    bitmap.set(0, 2, true);
    bitmap.set(1, 2, true);
    bitmap.set(3, 2, true);
    bitmap.set(4, 2, true);

    // D8
    bitmap.set(0, 3, true);
    bitmap.set(1, 3, true);
    bitmap.set(3, 3, true);
    bitmap.set(4, 3, true);

    // F8
    bitmap.set(0, 4, true);
    bitmap.set(1, 4, true);
    bitmap.set(2, 4, true);
    bitmap.set(3, 4, true);
    bitmap.set(4, 4, true);

    // D8
    bitmap.set(0, 5, true);
    bitmap.set(1, 5, true);
    bitmap.set(3, 5, true);
    bitmap.set(4, 5, true);

    // D8
    bitmap.set(0, 6, true);
    bitmap.set(1, 6, true);
    bitmap.set(3, 6, true);
    bitmap.set(4, 6, true);

    // D8
    bitmap.set(0, 7, true);
    bitmap.set(1, 7, true);
    bitmap.set(3, 7, true);
    bitmap.set(4, 7, true);

    // D8
    bitmap.set(0, 8, true);
    bitmap.set(1, 8, true);
    bitmap.set(3, 8, true);
    bitmap.set(4, 8, true);

    // 00

    // 00

    bitmap
}

#[test]
fn bitmap() {
    let bitmap = gohu_a();

    check(
        "BBX 6 11 0 -2\n\
         BITMAP\n\
         00\n\
         70\n\
         D8\n\
         D8\n\
         F8\n\
         D8\n\
         D8\n\
         D8\n\
         D8\n\
         00\n\
         00\n",
        Entry::Bitmap(bitmap),
    );
}

#[test]
fn end_char() {
    check("ENDCHAR\n", Entry::EndChar);
}

#[test]
fn unknown() {
    check("HUE", Entry::Unknown("HUE".to_owned()));
}

#[test]
fn metrics_set() {
    check("METRICSSET 0\n", Entry::Direction(Direction::Default));
    check("METRICSSET 1\n", Entry::Direction(Direction::Alternate));
    check("METRICSSET 2\n", Entry::Direction(Direction::Both));
}

#[test]
fn alternate_widths_and_vector() {
    check("SWIDTH1 392 0\n", Entry::AlternateScalableWidth(392, 0));
    check("DWIDTH1 6 0\n", Entry::AlternateDeviceWidth(6, 0));
    check("VVECTOR 6 0\n", Entry::Vector(6, 0));
}

#[test]
fn comment_with_doubled_quotes() {
    check(
        "COMMENT \"this is a \"\"test\"\"\"\n",
        Entry::Comment("this is a \"test\"".to_owned()),
    );
}

#[test]
fn comment_without_a_body_is_empty() {
    check("COMMENT\n", Entry::Comment(String::new()));
}

#[test]
fn keywords_without_arguments_ignore_one() {
    check("ENDFONT now\n", Entry::EndFont);
    check("ENDCHAR now\n", Entry::EndChar);
    check("ENDPROPERTIES now\n", Entry::EndProperties);
}

#[test]
fn argument_is_trimmed() {
    check("FONT   a b  \n", Entry::Font("a b".to_owned()));
    check("STARTFONT \t2.1\t\n", Entry::StartFont("2.1".to_owned()));
}

#[test]
fn line_without_a_space_is_trimmed() {
    check("\tENDFONT\t\n", Entry::EndFont);
    check("\tHUE\t\n", Entry::Unknown("HUE".to_owned()));
}

#[test]
fn blank_lines_are_skipped() {
    let mut reader = reader::new("\n\nENDFONT\n\n\nENDCHAR\n\n");
    assert_eq!(reader.entry().unwrap(), Entry::EndFont);
    assert_eq!(reader.entry().unwrap(), Entry::EndChar);
    assert!(matches!(reader.entry(), Err(Error::End)));
}

#[test]
fn carriage_returns_end_lines() {
    let mut reader = reader::new("STARTFONT 2.1\r\nENDFONT\r\n");
    assert_eq!(reader.entry().unwrap(), Entry::StartFont("2.1".to_owned()));
    assert_eq!(reader.entry().unwrap(), Entry::EndFont);
    assert!(matches!(reader.entry(), Err(Error::End)));
}

#[test]
fn reading_past_the_end_yields_end() {
    let mut reader = reader::new("STARTFONT 2.1\nENDFONT\n");
    assert_eq!(reader.entry().unwrap(), Entry::StartFont("2.1".to_owned()));
    assert_eq!(reader.entry().unwrap(), Entry::EndFont);
    assert!(matches!(reader.entry(), Err(Error::End)));
    assert!(matches!(reader.entry(), Err(Error::End)));
}

#[test]
fn empty_input_yields_end() {
    assert!(matches!(reader::new("").entry(), Err(Error::End)));
    assert!(reader::new("").entries().unwrap().is_empty());
}

#[test]
fn start_font_without_version() {
    match first_error("STARTFONT\n") {
        Error::MissingVersion { line_number, line } => {
            assert_eq!(line_number, 1);
            assert_eq!(line, "STARTFONT");
        }
        other => panic!("{:?}", other),
    }
}

#[test]
fn missing_values() {
    for keyword in [
        "FONT",
        "SIZE",
        "FONTBOUNDINGBOX",
        "CONTENTVERSION",
        "CHARS",
        "STARTCHAR",
        "ENCODING",
        "METRICSSET",
        "SWIDTH",
        "DWIDTH",
        "SWIDTH1",
        "DWIDTH1",
        "VVECTOR",
        "BBX",
        "STARTPROPERTIES",
    ] {
        match first_error(&format!("\n{}\n", keyword)) {
            Error::MissingValue {
                property_name,
                line_number,
            } => {
                assert_eq!(property_name, keyword);
                assert_eq!(line_number, 2);
            }
            other => panic!("{:?}", other),
        }
    }
}

#[test]
fn wrong_number_of_fields() {
    for line in [
        "SIZE 16 100",
        "SIZE 16 100 100 100",
        "SIZE 16  100 100",
        "BBX 6 11 0",
        "FONTBOUNDINGBOX 6 11 0 -2 1",
        "SWIDTH 392",
        "DWIDTH 6 0 0",
        "METRICSSET 3",
        "METRICSSET 00",
    ] {
        assert!(
            matches!(first_error(line), Error::MissingValue { line_number: 1, .. }),
            "{}",
            line
        );
    }
}

#[test]
fn fields_that_are_no_numbers() {
    match first_error("ENDFONT\nSIZE 16 x 100\n") {
        Error::Parse {
            error,
            line_number,
            line,
        } => {
            assert_eq!(error, IntErrorKind::InvalidDigit);
            assert_eq!(line_number, 2);
            assert_eq!(line, "SIZE 16 x 100");
        }
        other => panic!("{:?}", other),
    }
    assert!(matches!(
        first_error("SIZE 65536 1 1"),
        Error::Parse {
            error: IntErrorKind::PosOverflow,
            ..
        }
    ));
    assert!(matches!(
        first_error("BBX 1 1 -2147483649 0"),
        Error::Parse {
            error: IntErrorKind::NegOverflow,
            ..
        }
    ));
    assert!(matches!(
        first_error("BBX -1 1 0 0"),
        Error::Parse {
            error: IntErrorKind::InvalidDigit,
            ..
        }
    ));
    assert!(matches!(
        first_error("CHARS "),
        Error::Parse {
            error: IntErrorKind::Empty,
            ..
        }
    ));
    assert!(matches!(
        first_error("ENCODING x"),
        Error::Parse {
            error: IntErrorKind::InvalidDigit,
            ..
        }
    ));
}

#[test]
fn numbers_at_the_limits() {
    check("SIZE 65535 0 +7\n", Entry::Size(65535, 0, 7));
    check(
        "BBX 4294967295 0 -2147483648 2147483647\n",
        Entry::BoundingBox(BoundingBox {
            width: 4294967295,
            height: 0,
            x: -2147483648,
            y: 2147483647,
        }),
    );
    check("SWIDTH 007 4294967295\n", Entry::ScalableWidth(7, 4294967295));
}

#[test]
fn encoding_of_a_surrogate_is_invalid() {
    match first_error("ENCODING 55296\n") {
        Error::InvalidCodepoint { line_number, line } => {
            assert_eq!(line_number, 1);
            assert_eq!(line, "ENCODING 55296");
        }
        other => panic!("{:?}", other),
    }
    assert!(matches!(
        first_error("ENCODING 1114112\n"),
        Error::InvalidCodepoint { .. }
    ));
    check("ENCODING 55295\n", Entry::Encoding('\u{D7FF}'));
    check("ENCODING 57344\n", Entry::Encoding('\u{E000}'));
    check("ENCODING 1114111\n", Entry::Encoding('\u{10FFFF}'));
    check("ENCODING 65\n", Entry::Encoding('A'));
}

#[test]
fn bitmap_without_bounding_box() {
    match first_error("STARTCHAR a\nBITMAP\n00\n") {
        Error::MissingBoundingBox { line_number, line } => {
            assert_eq!(line_number, 2);
            assert_eq!(line, "BITMAP");
        }
        other => panic!("{:?}", other),
    }
}

#[test]
fn bitmap_goes_by_the_font_bounding_box() {
    let mut expected = Bitmap::new(8, 2);
    expected.set(0, 0, true);
    expected.set(7, 1, true);
    check(
        "FONTBOUNDINGBOX 8 2 0 0\nBITMAP\n80\n01\n",
        Entry::Bitmap(expected),
    );
}

#[test]
fn glyph_bounding_box_goes_first_and_is_forgotten() {
    let mut reader = reader::new(
        "FONTBOUNDINGBOX 8 1 0 0\nBBX 4 2 0 0\nBITMAP\n80\n10\nBITMAP\n01\nENDCHAR\n",
    );
    let mut first = Bitmap::new(4, 2);
    first.set(0, 0, true);
    first.set(3, 1, true);
    let mut second = Bitmap::new(8, 1);
    second.set(7, 0, true);
    reader.entry().unwrap();
    reader.entry().unwrap();
    assert_eq!(reader.entry().unwrap(), Entry::Bitmap(first));
    assert_eq!(reader.entry().unwrap(), Entry::Bitmap(second));
    assert_eq!(reader.entry().unwrap(), Entry::EndChar);
}

#[test]
fn bitmap_rows_are_not_skipped_when_blank() {
    match first_error("BBX 8 2 0 0\nBITMAP\n\n00\n") {
        Error::Parse {
            error,
            line_number,
            line,
        } => {
            assert_eq!(error, IntErrorKind::Empty);
            assert_eq!(line_number, 3);
            assert_eq!(line, "");
        }
        other => panic!("{:?}", other),
    }
}

#[test]
fn bitmap_row_that_is_no_hex() {
    match first_error("BBX 8 2 0 0\nBITMAP\n0F\nG0\n") {
        Error::Parse {
            error,
            line_number,
            line,
        } => {
            assert_eq!(error, IntErrorKind::InvalidDigit);
            assert_eq!(line_number, 4);
            assert_eq!(line, "G0");
        }
        other => panic!("{:?}", other),
    }
    assert!(matches!(
        first_error("BBX 8 1 0 0\nBITMAP\n10000000000000000\n"),
        Error::Parse {
            error: IntErrorKind::PosOverflow,
            ..
        }
    ));
}

#[test]
fn bitmap_that_is_cut_short() {
    assert!(matches!(
        first_error("BBX 8 3 0 0\nBITMAP\n00\n00\n"),
        Error::End
    ));
}

#[test]
fn bitmap_that_is_too_large() {
    // A bitmap is refused where its pixels cannot be numbered; where they
    // can, its rows are looked for, and here they are missing.
    let error = first_error("BBX 65536 65536 0 0\nBITMAP\n00\n");
    if usize::BITS < 64 {
        match error {
            Error::Parse {
                error,
                line_number,
                line,
            } => {
                assert_eq!(error, IntErrorKind::PosOverflow);
                assert_eq!(line_number, 2);
                assert_eq!(line, "BITMAP");
            }
            other => panic!("{:?}", other),
        }
    } else {
        assert!(matches!(error, Error::End));
    }
}

#[test]
fn bitmap_of_no_rows() {
    check("BBX 8 0 0 0\nBITMAP\n", Entry::Bitmap(Bitmap::new(8, 0)));
}

#[test]
fn bitmap_rows_in_lower_case_and_with_many_digits() {
    let mut expected = Bitmap::new(12, 2);
    expected.set(0, 0, true);
    expected.set(11, 0, true);
    expected.set(4, 1, true);
    check(
        "BBX 12 2 0 0\nBITMAP\n8010\n000800\n",
        Entry::Bitmap(expected.clone()),
    );
    check("BBX 12 2 0 0\nBITMAP\n8010\n0800\n", Entry::Bitmap(expected));
    let mut lower = Bitmap::new(8, 1);
    for x in 0..8 {
        lower.set(x, 0, x != 1);
    }
    check("BBX 8 1 0 0\nBITMAP\nbf\n", Entry::Bitmap(lower));
}

#[test]
fn bitmap_wider_than_a_word() {
    let mut expected = Bitmap::new(70, 1);
    expected.set(69, 0, true);
    expected.set(8, 0, true);
    // 70 columns are padded by 2 bits: the last column is bit 2, and column
    // 8 is bit 63, the highest of the word.
    check(
        "BBX 70 1 0 0\nBITMAP\n8000000000000004\n",
        Entry::Bitmap(expected),
    );
}

#[test]
fn entries_stop_at_the_first_error() {
    let result = reader::new("ENDFONT\nSIZE 1\nENDFONT\n").entries();
    assert!(matches!(result, Err(Error::MissingValue { .. })));
}

#[test]
fn entries_read_to_the_end() {
    let entries = reader::new("STARTFONT 2.1\n\nFONT x\nENDFONT\n")
        .entries()
        .unwrap();
    assert_eq!(
        entries,
        vec![
            Entry::StartFont("2.1".to_owned()),
            Entry::Font("x".to_owned()),
            Entry::EndFont
        ]
    );
}

#[test]
fn property_names_and_values() {
    check(
        "FACE_NAME Gohu Font\n",
        Entry::Property(
            "FACE_NAME".to_owned(),
            Property::String("Gohu Font".to_owned()),
        ),
    );
    check(
        " \"x\"\n",
        Entry::Property(String::new(), Property::String("x".to_owned())),
    );
    check(
        "startfont 2.1\n",
        Entry::Property("startfont".to_owned(), Property::String("2.1".to_owned())),
    );
}
