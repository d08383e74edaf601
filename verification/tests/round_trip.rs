use bdf::reader;
use bdf::writer;
use bdf::{Bitmap, BoundingBox, Direction, Entry, Error, Property};

fn written(entry: &Entry) -> String {
    let mut writer = writer::new();
    writer.entry(entry);
    writer.into_string()
}

fn read_back(entry: &Entry) -> Entry {
    let mut reader = reader::new(&written(entry));
    let back = reader.entry().unwrap();
    assert!(matches!(reader.entry(), Err(Error::End)));
    back
}

fn read_back_under(bounds: &str, entry: &Entry) -> Entry {
    let text = format!("{}\n{}", bounds, written(entry));
    let mut reader = reader::new(&text);
    reader.entry().unwrap();
    let back = reader.entry().unwrap();
    assert!(matches!(reader.entry(), Err(Error::End)));
    back
}

fn gohu_a() -> Bitmap {
    let mut bitmap = Bitmap::new(6, 11);
    let rows: [u8; 11] = [
        0x00, 0x70, 0xD8, 0xD8, 0xF8, 0xD8, 0xD8, 0xD8, 0xD8, 0x00, 0x00,
    ];
    for y in 0..11u32 {
        for x in 0..6u32 {
            bitmap.set(x, y, rows[y as usize] & (0x80 >> x) != 0);
        }
    }
    bitmap
}

#[test]
fn records_read_back() {
    let entries = vec![
        Entry::StartFont("2.1".to_owned()),
        Entry::StartFont(String::new()),
        Entry::Comment("a \"b\" c".to_owned()),
        Entry::Comment("  padded  ".to_owned()),
        Entry::Comment(String::new()),
        Entry::Comment("\"".to_owned()),
        Entry::ContentVersion("1.0.0".to_owned()),
        Entry::Font("-Gohu-GohuFont-Bold-R-Normal--11-80-100-100-C-60-ISO10646-1".to_owned()),
        Entry::Font("two words".to_owned()),
        Entry::Size(16, 100, 100),
        Entry::Size(0, 0, 65535),
        Entry::Chars(0),
        Entry::Chars(usize::MAX),
        Entry::FontBoundingBox(BoundingBox::new(6, 11, 0, -2)),
        Entry::FontBoundingBox(BoundingBox::new(u32::MAX, 0, i32::MIN, i32::MAX)),
        Entry::EndFont,
        Entry::StartProperties(23),
        Entry::Property("FOUNDRY".to_owned(), Property::String("Gohu\"Font".to_owned())),
        Entry::Property("X_HEIGHT".to_owned(), Property::Integer(-4)),
        Entry::Property("N".to_owned(), Property::String("41".to_owned())),
        Entry::Property("N".to_owned(), Property::String(String::new())),
        Entry::Property(String::new(), Property::Integer(i64::MIN)),
        Entry::EndProperties,
        Entry::StartChar("<control>".to_owned()),
        Entry::Encoding('\u{0}'),
        Entry::Encoding('\u{10FFFF}'),
        Entry::Encoding('é'),
        Entry::Direction(Direction::Default),
        Entry::Direction(Direction::Alternate),
        Entry::Direction(Direction::Both),
        Entry::ScalableWidth(392, 0),
        Entry::DeviceWidth(6, 0),
        Entry::AlternateScalableWidth(0, u32::MAX),
        Entry::AlternateDeviceWidth(6, 7),
        Entry::Vector(1, 2),
        Entry::BoundingBox(BoundingBox::new(6, 11, 0, -2)),
        Entry::EndChar,
    ];
    for entry in entries {
        assert_eq!(read_back(&entry), entry);
    }
}

#[test]
fn bitmap_reads_back_under_its_bounding_box() {
    let bitmap = gohu_a();
    let text = written(&Entry::Bitmap(bitmap.clone()));
    assert_eq!(
        text,
        "BITMAP\n00\n70\nD8\nD8\nF8\nD8\nD8\nD8\nD8\n00\n00\n"
    );
    assert_eq!(
        read_back_under("BBX 6 11 0 -2", &Entry::Bitmap(bitmap.clone())),
        Entry::Bitmap(bitmap.clone())
    );
    assert_eq!(
        read_back_under("FONTBOUNDINGBOX 6 11 0 -2", &Entry::Bitmap(bitmap.clone())),
        Entry::Bitmap(bitmap)
    );
}

#[test]
fn bitmaps_of_many_widths_read_back() {
    for width in [1u32, 7, 8, 9, 15, 16, 17, 31, 32, 33, 57, 63, 64] {
        let mut bitmap = Bitmap::new(width, 3);
        for x in 0..width {
            bitmap.set(x, 0, true);
            bitmap.set(x, 1, x % 3 == 0);
            bitmap.set(x, 2, x == 0 || x == width - 1);
        }
        let bounds = format!("BBX {} 3 0 0", width);
        assert_eq!(
            read_back_under(&bounds, &Entry::Bitmap(bitmap.clone())),
            Entry::Bitmap(bitmap)
        );
    }
}

#[test]
fn wide_bitmap_reads_back_where_its_first_columns_are_dark() {
    // 70 columns are padded by 2 bits, so the first 8 columns have no bit.
    let mut bitmap = Bitmap::new(70, 2);
    bitmap.set(8, 0, true);
    bitmap.set(69, 1, true);
    assert_eq!(
        read_back_under("BBX 70 2 0 0", &Entry::Bitmap(bitmap.clone())),
        Entry::Bitmap(bitmap)
    );
    let mut lit = Bitmap::new(70, 2);
    lit.set(7, 0, true);
    assert_eq!(
        read_back_under("BBX 70 2 0 0", &Entry::Bitmap(lit)),
        Entry::Bitmap(Bitmap::new(70, 2))
    );
}

#[test]
fn what_does_not_read_back() {
    assert_eq!(
        read_back(&Entry::Font(" padded ".to_owned())),
        Entry::Font("padded".to_owned())
    );
    assert_eq!(
        read_back(&Entry::Property(
            "FONT".to_owned(),
            Property::String("x".to_owned())
        )),
        Entry::Font("\"x\"".to_owned())
    );
    let mut reader = reader::new(&written(&Entry::Property(
        "TWO WORDS".to_owned(),
        Property::Integer(1),
    )));
    assert_eq!(
        reader.entry().unwrap(),
        Entry::Property("TWO".to_owned(), Property::String("WORDS 1".to_owned()))
    );
    let mut reader = reader::new(&written(&Entry::Comment("a\nb".to_owned())));
    assert_eq!(reader.entry().unwrap(), Entry::Comment("\"a".to_owned()));
}

#[test]
fn size_line_reads_back_as_it_was() {
    let mut reader = reader::new("SIZE 16 100 100\n");
    let entry = reader.entry().unwrap();
    assert_eq!(entry, Entry::Size(16, 100, 100));
    assert_eq!(written(&entry), "SIZE 16 100 100\n");
}

#[test]
fn encoding_line_reads_back_as_it_was() {
    let mut reader = reader::new("ENCODING 0\n");
    let entry = reader.entry().unwrap();
    assert_eq!(entry, Entry::Encoding('\u{0}'));
    assert_eq!(written(&entry), "ENCODING 0\n");
}

#[test]
fn comment_line_reads_back_as_it_was() {
    let line = "COMMENT \"this is a \"\"test\"\"\"\n";
    let mut reader = reader::new(line);
    let entry = reader.entry().unwrap();
    assert_eq!(entry, Entry::Comment("this is a \"test\"".to_owned()));
    assert_eq!(written(&entry), line);
}
