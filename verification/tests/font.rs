use bdf::font::Size;
use bdf::reader::{Assembler, Progress};
use bdf::table::{Glyphs, Properties};
use bdf::Entry;
use bdf::writer;
use bdf::{Bitmap, BoundingBox, Direction, Error, Font, Glyph, Property};

fn small_font() -> String {
    "STARTFONT 2.1\n\
     COMMENT \"a small font\"\n\
     FONT -small-\n\
     SIZE 16 75 75\n\
     CONTENTVERSION 3\n\
     FONTBOUNDINGBOX 8 2 0 -1\n\
     STARTPROPERTIES 2\n\
     FOUNDRY \"none\"\n\
     X_HEIGHT 4\n\
     ENDPROPERTIES\n\
     CHARS 2\n\
     STARTCHAR A\n\
     ENCODING 65\n\
     SWIDTH 500 0\n\
     DWIDTH 8 0\n\
     BBX 4 2 0 0\n\
     BITMAP\n\
     90\n\
     60\n\
     ENDCHAR\n\
     STARTCHAR B\n\
     ENCODING 66\n\
     BBX 8 1 0 0\n\
     BITMAP\n\
     FF\n\
     ENDCHAR\n\
     ENDFONT\n"
        .to_owned()
}

#[test]
fn read_a_font() {
    let font = bdf::read(&small_font()).unwrap();
    assert_eq!(font.format(), "2.1");
    assert_eq!(font.name(), "-small-");
    assert_eq!(font.version(), Some("3"));
    assert_eq!(
        *font.size(),
        Size {
            pt: 16,
            x: 75,
            y: 75
        }
    );
    assert_eq!(*font.bounds(), BoundingBox::new(8, 2, 0, -1));
    assert_eq!(font.direction(), Direction::Default);
    assert_eq!(font.scalable_width(), None);
    assert!(font.validate());

    assert_eq!(font.properties().len(), 2);
    assert_eq!(
        font.properties().get("FOUNDRY"),
        Some(&Property::String("none".to_owned()))
    );
    assert_eq!(
        font.properties().get("X_HEIGHT"),
        Some(&Property::Integer(4))
    );
    assert_eq!(font.properties().get("MISSING"), None);
    assert_eq!(font.properties().name_at(0), "FOUNDRY");
    assert_eq!(font.properties().name_at(1), "X_HEIGHT");

    assert_eq!(font.glyphs().len(), 2);
    let a = font.glyphs().get('A').unwrap();
    assert_eq!(a.name(), "A");
    assert_eq!(a.codepoint(), 'A');
    assert_eq!(a.scalable_width(), Some(&(500, 0)));
    assert_eq!(a.device_width(), Some(&(8, 0)));
    assert_eq!(*a.bounds(), BoundingBox::new(4, 2, 0, 0));
    assert_eq!(a.map().width(), 4);
    assert_eq!(a.map().height(), 2);
    assert!(a.map().get(0, 0));
    assert!(!a.map().get(1, 0));
    assert!(!a.map().get(2, 0));
    assert!(a.map().get(3, 0));
    assert!(!a.map().get(0, 1));
    assert!(a.map().get(1, 1));
    assert!(a.map().get(2, 1));
    assert!(!a.map().get(3, 1));
    assert!(a.validate());
    let b = font.glyphs().get('B').unwrap();
    assert_eq!(b.name(), "B");
    assert_eq!(b.map().width(), 8);
    assert!(font.glyphs().get('C').is_none());
    assert_eq!(font.glyphs().codepoint_at(0), 'A');
    assert_eq!(font.glyphs().codepoint_at(1), 'B');
}

#[test]
fn write_what_was_read() {
    let text = small_font();
    let font = bdf::read(&text).unwrap();
    let expected = text.replace("COMMENT \"a small font\"\n", "");
    assert_eq!(writer::write(&font).unwrap(), expected);
}

#[test]
fn read_what_was_written() {
    let mut font = Font::new("-made-", Some("1.2"));
    font.set_size(Size {
        pt: 10,
        x: 100,
        y: 100,
    });
    font.set_bounds(BoundingBox::new(3, 3, 0, 0));
    font.properties_mut()
        .insert("COPYRIGHT".to_owned(), Property::String("\"me\"".to_owned()));
    let mut glyph = Glyph::new("x", 'x');
    glyph.set_bounds(BoundingBox::new(3, 3, 0, 0));
    let mut map = Bitmap::new(3, 3);
    map.set(0, 0, true);
    map.set(1, 1, true);
    map.set(2, 2, true);
    map.set(0, 2, true);
    map.set(2, 0, true);
    glyph.set_map(map.clone());
    glyph.set_device_width(Some((3, 0)));
    font.glyphs_mut().insert('x', glyph);

    let text = writer::write(&font).unwrap();
    assert_eq!(
        text,
        "STARTFONT 2.2\n\
         FONT -made-\n\
         SIZE 10 100 100\n\
         CONTENTVERSION 1.2\n\
         FONTBOUNDINGBOX 3 3 0 0\n\
         STARTPROPERTIES 1\n\
         COPYRIGHT \"\"\"me\"\"\"\n\
         ENDPROPERTIES\n\
         CHARS 1\n\
         STARTCHAR x\n\
         ENCODING 120\n\
         DWIDTH 3 0\n\
         BBX 3 3 0 0\n\
         BITMAP\n\
         A0\n\
         40\n\
         A0\n\
         ENDCHAR\n\
         ENDFONT\n"
    );

    let back = bdf::read(&text).unwrap();
    assert_eq!(back.format(), "2.2");
    assert_eq!(back.name(), "-made-");
    assert_eq!(back.version(), Some("1.2"));
    assert_eq!(
        back.properties().get("COPYRIGHT"),
        Some(&Property::String("\"me\"".to_owned()))
    );
    let x = back.glyphs().get('x').unwrap();
    assert_eq!(x.name(), "x");
    assert_eq!(x.device_width(), Some(&(3, 0)));
    assert_eq!(*x.map(), map);
}

#[test]
fn write_metrics_of_font_and_glyph() {
    let mut font = Font::new("f", None);
    font.set_size(Size { pt: 1, x: 2, y: 3 });
    font.set_bounds(BoundingBox::new(1, 1, 0, 0));
    font.set_direction(Direction::Both);
    font.set_scalable_width(Some((1, 2)));
    font.set_device_width(Some((3, 4)));
    font.set_alternate_scalable_width(Some((5, 6)));
    font.set_alternate_device_width(Some((7, 8)));
    font.set_vector(Some((9, 10)));
    let mut glyph = Glyph::new("g", 'g');
    glyph.set_bounds(BoundingBox::new(1, 1, 0, 0));
    glyph.set_map(Bitmap::new(1, 1));
    glyph.set_direction(Direction::Alternate);
    glyph.set_alternate_scalable_width(Some((11, 12)));
    glyph.set_alternate_device_width(Some((13, 14)));
    glyph.set_vector(Some((15, 16)));
    font.glyphs_mut().insert('g', glyph);
    assert_eq!(
        writer::write(&font).unwrap(),
        "STARTFONT 2.2\n\
         FONT f\n\
         SIZE 1 2 3\n\
         FONTBOUNDINGBOX 1 1 0 0\n\
         METRICSSET 2\n\
         SWIDTH 1 2\n\
         DWIDTH 3 4\n\
         SWIDTH1 5 6\n\
         DWIDTH1 7 8\n\
         VVECTOR 9 10\n\
         CHARS 1\n\
         STARTCHAR g\n\
         ENCODING 103\n\
         METRICSSET 1\n\
         SWIDTH1 11 12\n\
         DWIDTH1 13 14\n\
         VVECTOR 15 16\n\
         BBX 1 1 0 0\n\
         BITMAP\n\
         00\n\
         ENDCHAR\n\
         ENDFONT\n"
    );
}

#[test]
fn write_refuses_a_font_that_is_not_complete() {
    let mut font = Font::default();
    assert!(!font.validate());
    assert!(matches!(writer::write(&font), Err(Error::MalformedFont)));
    font.set_name("f");
    assert!(matches!(writer::write(&font), Err(Error::MalformedFont)));
    font.set_size(Size { pt: 1, x: 2, y: 3 });
    assert!(matches!(writer::write(&font), Err(Error::MalformedFont)));
    font.set_bounds(BoundingBox::empty());
    assert!(font.validate());
    assert_eq!(
        writer::write(&font).unwrap(),
        "STARTFONT 2.2\nFONT f\nSIZE 1 2 3\nFONTBOUNDINGBOX 0 0 0 0\nCHARS 0\nENDFONT\n"
    );
}

#[test]
fn write_refuses_a_glyph_that_is_not_complete() {
    let mut font = Font::new("f", None);
    font.set_size(Size { pt: 1, x: 2, y: 3 });
    font.set_bounds(BoundingBox::empty());
    let mut good = Glyph::new("a", 'a');
    good.set_bounds(BoundingBox::empty());
    font.glyphs_mut().insert('a', good);
    font.glyphs_mut().insert('b', Glyph::new("b", 'b'));
    assert!(matches!(writer::write(&font), Err(Error::MalformedChar)));
}

#[test]
fn glyph_validate() {
    let mut glyph = Glyph::empty();
    assert!(!glyph.validate());
    glyph.set_name("a");
    assert!(!glyph.validate());
    glyph.set_codepoint('a');
    assert!(!glyph.validate());
    glyph.set_bounds(BoundingBox::empty());
    assert!(glyph.validate());
    glyph.set_alternate_scalable_width(Some((1, 1)));
    assert!(!glyph.validate());
    glyph.set_alternate_device_width(Some((1, 1)));
    assert!(!glyph.validate());
    glyph.set_direction(Direction::Both);
    assert!(glyph.validate());
    glyph.set_alternate_scalable_width(None);
    assert!(!glyph.validate());
    glyph.set_alternate_scalable_width(Some((1, 1)));
    glyph.set_alternate_device_width(None);
    assert!(!glyph.validate());
}

#[test]
fn end_of_font_inside_open_properties() {
    let result = bdf::read(
        "STARTFONT 2.1\nSTARTPROPERTIES 23\nFOUNDRY \"none\"\nX_HEIGHT 4\nENDFONT\n",
    );
    assert!(matches!(result, Err(Error::MalformedProperties)));
}

#[test]
fn fewer_properties_than_announced_are_read() {
    let font = bdf::read(
        "STARTFONT 2.1\nSTARTPROPERTIES 23\nFOUNDRY \"none\"\nENDPROPERTIES\nENDFONT\n",
    )
    .unwrap();
    assert_eq!(font.properties().len(), 1);
}

#[test]
fn what_may_not_stand_among_properties() {
    for line in ["FONT x", "STARTCHAR a", "COMMENT \"x\"", "HUE", "ENDCHAR"] {
        let text = format!("STARTFONT 2.1\nSTARTPROPERTIES 1\n{}\n", line);
        assert!(
            matches!(bdf::read(&text), Err(Error::MalformedProperties)),
            "{}",
            line
        );
    }
}

#[test]
fn what_may_not_stand_in_a_character() {
    for line in [
        "ENDFONT",
        "STARTPROPERTIES 1",
        "FONT x",
        "COMMENT \"x\"",
        "METRICSSET 1",
        "SWIDTH1 1 1",
        "DWIDTH1 1 1",
        "VVECTOR 1 1",
        "HUE",
        "KEY 1",
        "ENDCHAR",
    ] {
        let text = format!("STARTFONT 2.1\nSTARTCHAR a\n{}\nENDFONT\n", line);
        assert!(
            matches!(bdf::read(&text), Err(Error::MalformedChar)),
            "{}",
            line
        );
    }
}

#[test]
fn what_may_not_stand_in_the_font() {
    for line in [
        "ENDCHAR",
        "ENCODING 1",
        "BBX 1 1 0 0",
        "SWIDTH 1 1",
        "METRICSSET 1",
        "ENDPROPERTIES",
        "KEY 1",
        "HUE",
        "STARTFONT 2.1",
    ] {
        let text = format!("STARTFONT 2.1\n{}\nENDFONT\n", line);
        assert!(
            matches!(bdf::read(&text), Err(Error::MalformedFont)),
            "{}",
            line
        );
    }
}

#[test]
fn what_may_not_stand_before_the_font() {
    for line in ["ENDFONT", "FONT x", "COMMENT \"x\"", "HUE"] {
        let text = format!("{}\nSTARTFONT 2.1\nENDFONT\n", line);
        assert!(
            matches!(bdf::read(&text), Err(Error::MalformedFont)),
            "{}",
            line
        );
    }
}

#[test]
fn input_that_ends_before_the_font_does() {
    assert!(matches!(bdf::read(""), Err(Error::End)));
    assert!(matches!(bdf::read("STARTFONT 2.1\n"), Err(Error::End)));
    assert!(matches!(
        bdf::read("STARTFONT 2.1\nSTARTCHAR a\n"),
        Err(Error::End)
    ));
}

#[test]
fn errors_of_the_reader_come_through() {
    assert!(matches!(
        bdf::read("STARTFONT\n"),
        Err(Error::MissingVersion { .. })
    ));
    assert!(matches!(
        bdf::read("STARTFONT 2.1\nSTARTCHAR a\nBITMAP\n"),
        Err(Error::MissingBoundingBox { line_number: 3, .. })
    ));
    assert!(matches!(
        bdf::read("STARTFONT 2.1\nSIZE a b c\n"),
        Err(Error::Parse { line_number: 2, .. })
    ));
}

#[test]
fn what_follows_the_end_of_the_font_is_not_read() {
    let font = bdf::read("STARTFONT 2.1\nENDFONT\nSIZE a b c\n").unwrap();
    assert_eq!(font.format(), "2.1");
    assert!(!font.validate());
}

#[test]
fn later_entries_take_the_place_of_earlier_ones() {
    let font = bdf::read(
        "STARTFONT 2.1\n\
         STARTPROPERTIES 3\nA 1\nB 2\nA 3\nENDPROPERTIES\n\
         STARTCHAR first\nENCODING 65\nENDCHAR\n\
         STARTCHAR second\nENCODING 66\nENDCHAR\n\
         STARTCHAR third\nENCODING 65\nENDCHAR\n\
         ENDFONT\n",
    )
    .unwrap();
    assert_eq!(font.properties().len(), 2);
    assert_eq!(font.properties().name_at(0), "A");
    assert_eq!(*font.properties().value_at(0), Property::Integer(3));
    assert_eq!(font.properties().name_at(1), "B");
    assert_eq!(font.glyphs().len(), 2);
    assert_eq!(font.glyphs().codepoint_at(0), 'A');
    assert_eq!(font.glyphs().glyph_at(0).name(), "third");
    assert_eq!(font.glyphs().glyph_at(1).name(), "second");
}

#[test]
fn character_without_encoding_is_malformed() {
    assert!(matches!(
        bdf::read("STARTFONT 2.1\nSTARTCHAR a\nENDCHAR\nENDFONT\n"),
        Err(Error::MalformedChar)
    ));
}

#[test]
fn font_getters_and_setters() {
    let mut font = Font::new("n", Some("v"));
    assert_eq!(font.format(), "2.2");
    assert_eq!(font.name(), "n");
    assert_eq!(font.version(), Some("v"));
    font.set_format("2.1");
    font.set_name("m");
    font.set_version(None);
    assert_eq!(font.format(), "2.1");
    assert_eq!(font.name(), "m");
    assert_eq!(font.version(), None);
    font.set_scalable_width(Some((1, 2)));
    font.set_device_width(Some((3, 4)));
    font.set_alternate_scalable_width(Some((5, 6)));
    font.set_alternate_device_width(Some((7, 8)));
    font.set_vector(Some((9, 10)));
    font.set_direction(Direction::Alternate);
    assert_eq!(font.scalable_width(), Some(&(1, 2)));
    assert_eq!(font.device_width(), Some(&(3, 4)));
    assert_eq!(font.alternate_scalable_width(), Some(&(5, 6)));
    assert_eq!(font.alternate_device_width(), Some(&(7, 8)));
    assert_eq!(font.vector(), Some(&(9, 10)));
    assert_eq!(font.direction(), Direction::Alternate);
    assert!(font.properties().is_empty());
    assert!(font.glyphs().is_empty());
}

#[test]
fn glyph_getters_and_setters() {
    let mut glyph = Glyph::new("n", 'n');
    assert_eq!(glyph.name(), "n");
    assert_eq!(glyph.codepoint(), 'n');
    assert_eq!(glyph.direction(), Direction::Default);
    assert_eq!(glyph.scalable_width(), None);
    assert_eq!(glyph.map().width(), 0);
    assert_eq!(glyph.map().height(), 0);
    glyph.set_name("m");
    glyph.set_codepoint('m');
    glyph.set_direction(Direction::Both);
    glyph.set_scalable_width(Some((1, 2)));
    glyph.set_device_width(Some((3, 4)));
    glyph.set_alternate_scalable_width(Some((5, 6)));
    glyph.set_alternate_device_width(Some((7, 8)));
    glyph.set_vector(Some((9, 10)));
    glyph.set_bounds(BoundingBox::new(1, 2, 3, 4));
    assert_eq!(glyph.name(), "m");
    assert_eq!(glyph.codepoint(), 'm');
    assert_eq!(glyph.direction(), Direction::Both);
    assert_eq!(glyph.scalable_width(), Some(&(1, 2)));
    assert_eq!(glyph.device_width(), Some(&(3, 4)));
    assert_eq!(glyph.alternate_scalable_width(), Some(&(5, 6)));
    assert_eq!(glyph.alternate_device_width(), Some(&(7, 8)));
    assert_eq!(glyph.vector(), Some(&(9, 10)));
    assert_eq!(*glyph.bounds(), BoundingBox::new(1, 2, 3, 4));
    let copy = glyph.clone();
    assert_eq!(copy.name(), "m");
    assert_eq!(copy.vector(), Some(&(9, 10)));
}

#[test]
fn glyph_pixels_go_row_by_row() {
    let mut glyph = Glyph::empty();
    let mut map = Bitmap::new(3, 2);
    map.set(1, 0, true);
    map.set(2, 1, true);
    glyph.set_map(map);
    assert_eq!(
        glyph.pixels().collect(),
        vec![
            ((0, 0), false),
            ((1, 0), true),
            ((2, 0), false),
            ((0, 1), false),
            ((1, 1), false),
            ((2, 1), true),
        ]
    );
    let mut pixels = glyph.pixels();
    assert_eq!(pixels.size_hint(), (6, Some(6)));
    assert_eq!(pixels.next(), Some(((0, 0), false)));
    assert_eq!(pixels.next(), Some(((1, 0), true)));
    assert_eq!(pixels.size_hint(), (4, Some(4)));
    assert_eq!(pixels.next(), Some(((2, 0), false)));
    assert_eq!(pixels.next(), Some(((0, 1), false)));
    assert_eq!(pixels.collect(), vec![((1, 1), false), ((2, 1), true)]);
    let mut pixels = glyph.pixels();
    for _ in 0..6 {
        assert!(pixels.next().is_some());
    }
    assert_eq!(pixels.size_hint(), (0, Some(0)));
    assert_eq!(pixels.next(), None);
    assert_eq!(pixels.next(), None);
}

#[test]
fn glyph_without_pixels() {
    assert!(Glyph::empty().pixels().collect().is_empty());
    assert_eq!(Glyph::empty().pixels().next(), None);
    let mut glyph = Glyph::empty();
    glyph.set_map(Bitmap::new(0, 5));
    assert_eq!(glyph.pixels().next(), None);
    assert_eq!(glyph.pixels().size_hint(), (0, Some(0)));
    glyph.set_map(Bitmap::new(5, 0));
    assert_eq!(glyph.pixels().next(), None);
}

#[test]
fn glyph_reaches_into_its_bitmap() {
    let mut glyph = Glyph::empty();
    glyph.set_map(Bitmap::new(3, 2));
    assert_eq!(glyph.width(), 3);
    assert_eq!(glyph.height(), 2);
    assert!(!glyph.get(2, 1));
    glyph.set(2, 1, true);
    assert!(glyph.get(2, 1));
    assert!(glyph.map().get(2, 1));
    assert!(!glyph.get(1, 1));
}

#[test]
fn assembler_takes_records_one_by_one() {
    let assembler = Assembler::new();
    let assembler = match assembler.feed(Entry::StartFont("2.1".to_owned())) {
        Progress::Next(next) => next,
        _ => panic!("the font has started"),
    };
    let assembler = match assembler.feed(Entry::Font("f".to_owned())) {
        Progress::Next(next) => next,
        _ => panic!("the font has a name"),
    };
    match assembler.feed(Entry::EndFont) {
        Progress::Done(font) => {
            assert_eq!(font.format(), "2.1");
            assert_eq!(font.name(), "f");
        }
        _ => panic!("the font has ended"),
    }
    assert!(matches!(
        Assembler::new().feed(Entry::EndFont),
        Progress::Fail(Error::MalformedFont)
    ));
}

#[test]
fn tables_keep_the_order_of_their_keys() {
    let mut properties = Properties::new();
    assert!(properties.is_empty());
    properties.insert("B".to_owned(), Property::Integer(1));
    properties.insert("A".to_owned(), Property::Integer(2));
    properties.insert("B".to_owned(), Property::Integer(3));
    assert_eq!(properties.len(), 2);
    assert!(!properties.is_empty());
    assert_eq!(properties.name_at(0), "B");
    assert_eq!(*properties.value_at(0), Property::Integer(3));
    assert_eq!(properties.name_at(1), "A");
    assert_eq!(properties.get("A"), Some(&Property::Integer(2)));
    assert_eq!(properties.get("C"), None);

    let mut glyphs = Glyphs::new();
    assert!(glyphs.is_empty());
    glyphs.insert('b', Glyph::new("first", 'b'));
    glyphs.insert('a', Glyph::new("second", 'a'));
    glyphs.insert('b', Glyph::new("third", 'b'));
    assert_eq!(glyphs.len(), 2);
    assert_eq!(glyphs.codepoint_at(0), 'b');
    assert_eq!(glyphs.glyph_at(0).name(), "third");
    assert_eq!(glyphs.codepoint_at(1), 'a');
    assert_eq!(glyphs.get('a').unwrap().name(), "second");
    assert!(glyphs.get('c').is_none());
}

fn large_font(glyphs: u32) -> Font {
    let mut font = Font::new("-large-font-", Some("1.0"));
    font.set_format("2.1");
    font.set_size(Size {
        pt: 16,
        x: 75,
        y: 75,
    });
    font.set_bounds(BoundingBox::new(16, 16, 0, -2));
    for i in 0..40 {
        font.properties_mut()
            .insert(format!("PROPERTY_{}", i), Property::Integer(i as i64 - 20));
        font.properties_mut().insert(
            format!("TEXT_{}", i),
            Property::String(format!("value \"{}\"", i)),
        );
    }
    for i in 0..glyphs {
        let codepoint = char::from_u32(0x4E00 + i).unwrap();
        let mut glyph = Glyph::new(&format!("uni{:04X}", 0x4E00 + i), codepoint);
        glyph.set_scalable_width(Some((1000, 0)));
        glyph.set_device_width(Some((16, 0)));
        glyph.set_bounds(BoundingBox::new(16, 16, 0, -2));
        let mut map = Bitmap::new(16, 16);
        for y in 0..16 {
            for x in 0..16 {
                map.set(x, y, (x * 7 + y * 13 + i) % 5 < 2);
            }
        }
        glyph.set_map(map);
        font.glyphs_mut().insert(codepoint, glyph);
    }
    font
}

#[test]
fn large_font_reads_back() {
    let font = large_font(300);
    let text = writer::write(&font).unwrap();
    let back = bdf::read(&text).unwrap();
    assert_eq!(back.format(), font.format());
    assert_eq!(back.name(), font.name());
    assert_eq!(back.version(), font.version());
    assert_eq!(back.size(), font.size());
    assert_eq!(back.bounds(), font.bounds());
    assert_eq!(back.properties().len(), font.properties().len());
    for i in 0..font.properties().len() {
        assert_eq!(back.properties().name_at(i), font.properties().name_at(i));
        assert_eq!(back.properties().value_at(i), font.properties().value_at(i));
    }
    assert_eq!(back.glyphs().len(), font.glyphs().len());
    for i in 0..font.glyphs().len() {
        let a = back.glyphs().glyph_at(i);
        let b = font.glyphs().glyph_at(i);
        assert_eq!(back.glyphs().codepoint_at(i), font.glyphs().codepoint_at(i));
        assert_eq!(a.name(), b.name());
        assert_eq!(a.codepoint(), b.codepoint());
        assert_eq!(a.scalable_width(), b.scalable_width());
        assert_eq!(a.device_width(), b.device_width());
        assert_eq!(a.bounds(), b.bounds());
        assert_eq!(a.map(), b.map());
    }
    assert_eq!(writer::write(&back).unwrap(), text);
}

#[test]
fn read_a_font_with_carriage_returns() {
    let text = small_font().replace('\n', "\r\n");
    let font = bdf::read(&text).unwrap();
    assert_eq!(font.name(), "-small-");
    assert_eq!(font.glyphs().len(), 2);
    assert_eq!(writer::write(&font).unwrap().replace('\n', "\r\n"), text.replace("COMMENT \"a small font\"\r\n", ""));
}

#[test]
fn smallest_font_reads_and_writes() {
    let text =
        "STARTFONT 2.1\nFONT demo\nSIZE 16 75 75\nFONTBOUNDINGBOX 8 8 0 0\nCHARS 0\nENDFONT\n";
    let font = bdf::read(text).unwrap();
    assert_eq!(font.name(), "demo");
    assert_eq!(writer::write(&font).unwrap(), text);
}
