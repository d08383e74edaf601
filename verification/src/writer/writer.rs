//! The writer: records in, text out.

use crate::bitmap::BitmapView;
use crate::bounding_box::BoundingBox;
use crate::direction::Direction;
use crate::entry::{Entry, EntryView};
use crate::number::{decimal, hex_bytes, push_decimal, push_hex_bytes};
use crate::property::{push_escaped, quote, Property, PropertyView};
use crate::reader::line::Keyword;
use crate::row::{pack_row, row_word};
use crate::text::string_push;
use vstd::prelude::*;

verus! {

/// A keyword and its argument, with one space between them.
pub open spec fn with_argument(k: Keyword, argument: Seq<char>) -> Seq<char> {
    k.text() + seq![' '] + argument
}

/// Two numbers with one space between them.
pub open spec fn pair_text(x: int, y: int) -> Seq<char> {
    decimal(x) + seq![' '] + decimal(y)
}

/// A bounding box as its width, height and offsets.
pub open spec fn bounds_text(b: BoundingBox) -> Seq<char> {
    pair_text(b.width as int, b.height as int) + seq![' '] + pair_text(b.x as int, b.y as int)
}

/// A direction as its number.
pub open spec fn direction_text(d: Direction) -> Seq<char> {
    match d {
        Direction::Default => "0"@,
        Direction::Alternate => "1"@,
        Direction::Both => "2"@,
    }
}

/// A property value: a string in quotes, an integer in base 10.
pub open spec fn value_text(value: PropertyView) -> Seq<char> {
    match value {
        PropertyView::String(s) => quote(s),
        PropertyView::Integer(i) => decimal(i as int),
    }
}

/// The line of a record; for a bitmap, the line before its rows.
pub open spec fn line_of(entry: EntryView) -> Seq<char> {
    match entry {
        EntryView::StartFont(s) => with_argument(Keyword::StartFont, s),
        EntryView::Comment(s) => with_argument(Keyword::Comment, quote(s)),
        EntryView::ContentVersion(s) => with_argument(Keyword::ContentVersion, s),
        EntryView::Font(s) => with_argument(Keyword::Font, s),
        EntryView::Size(pt, x, y) => with_argument(
            Keyword::Size,
            decimal(pt as int) + seq![' '] + pair_text(x as int, y as int),
        ),
        EntryView::Chars(n) => with_argument(Keyword::Chars, decimal(n as int)),
        EntryView::FontBoundingBox(b) => with_argument(Keyword::FontBoundingBox, bounds_text(b)),
        EntryView::EndFont => Keyword::EndFont.text(),
        EntryView::StartProperties(n) => with_argument(Keyword::StartProperties, decimal(n as int)),
        EntryView::Property(name, value) => name + seq![' '] + value_text(value),
        EntryView::EndProperties => Keyword::EndProperties.text(),
        EntryView::StartChar(s) => with_argument(Keyword::StartChar, s),
        EntryView::Encoding(c) => with_argument(Keyword::Encoding, decimal(c as int)),
        EntryView::Direction(d) => with_argument(Keyword::MetricsSet, direction_text(d)),
        EntryView::ScalableWidth(x, y) => with_argument(
            Keyword::ScalableWidth,
            pair_text(x as int, y as int),
        ),
        EntryView::DeviceWidth(x, y) => with_argument(
            Keyword::DeviceWidth,
            pair_text(x as int, y as int),
        ),
        EntryView::AlternateScalableWidth(x, y) => with_argument(
            Keyword::AlternateScalableWidth,
            pair_text(x as int, y as int),
        ),
        EntryView::AlternateDeviceWidth(x, y) => with_argument(
            Keyword::AlternateDeviceWidth,
            pair_text(x as int, y as int),
        ),
        EntryView::Vector(x, y) => with_argument(Keyword::Vector, pair_text(x as int, y as int)),
        EntryView::BoundingBox(b) => with_argument(Keyword::BoundingBox, bounds_text(b)),
        EntryView::Bitmap(_) => Keyword::Bitmap.text(),
        EntryView::EndChar => Keyword::EndChar.text(),
        EntryView::Unknown(id) => id,
    }
}

/// The rows of a bitmap, each as the bytes of its word in base 16.
pub open spec fn rows_of(map: BitmapView) -> Seq<Seq<char>> {
    Seq::new(map.height, |y: int| hex_bytes(row_word(map, y) as nat))
}

/// The lines of a record: one, and for a bitmap one more for each row.
pub open spec fn lines_of(entry: EntryView) -> Seq<Seq<char>> {
    match entry {
        EntryView::Bitmap(map) => seq![line_of(entry)] + rows_of(map),
        _ => seq![line_of(entry)],
    }
}

/// The given lines as text, each ended by a line feed.
pub open spec fn join_lines(lines: Seq<Seq<char>>) -> Seq<char>
    decreases lines.len(),
{
    if lines.len() == 0 {
        Seq::empty()
    } else {
        join_lines(lines.drop_last()) + lines.last() + seq!['\n']
    }
}

/// The text of a record.
pub open spec fn text_of(entry: EntryView) -> Seq<char> {
    join_lines(lines_of(entry))
}

/// The text of one more line.
pub proof fn lemma_join_push(lines: Seq<Seq<char>>, line: Seq<char>)
    ensures
        join_lines(lines.push(line)) == join_lines(lines) + line + seq!['\n'],
{
    assert(lines.push(line).drop_last() =~= lines);
}

/// The text of one line.
pub proof fn lemma_join_one(line: Seq<char>)
    ensures
        join_lines(seq![line]) == line + seq!['\n'],
{
    assert(seq![line].drop_last() =~= Seq::<Seq<char>>::empty());
    assert(join_lines(Seq::<Seq<char>>::empty()) + line + seq!['\n'] =~= line + seq!['\n']);
}

/// Appends a keyword.
fn push_keyword(out: &mut String, k: Keyword)
    ensures
        final(out)@ == old(out)@ + k.text(),
{
    match k {
        Keyword::Comment => out.append("COMMENT"),
        Keyword::StartFont => out.append("STARTFONT"),
        Keyword::Font => out.append("FONT"),
        Keyword::Size => out.append("SIZE"),
        Keyword::FontBoundingBox => out.append("FONTBOUNDINGBOX"),
        Keyword::ContentVersion => out.append("CONTENTVERSION"),
        Keyword::Chars => out.append("CHARS"),
        Keyword::StartChar => out.append("STARTCHAR"),
        Keyword::Encoding => out.append("ENCODING"),
        Keyword::MetricsSet => out.append("METRICSSET"),
        Keyword::ScalableWidth => out.append("SWIDTH"),
        Keyword::DeviceWidth => out.append("DWIDTH"),
        Keyword::AlternateScalableWidth => out.append("SWIDTH1"),
        Keyword::AlternateDeviceWidth => out.append("DWIDTH1"),
        Keyword::Vector => out.append("VVECTOR"),
        Keyword::BoundingBox => out.append("BBX"),
        Keyword::Bitmap => out.append("BITMAP"),
        Keyword::EndChar => out.append("ENDCHAR"),
        Keyword::EndFont => out.append("ENDFONT"),
        Keyword::StartProperties => out.append("STARTPROPERTIES"),
        Keyword::EndProperties => out.append("ENDPROPERTIES"),
    }
}

/// Appends two numbers with a space between them.
fn push_pair(out: &mut String, x: i128, y: i128)
    requires
        -0x8000_0000_0000_0000 <= x <= 0xFFFF_FFFF_FFFF_FFFF,
        -0x8000_0000_0000_0000 <= y <= 0xFFFF_FFFF_FFFF_FFFF,
    ensures
        final(out)@ == old(out)@ + pair_text(x as int, y as int),
{
    push_decimal(out, x);
    string_push(out, ' ');
    push_decimal(out, y);
    proof {
        assert(out@ =~= old(out)@ + pair_text(x as int, y as int));
    }
}

/// Appends a bounding box.
fn push_bounds(out: &mut String, b: &BoundingBox)
    ensures
        final(out)@ == old(out)@ + bounds_text(*b),
{
    push_pair(out, b.width as i128, b.height as i128);
    string_push(out, ' ');
    push_pair(out, b.x as i128, b.y as i128);
    proof {
        assert(out@ =~= old(out)@ + bounds_text(*b));
    }
}

/// Appends a property value.
fn push_value(out: &mut String, value: &Property)
    ensures
        final(out)@ == old(out)@ + value_text(value@),
{
    match value {
        Property::String(s) => {
            string_push(out, '"');
            push_escaped(out, s.as_str());
            string_push(out, '"');
            proof {
                assert(out@ =~= old(out)@ + quote(s@));
            }
        },
        Property::Integer(i) => {
            push_decimal(out, *i as i128);
        },
    }
}

/// The font writer. It holds the text that it has written.
pub struct Writer {
    buffer: String,
}

impl View for Writer {
    type V = Seq<char>;

    closed spec fn view(&self) -> Seq<char> {
        self.buffer@
    }
}

impl Writer {
    /// A writer that has written nothing.
    pub fn empty() -> (writer: Writer)
        ensures
            writer@ == Seq::<char>::empty(),
    {
        Writer { buffer: String::new() }
    }

    /// The text that was written.
    pub fn as_str(&self) -> (text: &str)
        ensures
            text@ == self@,
    {
        self.buffer.as_str()
    }

    /// Gives up the writer for the text that it has written.
    pub fn into_string(self) -> (text: String)
        ensures
            text@ == self@,
    {
        self.buffer
    }

    /// Appends a keyword and the space before its argument.
    fn start(&mut self, k: Keyword)
        ensures
            final(self)@ == old(self)@ + k.text() + seq![' '],
    {
        push_keyword(&mut self.buffer, k);
        string_push(&mut self.buffer, ' ');
        proof {
            assert(self@ =~= old(self)@ + k.text() + seq![' ']);
        }
    }

    /// Appends a keyword and an argument that is written as it stands.
    fn text(&mut self, k: Keyword, argument: &str)
        ensures
            final(self)@ == old(self)@ + with_argument(k, argument@),
    {
        self.start(k);
        self.buffer.append(argument);
        proof {
            assert(self@ =~= old(self)@ + with_argument(k, argument@));
        }
    }

    /// Appends a keyword and a pair of numbers.
    fn pair(&mut self, k: Keyword, x: u32, y: u32)
        ensures
            final(self)@ == old(self)@ + with_argument(k, pair_text(x as int, y as int)),
    {
        self.start(k);
        push_pair(&mut self.buffer, x as i128, y as i128);
        proof {
            assert(self@ =~= old(self)@ + with_argument(k, pair_text(x as int, y as int)));
        }
    }

    /// Appends a keyword and one count.
    fn count(&mut self, k: Keyword, n: usize)
        ensures
            final(self)@ == old(self)@ + with_argument(k, decimal(n as int)),
    {
        self.start(k);
        push_decimal(&mut self.buffer, n as i128);
        proof {
            assert(self@ =~= old(self)@ + with_argument(k, decimal(n as int)));
        }
    }

    /// Appends a keyword and a bounding box.
    fn bounds(&mut self, k: Keyword, b: &BoundingBox)
        ensures
            final(self)@ == old(self)@ + with_argument(k, bounds_text(*b)),
    {
        self.start(k);
        push_bounds(&mut self.buffer, b);
        proof {
            assert(self@ =~= old(self)@ + with_argument(k, bounds_text(*b)));
        }
    }

    /// Appends the line of a record, without its end.
    fn line(&mut self, entry: &Entry)
        requires
            !(entry@ is Unknown),
        ensures
            final(self)@ == old(self)@ + line_of(entry@),
    {
        match entry {
            Entry::StartFont(s) => self.text(Keyword::StartFont, s.as_str()),
            Entry::Comment(s) => {
                self.start(Keyword::Comment);
                string_push(&mut self.buffer, '"');
                push_escaped(&mut self.buffer, s.as_str());
                string_push(&mut self.buffer, '"');
                proof {
                    assert(self@ =~= old(self)@ + with_argument(Keyword::Comment, quote(s@)));
                }
            },
            Entry::ContentVersion(s) => self.text(Keyword::ContentVersion, s.as_str()),
            Entry::Font(s) => self.text(Keyword::Font, s.as_str()),
            Entry::Size(pt, x, y) => {
                self.start(Keyword::Size);
                push_decimal(&mut self.buffer, *pt as i128);
                string_push(&mut self.buffer, ' ');
                push_pair(&mut self.buffer, *x as i128, *y as i128);
                proof {
                    assert(self@ =~= old(self)@ + line_of(entry@));
                }
            },
            Entry::Chars(n) => self.count(Keyword::Chars, *n),
            Entry::FontBoundingBox(b) => self.bounds(Keyword::FontBoundingBox, b),
            Entry::EndFont => push_keyword(&mut self.buffer, Keyword::EndFont),
            Entry::StartProperties(n) => self.count(Keyword::StartProperties, *n),
            Entry::Property(name, value) => {
                self.buffer.append(name.as_str());
                string_push(&mut self.buffer, ' ');
                push_value(&mut self.buffer, value);
                proof {
                    assert(self@ =~= old(self)@ + line_of(entry@));
                }
            },
            Entry::EndProperties => push_keyword(&mut self.buffer, Keyword::EndProperties),
            Entry::StartChar(s) => self.text(Keyword::StartChar, s.as_str()),
            Entry::Encoding(c) => {
                self.start(Keyword::Encoding);
                push_decimal(&mut self.buffer, (*c as u32) as i128);
                proof {
                    assert(self@ =~= old(self)@ + line_of(entry@));
                }
            },
            Entry::Direction(d) => {
                self.start(Keyword::MetricsSet);
                match d {
                    Direction::Default => self.buffer.append("0"),
                    Direction::Alternate => self.buffer.append("1"),
                    Direction::Both => self.buffer.append("2"),
                }
                proof {
                    assert(self@ =~= old(self)@ + line_of(entry@));
                }
            },
            Entry::ScalableWidth(x, y) => self.pair(Keyword::ScalableWidth, *x, *y),
            Entry::DeviceWidth(x, y) => self.pair(Keyword::DeviceWidth, *x, *y),
            Entry::AlternateScalableWidth(x, y) => self.pair(
                Keyword::AlternateScalableWidth,
                *x,
                *y,
            ),
            Entry::AlternateDeviceWidth(x, y) => self.pair(Keyword::AlternateDeviceWidth, *x, *y),
            Entry::Vector(x, y) => self.pair(Keyword::Vector, *x, *y),
            Entry::BoundingBox(b) => self.bounds(Keyword::BoundingBox, b),
            Entry::Bitmap(_) => push_keyword(&mut self.buffer, Keyword::Bitmap),
            Entry::EndChar => push_keyword(&mut self.buffer, Keyword::EndChar),
            Entry::Unknown(_) => {},
        }
    }

    /// Write an entry.
    pub fn entry(&mut self, entry: &Entry)
        requires
            !(entry@ is Unknown),
        ensures
            final(self)@ == old(self)@ + text_of(entry@),
    {
        self.line(entry);
        string_push(&mut self.buffer, '\n');
        proof {
            lemma_join_one(line_of(entry@));
            assert(self@ =~= old(self)@ + join_lines(seq![line_of(entry@)]));
        }
        if let Entry::Bitmap(map) = entry {
            let height: u32 = map.height();
            let ghost head = seq![line_of(entry@)];
            let mut y: u32 = 0;
            proof {
                assert(head + rows_of(map@).take(0) =~= head);
            }
            while y < height
                invariant
                    y <= height,
                    height == map@.height,
                    head == seq![line_of(entry@)],
                    self@ == old(self)@ + join_lines(head + rows_of(map@).take(y as int)),
                decreases height - y,
            {
                let ghost before = self@;
                let ghost lines = head + rows_of(map@).take(y as int);
                let word: u64 = pack_row(map, y);
                push_hex_bytes(&mut self.buffer, word);
                string_push(&mut self.buffer, '\n');
                proof {
                    let row = hex_bytes(word as nat);
                    assert(rows_of(map@)[y as int] == row);
                    assert(head + rows_of(map@).take(y + 1) =~= lines.push(row));
                    lemma_join_push(lines, row);
                    assert(self@ =~= before + row + seq!['\n']);
                    assert(self@ =~= old(self)@ + join_lines(lines.push(row)));
                }
                y += 1;
            }
            proof {
                assert(rows_of(map@).take(height as int) =~= rows_of(map@));
            }
        }
    }
}

} // verus!
