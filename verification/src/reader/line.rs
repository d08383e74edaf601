//! One line of a font file as a record.

use crate::bounding_box::BoundingBox;
use crate::direction::Direction;
use crate::entry::{Entry, EntryView};
use crate::error::{Error, ErrorView};
use crate::number::{parse_int, parse_integer};
use crate::property::{extract_chars, extract_text, parse_chars, parse_property};
use crate::text::{chars_equal, find_char, split, split_chars, string_of, trim, trim_chars, until};
use vstd::prelude::*;
use vstd::slice::slice_subrange;

verus! {

/// The keywords that start a line with a fixed meaning.
#[derive(Clone, Copy, Debug, PartialEq, Eq, Structural)]
pub enum Keyword {
    /// `COMMENT`
    Comment,
    /// `STARTFONT`
    StartFont,
    /// `FONT`
    Font,
    /// `SIZE`
    Size,
    /// `FONTBOUNDINGBOX`
    FontBoundingBox,
    /// `CONTENTVERSION`
    ContentVersion,
    /// `CHARS`
    Chars,
    /// `STARTCHAR`
    StartChar,
    /// `ENCODING`
    Encoding,
    /// `METRICSSET`
    MetricsSet,
    /// `SWIDTH`
    ScalableWidth,
    /// `DWIDTH`
    DeviceWidth,
    /// `SWIDTH1`
    AlternateScalableWidth,
    /// `DWIDTH1`
    AlternateDeviceWidth,
    /// `VVECTOR`
    Vector,
    /// `BBX`
    BoundingBox,
    /// `BITMAP`
    Bitmap,
    /// `ENDCHAR`
    EndChar,
    /// `ENDFONT`
    EndFont,
    /// `STARTPROPERTIES`
    StartProperties,
    /// `ENDPROPERTIES`
    EndProperties,
}

impl Keyword {
    /// The keyword as it stands in a file.
    pub open spec fn text(self) -> Seq<char> {
        match self {
            Keyword::Comment => "COMMENT"@,
            Keyword::StartFont => "STARTFONT"@,
            Keyword::Font => "FONT"@,
            Keyword::Size => "SIZE"@,
            Keyword::FontBoundingBox => "FONTBOUNDINGBOX"@,
            Keyword::ContentVersion => "CONTENTVERSION"@,
            Keyword::Chars => "CHARS"@,
            Keyword::StartChar => "STARTCHAR"@,
            Keyword::Encoding => "ENCODING"@,
            Keyword::MetricsSet => "METRICSSET"@,
            Keyword::ScalableWidth => "SWIDTH"@,
            Keyword::DeviceWidth => "DWIDTH"@,
            Keyword::AlternateScalableWidth => "SWIDTH1"@,
            Keyword::AlternateDeviceWidth => "DWIDTH1"@,
            Keyword::Vector => "VVECTOR"@,
            Keyword::BoundingBox => "BBX"@,
            Keyword::Bitmap => "BITMAP"@,
            Keyword::EndChar => "ENDCHAR"@,
            Keyword::EndFont => "ENDFONT"@,
            Keyword::StartProperties => "STARTPROPERTIES"@,
            Keyword::EndProperties => "ENDPROPERTIES"@,
        }
    }
}

/// The keyword that `id` is, where it is one.
pub open spec fn keyword_named(id: Seq<char>) -> Option<Keyword> {
    if exists|k: Keyword| k.text() == id {
        Some(choose|k: Keyword| k.text() == id)
    } else {
        None
    }
}

/// A line as its keyword and its argument. The keyword is what stands before
/// the first space, and the argument is the rest of the line, trimmed. A line
/// without a space is, trimmed, a keyword without an argument.
pub open spec fn tokens(line: Seq<char>) -> (Seq<char>, Option<Seq<char>>) {
    let n = until(line, ' ');
    if 0 <= n < line.len() {
        (line.take(n), Some(trim(line.skip(n))))
    } else {
        (trim(line), None)
    }
}

/// The error for a keyword without its argument, or with an argument of the
/// wrong number of fields.
pub open spec fn missing_value(id: Seq<char>, number: nat) -> ErrorView {
    ErrorView::MissingValue { property_name: id, line_number: number }
}

/// The field `s` of line `number` as an integer in `min..=max`.
pub open spec fn number_in(
    s: Seq<char>,
    min: int,
    max: int,
    line: Seq<char>,
    number: nat,
) -> Result<int, ErrorView> {
    match parse_int(s, 10, min, max) {
        Ok(v) => Ok(v),
        Err(error) => Err(ErrorView::Parse { error, line_number: number, line }),
    }
}

/// The fields of an argument that must be there and hold `count` fields with
/// one space between each two.
pub open spec fn fields_in(
    rest: Option<Seq<char>>,
    count: nat,
    id: Seq<char>,
    number: nat,
) -> Result<Seq<Seq<char>>, ErrorView> {
    match rest {
        Some(r) => if split(r, ' ').len() == count {
            Ok(split(r, ' '))
        } else {
            Err(missing_value(id, number))
        },
        None => Err(missing_value(id, number)),
    }
}

/// An argument of two unsigned 32-bit integers.
pub open spec fn pair_in(
    rest: Option<Seq<char>>,
    id: Seq<char>,
    line: Seq<char>,
    number: nat,
) -> Result<(u32, u32), ErrorView> {
    match fields_in(rest, 2, id, number) {
        Err(e) => Err(e),
        Ok(f) => match number_in(f[0], 0, u32::MAX as int, line, number) {
            Err(e) => Err(e),
            Ok(x) => match number_in(f[1], 0, u32::MAX as int, line, number) {
                Err(e) => Err(e),
                Ok(y) => Ok((x as u32, y as u32)),
            },
        },
    }
}

/// An argument of three unsigned 16-bit integers.
pub open spec fn size_in(
    rest: Option<Seq<char>>,
    id: Seq<char>,
    line: Seq<char>,
    number: nat,
) -> Result<(u16, u16, u16), ErrorView> {
    match fields_in(rest, 3, id, number) {
        Err(e) => Err(e),
        Ok(f) => match number_in(f[0], 0, u16::MAX as int, line, number) {
            Err(e) => Err(e),
            Ok(pt) => match number_in(f[1], 0, u16::MAX as int, line, number) {
                Err(e) => Err(e),
                Ok(x) => match number_in(f[2], 0, u16::MAX as int, line, number) {
                    Err(e) => Err(e),
                    Ok(y) => Ok((pt as u16, x as u16, y as u16)),
                },
            },
        },
    }
}

/// An argument of a width, a height and two signed offsets.
pub open spec fn bounds_in(
    rest: Option<Seq<char>>,
    id: Seq<char>,
    line: Seq<char>,
    number: nat,
) -> Result<BoundingBox, ErrorView> {
    match fields_in(rest, 4, id, number) {
        Err(e) => Err(e),
        Ok(f) => match number_in(f[0], 0, u32::MAX as int, line, number) {
            Err(e) => Err(e),
            Ok(width) => match number_in(f[1], 0, u32::MAX as int, line, number) {
                Err(e) => Err(e),
                Ok(height) => match number_in(
                    f[2],
                    i32::MIN as int,
                    i32::MAX as int,
                    line,
                    number,
                ) {
                    Err(e) => Err(e),
                    Ok(x) => match number_in(
                        f[3],
                        i32::MIN as int,
                        i32::MAX as int,
                        line,
                        number,
                    ) {
                        Err(e) => Err(e),
                        Ok(y) => Ok(
                            BoundingBox {
                                width: width as u32,
                                height: height as u32,
                                x: x as i32,
                                y: y as i32,
                            },
                        ),
                    },
                },
            },
        },
    }
}

/// An argument that is one count.
pub open spec fn count_in(
    rest: Option<Seq<char>>,
    id: Seq<char>,
    line: Seq<char>,
    number: nat,
) -> Result<usize, ErrorView> {
    match rest {
        None => Err(missing_value(id, number)),
        Some(r) => match number_in(r, 0, usize::MAX as int, line, number) {
            Err(e) => Err(e),
            Ok(n) => Ok(n as usize),
        },
    }
}

/// An argument that is taken as it stands.
pub open spec fn text_in(rest: Option<Seq<char>>, id: Seq<char>, number: nat) -> Result<
    Seq<char>,
    ErrorView,
> {
    match rest {
        None => Err(missing_value(id, number)),
        Some(r) => Ok(r),
    }
}

/// Whether `v` is a Unicode scalar value: a code point that is no surrogate.
pub open spec fn is_scalar_value(v: int) -> bool {
    0 <= v <= 0xD7FF || 0xE000 <= v <= 0x10FFFF
}

/// The argument of `ENCODING`: a code point that is a Unicode scalar value.
pub open spec fn codepoint_in(
    rest: Option<Seq<char>>,
    id: Seq<char>,
    line: Seq<char>,
    number: nat,
) -> Result<char, ErrorView> {
    match rest {
        None => Err(missing_value(id, number)),
        Some(r) => match number_in(r, 0, u32::MAX as int, line, number) {
            Err(e) => Err(e),
            Ok(v) => if is_scalar_value(v) {
                Ok(v as char)
            } else {
                Err(ErrorView::InvalidCodepoint { line_number: number, line })
            },
        },
    }
}

/// The argument of `METRICSSET`: `0`, `1` or `2`.
pub open spec fn direction_in(rest: Option<Seq<char>>, id: Seq<char>, number: nat) -> Result<
    Direction,
    ErrorView,
> {
    match rest {
        None => Err(missing_value(id, number)),
        Some(r) => if r == "0"@ {
            Ok(Direction::Default)
        } else if r == "1"@ {
            Ok(Direction::Alternate)
        } else if r == "2"@ {
            Ok(Direction::Both)
        } else {
            Err(missing_value(id, number))
        },
    }
}

/// The record that the line with the given number holds, taken by itself. A
/// line that starts a bitmap has no bounding box of its own to go by.
pub open spec fn record_of_line(line: Seq<char>, number: nat) -> Result<EntryView, ErrorView> {
    let (id, rest) = tokens(line);
    match keyword_named(id) {
        Some(Keyword::Comment) => Ok(
            EntryView::Comment(
                match rest {
                    Some(r) => extract_text(r),
                    None => Seq::empty(),
                },
            ),
        ),
        Some(Keyword::StartFont) => match rest {
            Some(r) => Ok(EntryView::StartFont(r)),
            None => Err(ErrorView::MissingVersion { line_number: number, line }),
        },
        Some(Keyword::Font) => match text_in(rest, id, number) {
            Ok(s) => Ok(EntryView::Font(s)),
            Err(e) => Err(e),
        },
        Some(Keyword::Size) => match size_in(rest, id, line, number) {
            Ok(s) => Ok(EntryView::Size(s.0, s.1, s.2)),
            Err(e) => Err(e),
        },
        Some(Keyword::FontBoundingBox) => match bounds_in(rest, id, line, number) {
            Ok(b) => Ok(EntryView::FontBoundingBox(b)),
            Err(e) => Err(e),
        },
        Some(Keyword::ContentVersion) => match text_in(rest, id, number) {
            Ok(s) => Ok(EntryView::ContentVersion(s)),
            Err(e) => Err(e),
        },
        Some(Keyword::Chars) => match count_in(rest, id, line, number) {
            Ok(n) => Ok(EntryView::Chars(n)),
            Err(e) => Err(e),
        },
        Some(Keyword::StartChar) => match text_in(rest, id, number) {
            Ok(s) => Ok(EntryView::StartChar(s)),
            Err(e) => Err(e),
        },
        Some(Keyword::Encoding) => match codepoint_in(rest, id, line, number) {
            Ok(c) => Ok(EntryView::Encoding(c)),
            Err(e) => Err(e),
        },
        Some(Keyword::MetricsSet) => match direction_in(rest, id, number) {
            Ok(d) => Ok(EntryView::Direction(d)),
            Err(e) => Err(e),
        },
        Some(Keyword::ScalableWidth) => match pair_in(rest, id, line, number) {
            Ok(p) => Ok(EntryView::ScalableWidth(p.0, p.1)),
            Err(e) => Err(e),
        },
        Some(Keyword::DeviceWidth) => match pair_in(rest, id, line, number) {
            Ok(p) => Ok(EntryView::DeviceWidth(p.0, p.1)),
            Err(e) => Err(e),
        },
        Some(Keyword::AlternateScalableWidth) => match pair_in(rest, id, line, number) {
            Ok(p) => Ok(EntryView::AlternateScalableWidth(p.0, p.1)),
            Err(e) => Err(e),
        },
        Some(Keyword::AlternateDeviceWidth) => match pair_in(rest, id, line, number) {
            Ok(p) => Ok(EntryView::AlternateDeviceWidth(p.0, p.1)),
            Err(e) => Err(e),
        },
        Some(Keyword::Vector) => match pair_in(rest, id, line, number) {
            Ok(p) => Ok(EntryView::Vector(p.0, p.1)),
            Err(e) => Err(e),
        },
        Some(Keyword::BoundingBox) => match bounds_in(rest, id, line, number) {
            Ok(b) => Ok(EntryView::BoundingBox(b)),
            Err(e) => Err(e),
        },
        Some(Keyword::Bitmap) => Err(ErrorView::MissingBoundingBox { line_number: number, line }),
        Some(Keyword::EndChar) => Ok(EntryView::EndChar),
        Some(Keyword::EndFont) => Ok(EntryView::EndFont),
        Some(Keyword::StartProperties) => match count_in(rest, id, line, number) {
            Ok(n) => Ok(EntryView::StartProperties(n)),
            Err(e) => Err(e),
        },
        Some(Keyword::EndProperties) => Ok(EntryView::EndProperties),
        None => match rest {
            Some(r) => Ok(EntryView::Property(id, parse_property(r))),
            None => Ok(EntryView::Unknown(id)),
        },
    }
}

/// No line is a bitmap by itself.
pub proof fn lemma_record_is_no_bitmap(line: Seq<char>, number: nat)
    ensures
        !(record_of_line(line, number) matches Ok(EntryView::Bitmap(_))),
{
}

/// What a record or an error holds.
pub open spec fn record_view(r: Result<Entry, Error>) -> Result<EntryView, ErrorView> {
    match r {
        Ok(entry) => Ok(entry@),
        Err(error) => Err(error@),
    }
}

/// The length of a keyword, and three of its characters by which keywords
/// of one length differ.
spec fn marks(k: Keyword) -> (nat, char, char, char) {
    match k {
        Keyword::Comment => (7, 'C', 'M', 'N'),
        Keyword::StartFont => (9, 'S', 'R', 'F'),
        Keyword::Font => (4, 'F', 'T', ' '),
        Keyword::Size => (4, 'S', 'E', ' '),
        Keyword::FontBoundingBox => (15, 'F', 'T', 'O'),
        Keyword::ContentVersion => (14, 'C', 'T', 'N'),
        Keyword::Chars => (5, 'C', 'R', ' '),
        Keyword::StartChar => (9, 'S', 'R', 'C'),
        Keyword::Encoding => (8, 'E', 'O', 'I'),
        Keyword::MetricsSet => (10, 'M', 'R', 'C'),
        Keyword::ScalableWidth => (6, 'S', 'D', 'H'),
        Keyword::DeviceWidth => (6, 'D', 'D', 'H'),
        Keyword::AlternateScalableWidth => (7, 'S', 'D', 'H'),
        Keyword::AlternateDeviceWidth => (7, 'D', 'D', 'H'),
        Keyword::Vector => (7, 'V', 'C', 'O'),
        Keyword::BoundingBox => (3, 'B', ' ', ' '),
        Keyword::Bitmap => (6, 'B', 'M', 'P'),
        Keyword::EndChar => (7, 'E', 'C', 'A'),
        Keyword::EndFont => (7, 'E', 'F', 'N'),
        Keyword::StartProperties => (15, 'S', 'R', 'P'),
        Keyword::EndProperties => (13, 'E', 'P', 'O'),
    }
}

/// Whether `s` has the length `m.0` and, as far as it reaches, the characters
/// `m.1`, `m.2` and `m.3` in its places 0, 3 and 5.
spec fn marked(s: Seq<char>, m: (nat, char, char, char)) -> bool {
    &&& s.len() == m.0
    &&& s[0] == m.1
    &&& s.len() > 3 ==> s[3] == m.2
    &&& s.len() > 5 ==> s[5] == m.3
}

/// Whether `c` is a capital letter or a digit.
pub open spec fn is_keyword_char(c: char) -> bool {
    ('A' <= c && c <= 'Z') || ('0' <= c && c <= '9')
}

/// Every keyword has its marks, and is made of at least three capital
/// letters and digits.
proof fn lemma_keyword_marks(k: Keyword)
    ensures
        marked(k.text(), marks(k)),
        k.text().len() >= 3,
        forall|i: int| 0 <= i < k.text().len() ==> is_keyword_char(#[trigger] k.text()[i]),
{
    reveal_strlit("COMMENT");
    reveal_strlit("STARTFONT");
    reveal_strlit("FONT");
    reveal_strlit("SIZE");
    reveal_strlit("FONTBOUNDINGBOX");
    reveal_strlit("CONTENTVERSION");
    reveal_strlit("CHARS");
    reveal_strlit("STARTCHAR");
    reveal_strlit("ENCODING");
    reveal_strlit("METRICSSET");
    reveal_strlit("SWIDTH");
    reveal_strlit("DWIDTH");
    reveal_strlit("SWIDTH1");
    reveal_strlit("DWIDTH1");
    reveal_strlit("VVECTOR");
    reveal_strlit("BBX");
    reveal_strlit("BITMAP");
    reveal_strlit("ENDCHAR");
    reveal_strlit("ENDFONT");
    reveal_strlit("STARTPROPERTIES");
    reveal_strlit("ENDPROPERTIES");
}

/// No two keywords are written alike.
pub proof fn lemma_keywords_differ(a: Keyword, b: Keyword)
    requires
        a.text() == b.text(),
    ensures
        a == b,
{
    lemma_keyword_marks(a);
    lemma_keyword_marks(b);
}

/// A keyword is made of at least three capital letters and digits.
pub proof fn lemma_keyword_chars(k: Keyword)
    ensures
        k.text().len() >= 3,
        forall|i: int| 0 <= i < k.text().len() ==> is_keyword_char(#[trigger] k.text()[i]),
{
    lemma_keyword_marks(k);
}

/// A keyword names itself.
pub proof fn lemma_keyword_named(k: Keyword)
    ensures
        keyword_named(k.text()) == Some(k),
{
    let found = choose|other: Keyword| other.text() == k.text();
    lemma_keywords_differ(found, k);
}

/// The keyword that `id` is, where it is one.
pub fn keyword_of(id: &[char]) -> (k: Option<Keyword>)
    ensures
        k == keyword_named(id@),
{
    let k = if chars_equal(id, "COMMENT") {
        Some(Keyword::Comment)
    } else if chars_equal(id, "STARTFONT") {
        Some(Keyword::StartFont)
    } else if chars_equal(id, "FONT") {
        Some(Keyword::Font)
    } else if chars_equal(id, "SIZE") {
        Some(Keyword::Size)
    } else if chars_equal(id, "FONTBOUNDINGBOX") {
        Some(Keyword::FontBoundingBox)
    } else if chars_equal(id, "CONTENTVERSION") {
        Some(Keyword::ContentVersion)
    } else if chars_equal(id, "CHARS") {
        Some(Keyword::Chars)
    } else if chars_equal(id, "STARTCHAR") {
        Some(Keyword::StartChar)
    } else if chars_equal(id, "ENCODING") {
        Some(Keyword::Encoding)
    } else if chars_equal(id, "METRICSSET") {
        Some(Keyword::MetricsSet)
    } else if chars_equal(id, "SWIDTH") {
        Some(Keyword::ScalableWidth)
    } else if chars_equal(id, "DWIDTH") {
        Some(Keyword::DeviceWidth)
    } else if chars_equal(id, "SWIDTH1") {
        Some(Keyword::AlternateScalableWidth)
    } else if chars_equal(id, "DWIDTH1") {
        Some(Keyword::AlternateDeviceWidth)
    } else if chars_equal(id, "VVECTOR") {
        Some(Keyword::Vector)
    } else if chars_equal(id, "BBX") {
        Some(Keyword::BoundingBox)
    } else if chars_equal(id, "BITMAP") {
        Some(Keyword::Bitmap)
    } else if chars_equal(id, "ENDCHAR") {
        Some(Keyword::EndChar)
    } else if chars_equal(id, "ENDFONT") {
        Some(Keyword::EndFont)
    } else if chars_equal(id, "STARTPROPERTIES") {
        Some(Keyword::StartProperties)
    } else if chars_equal(id, "ENDPROPERTIES") {
        Some(Keyword::EndProperties)
    } else {
        None
    };
    proof {
        match k {
            Some(found) => {
                assert(found.text() == id@);
                lemma_keywords_differ(choose|other: Keyword| other.text() == id@, found);
            },
            None => {
                assert forall|other: Keyword| other.text() != id@ by {
                    match other {
                        Keyword::Comment => {},
                        _ => {},
                    }
                }
            },
        }
    }
    k
}

/// Splits a line into its keyword and its argument.
pub fn tokenize(line: &[char]) -> (parts: (&[char], Option<&[char]>))
    ensures
        parts.0@ == tokens(line@).0,
        match parts.1 {
            Some(rest) => tokens(line@).1 == Some(rest@),
            None => tokens(line@).1 is None,
        },
{
    let n: usize = find_char(line, ' ');
    if n < line.len() {
        let id = slice_subrange(line, 0, n);
        let rest = trim_chars(slice_subrange(line, n, line.len()));
        (id, Some(rest))
    } else {
        (trim_chars(line), None)
    }
}

/// The error for a keyword without its argument.
fn missing(id: &[char], number: usize) -> (e: Error)
    ensures
        e@ == missing_value(id@, number as nat),
{
    Error::MissingValue { property_name: string_of(id), line_number: number }
}

/// Reads the field `s` as an integer in `min..=max`.
fn parse_number(s: &[char], min: i128, max: i128, line: &[char], number: usize) -> (r: Result<
    i128,
    Error,
>)
    requires
        -0x1_0000_0000_0000_0000 <= min <= 0 <= max <= 0x1_0000_0000_0000_0000,
    ensures
        match r {
            Ok(v) => min <= v <= max && number_in(
                s@,
                min as int,
                max as int,
                line@,
                number as nat,
            ) == Ok::<int, ErrorView>(v as int),
            Err(e) => number_in(s@, min as int, max as int, line@, number as nat) == Err::<
                int,
                ErrorView,
            >(e@),
        },
{
    match parse_integer(s, 10, min, max) {
        Ok(v) => Ok(v),
        Err(error) => Err(Error::Parse { error, line_number: number, line: string_of(line) }),
    }
}

/// Splits an argument that must be there into its `count` fields.
fn split_fields<'a>(rest: Option<&'a [char]>, count: usize, id: &[char], number: usize) -> (r:
    Result<Vec<&'a [char]>, Error>)
    ensures
        match r {
            Ok(f) => f.len() == count && fields_in(
                rest_view(rest),
                count as nat,
                id@,
                number as nat,
            ) == Ok::<Seq<Seq<char>>, ErrorView>(f@.map_values(|p: &[char]| p@)),
            Err(e) => fields_in(
                rest_view(rest),
                count as nat,
                id@,
                number as nat,
            ) == Err::<Seq<Seq<char>>, ErrorView>(e@),
        },
{
    match rest {
        None => Err(missing(id, number)),
        Some(t) => {
            let f = split_chars(t, ' ');
            if f.len() == count {
                Ok(f)
            } else {
                Err(missing(id, number))
            }
        },
    }
}

/// The argument of a line as a view.
pub open spec fn rest_view(rest: Option<&[char]>) -> Option<Seq<char>> {
    match rest {
        Some(t) => Some(t@),
        None => None,
    }
}

/// Reads an argument of two unsigned 32-bit integers.
fn decode_pair(rest: Option<&[char]>, id: &[char], line: &[char], number: usize) -> (r: Result<
    (u32, u32),
    Error,
>)
    ensures
        match r {
            Ok(p) => pair_in(rest_view(rest), id@, line@, number as nat) == Ok::<
                (u32, u32),
                ErrorView,
            >(p),
            Err(e) => pair_in(rest_view(rest), id@, line@, number as nat) == Err::<
                (u32, u32),
                ErrorView,
            >(e@),
        },
{
    let f = match split_fields(rest, 2, id, number) {
        Ok(f) => f,
        Err(e) => {
            return Err(e);
        },
    };
    let x = match parse_number(f[0], 0, u32::MAX as i128, line, number) {
        Ok(v) => v as u32,
        Err(e) => {
            return Err(e);
        },
    };
    let y = match parse_number(f[1], 0, u32::MAX as i128, line, number) {
        Ok(v) => v as u32,
        Err(e) => {
            return Err(e);
        },
    };
    Ok((x, y))
}

/// Reads an argument of three unsigned 16-bit integers.
fn decode_size(rest: Option<&[char]>, id: &[char], line: &[char], number: usize) -> (r: Result<
    (u16, u16, u16),
    Error,
>)
    ensures
        match r {
            Ok(p) => size_in(rest_view(rest), id@, line@, number as nat) == Ok::<
                (u16, u16, u16),
                ErrorView,
            >(p),
            Err(e) => size_in(rest_view(rest), id@, line@, number as nat) == Err::<
                (u16, u16, u16),
                ErrorView,
            >(e@),
        },
{
    let f = match split_fields(rest, 3, id, number) {
        Ok(f) => f,
        Err(e) => {
            return Err(e);
        },
    };
    let pt = match parse_number(f[0], 0, u16::MAX as i128, line, number) {
        Ok(v) => v as u16,
        Err(e) => {
            return Err(e);
        },
    };
    let x = match parse_number(f[1], 0, u16::MAX as i128, line, number) {
        Ok(v) => v as u16,
        Err(e) => {
            return Err(e);
        },
    };
    let y = match parse_number(f[2], 0, u16::MAX as i128, line, number) {
        Ok(v) => v as u16,
        Err(e) => {
            return Err(e);
        },
    };
    Ok((pt, x, y))
}

/// Reads an argument of a width, a height and two signed offsets.
fn decode_bounds(rest: Option<&[char]>, id: &[char], line: &[char], number: usize) -> (r: Result<
    BoundingBox,
    Error,
>)
    ensures
        match r {
            Ok(b) => bounds_in(rest_view(rest), id@, line@, number as nat) == Ok::<
                BoundingBox,
                ErrorView,
            >(b),
            Err(e) => bounds_in(rest_view(rest), id@, line@, number as nat) == Err::<
                BoundingBox,
                ErrorView,
            >(e@),
        },
{
    let f = match split_fields(rest, 4, id, number) {
        Ok(f) => f,
        Err(e) => {
            return Err(e);
        },
    };
    let width = match parse_number(f[0], 0, u32::MAX as i128, line, number) {
        Ok(v) => v as u32,
        Err(e) => {
            return Err(e);
        },
    };
    let height = match parse_number(f[1], 0, u32::MAX as i128, line, number) {
        Ok(v) => v as u32,
        Err(e) => {
            return Err(e);
        },
    };
    let x = match parse_number(f[2], i32::MIN as i128, i32::MAX as i128, line, number) {
        Ok(v) => v as i32,
        Err(e) => {
            return Err(e);
        },
    };
    let y = match parse_number(f[3], i32::MIN as i128, i32::MAX as i128, line, number) {
        Ok(v) => v as i32,
        Err(e) => {
            return Err(e);
        },
    };
    Ok(BoundingBox { width, height, x, y })
}

/// Reads an argument that is one count.
fn decode_count(rest: Option<&[char]>, id: &[char], line: &[char], number: usize) -> (r: Result<
    usize,
    Error,
>)
    ensures
        match r {
            Ok(n) => count_in(rest_view(rest), id@, line@, number as nat) == Ok::<usize, ErrorView>(
                n,
            ),
            Err(e) => count_in(rest_view(rest), id@, line@, number as nat) == Err::<
                usize,
                ErrorView,
            >(e@),
        },
{
    match rest {
        None => Err(missing(id, number)),
        Some(t) => match parse_number(t, 0, usize::MAX as i128, line, number) {
            Ok(v) => Ok(v as usize),
            Err(e) => Err(e),
        },
    }
}

/// Takes an argument as it stands.
fn decode_text(rest: Option<&[char]>, id: &[char], number: usize) -> (r: Result<String, Error>)
    ensures
        match r {
            Ok(s) => text_in(rest_view(rest), id@, number as nat) == Ok::<Seq<char>, ErrorView>(
                s@,
            ),
            Err(e) => text_in(rest_view(rest), id@, number as nat) == Err::<Seq<char>, ErrorView>(
                e@,
            ),
        },
{
    match rest {
        None => Err(missing(id, number)),
        Some(t) => Ok(string_of(t)),
    }
}

/// `char::from_u32`: the character with the code point `v`, or nothing where
/// `v` is no Unicode scalar value.
#[verifier::external_body]
fn char_from_u32(v: u32) -> (c: Option<char>)
    ensures
        c == (if is_scalar_value(v as int) {
            Some(v as char)
        } else {
            None
        }),
{
    char::from_u32(v)
}

/// Reads the argument of `ENCODING`.
fn decode_codepoint(rest: Option<&[char]>, id: &[char], line: &[char], number: usize) -> (r:
    Result<char, Error>)
    ensures
        match r {
            Ok(c) => codepoint_in(rest_view(rest), id@, line@, number as nat) == Ok::<
                char,
                ErrorView,
            >(c),
            Err(e) => codepoint_in(rest_view(rest), id@, line@, number as nat) == Err::<
                char,
                ErrorView,
            >(e@),
        },
{
    match rest {
        None => Err(missing(id, number)),
        Some(t) => match parse_number(t, 0, u32::MAX as i128, line, number) {
            Err(e) => Err(e),
            Ok(v) => match char_from_u32(v as u32) {
                Some(c) => Ok(c),
                None => Err(Error::InvalidCodepoint { line_number: number, line: string_of(line) }),
            },
        },
    }
}

/// Reads the argument of `METRICSSET`.
fn decode_direction(rest: Option<&[char]>, id: &[char], number: usize) -> (r: Result<
    Direction,
    Error,
>)
    ensures
        match r {
            Ok(d) => direction_in(rest_view(rest), id@, number as nat) == Ok::<
                Direction,
                ErrorView,
            >(d),
            Err(e) => direction_in(rest_view(rest), id@, number as nat) == Err::<
                Direction,
                ErrorView,
            >(e@),
        },
{
    match rest {
        None => Err(missing(id, number)),
        Some(t) => if chars_equal(t, "0") {
            Ok(Direction::Default)
        } else if chars_equal(t, "1") {
            Ok(Direction::Alternate)
        } else if chars_equal(t, "2") {
            Ok(Direction::Both)
        } else {
            Err(missing(id, number))
        },
    }
}

/// Reads the record that a line holds, taken by itself.
pub fn decode_line(line: &[char], number: usize) -> (r: Result<Entry, Error>)
    ensures
        record_view(r) == record_of_line(line@, number as nat),
{
    let (id, rest) = tokenize(line);
    assert(rest_view(rest) == tokens(line@).1);
    match keyword_of(id) {
        Some(Keyword::Comment) => match rest {
            Some(t) => Ok(Entry::Comment(extract_chars(t))),
            None => Ok(Entry::Comment(String::new())),
        },
        Some(Keyword::StartFont) => match rest {
            Some(t) => Ok(Entry::StartFont(string_of(t))),
            None => Err(Error::MissingVersion { line_number: number, line: string_of(line) }),
        },
        Some(Keyword::Font) => match decode_text(rest, id, number) {
            Ok(s) => Ok(Entry::Font(s)),
            Err(e) => Err(e),
        },
        Some(Keyword::Size) => match decode_size(rest, id, line, number) {
            Ok(s) => Ok(Entry::Size(s.0, s.1, s.2)),
            Err(e) => Err(e),
        },
        Some(Keyword::FontBoundingBox) => match decode_bounds(rest, id, line, number) {
            Ok(b) => Ok(Entry::FontBoundingBox(b)),
            Err(e) => Err(e),
        },
        Some(Keyword::ContentVersion) => match decode_text(rest, id, number) {
            Ok(s) => Ok(Entry::ContentVersion(s)),
            Err(e) => Err(e),
        },
        Some(Keyword::Chars) => match decode_count(rest, id, line, number) {
            Ok(n) => Ok(Entry::Chars(n)),
            Err(e) => Err(e),
        },
        Some(Keyword::StartChar) => match decode_text(rest, id, number) {
            Ok(s) => Ok(Entry::StartChar(s)),
            Err(e) => Err(e),
        },
        Some(Keyword::Encoding) => match decode_codepoint(rest, id, line, number) {
            Ok(c) => Ok(Entry::Encoding(c)),
            Err(e) => Err(e),
        },
        Some(Keyword::MetricsSet) => match decode_direction(rest, id, number) {
            Ok(d) => Ok(Entry::Direction(d)),
            Err(e) => Err(e),
        },
        Some(Keyword::ScalableWidth) => match decode_pair(rest, id, line, number) {
            Ok(p) => Ok(Entry::ScalableWidth(p.0, p.1)),
            Err(e) => Err(e),
        },
        Some(Keyword::DeviceWidth) => match decode_pair(rest, id, line, number) {
            Ok(p) => Ok(Entry::DeviceWidth(p.0, p.1)),
            Err(e) => Err(e),
        },
        Some(Keyword::AlternateScalableWidth) => match decode_pair(rest, id, line, number) {
            Ok(p) => Ok(Entry::AlternateScalableWidth(p.0, p.1)),
            Err(e) => Err(e),
        },
        Some(Keyword::AlternateDeviceWidth) => match decode_pair(rest, id, line, number) {
            Ok(p) => Ok(Entry::AlternateDeviceWidth(p.0, p.1)),
            Err(e) => Err(e),
        },
        Some(Keyword::Vector) => match decode_pair(rest, id, line, number) {
            Ok(p) => Ok(Entry::Vector(p.0, p.1)),
            Err(e) => Err(e),
        },
        Some(Keyword::BoundingBox) => match decode_bounds(rest, id, line, number) {
            Ok(b) => Ok(Entry::BoundingBox(b)),
            Err(e) => Err(e),
        },
        Some(Keyword::Bitmap) => Err(
            Error::MissingBoundingBox { line_number: number, line: string_of(line) },
        ),
        Some(Keyword::EndChar) => Ok(Entry::EndChar),
        Some(Keyword::EndFont) => Ok(Entry::EndFont),
        Some(Keyword::StartProperties) => match decode_count(rest, id, line, number) {
            Ok(n) => Ok(Entry::StartProperties(n)),
            Err(e) => Err(e),
        },
        Some(Keyword::EndProperties) => Ok(Entry::EndProperties),
        None => match rest {
            Some(t) => Ok(Entry::Property(string_of(id), parse_chars(t))),
            None => Ok(Entry::Unknown(string_of(id))),
        },
    }
}

} // verus!
