//! The records of a font file.

use crate::bitmap::{Bitmap, BitmapView};
use crate::bounding_box::BoundingBox;
use crate::direction::Direction;
use crate::property::{Property, PropertyView};
use vstd::prelude::*;

verus! {

/// The possible entries in BDF.
#[derive(PartialEq, Eq, Debug)]
pub enum Entry {
    /// `STARTFONT` marks the beginning of the font declaration and contains
    /// the BDF version.
    StartFont(String),
    /// `COMMENT` contains the comment body.
    Comment(String),
    /// `CONTENTVERSION` contains the font version.
    ContentVersion(String),
    /// `FONT` contains the font name.
    Font(String),
    /// `SIZE` contains the pt size, X-axis DPI and Y-axis DPI.
    Size(u16, u16, u16),
    /// `CHARS` contains the number of characters stored.
    Chars(usize),
    /// `FONTBOUNDINGBOX` contains the default bounding box.
    FontBoundingBox(BoundingBox),
    /// `ENDFONT` marks the end of the font declaration.
    EndFont,
    /// `STARTPROPERTIES` marks the beginning of the property declarations and
    /// contains the number of properties.
    StartProperties(usize),
    /// Contains the name and value of a property.
    Property(String, Property),
    /// `ENDPROPERTIES` marks the end of the property declarations.
    EndProperties,
    /// `STARTCHAR` marks the beginning of the character declaration and contains
    /// the name of the character.
    StartChar(String),
    /// `ENCODING` contains the codepoint for the glyph.
    Encoding(char),
    /// `METRICSSET` contains the direction for the glyph.
    Direction(Direction),
    /// `SWIDTH` contains the scalable width (x, y) of the glyph.
    ScalableWidth(u32, u32),
    /// `DWIDTH` contains the device width (x, y) of the glyph.
    DeviceWidth(u32, u32),
    /// `SWIDTH1` contains the alternate scalable width (x, y) of the glyph.
    AlternateScalableWidth(u32, u32),
    /// `DWIDTH1` contains the alternate device width (x, y) of the glyph.
    AlternateDeviceWidth(u32, u32),
    /// `VVECTOR` contains the vector offset for the glyph.
    Vector(u32, u32),
    /// `BBX` contains the bounds for the glyph.
    BoundingBox(BoundingBox),
    /// `BITMAP` contains the bits of the glyph.
    Bitmap(Bitmap),
    /// `ENDCHAR` marks the end of the character declaration.
    EndChar,
    /// Contains the unknown id.
    Unknown(String),
}

/// What an `Entry` holds: the same records, with strings as sequences of
/// characters and the bitmap as its size and its lit pixels.
pub enum EntryView {
    /// The version of the format.
    StartFont(Seq<char>),
    /// The body of a comment.
    Comment(Seq<char>),
    /// The version of the font.
    ContentVersion(Seq<char>),
    /// The name of the font.
    Font(Seq<char>),
    /// The point size and the resolutions.
    Size(u16, u16, u16),
    /// The number of characters.
    Chars(usize),
    /// The bounding box of the font.
    FontBoundingBox(BoundingBox),
    /// The end of the font.
    EndFont,
    /// The number of properties.
    StartProperties(usize),
    /// The name and the value of a property.
    Property(Seq<char>, PropertyView),
    /// The end of the properties.
    EndProperties,
    /// The name of a character.
    StartChar(Seq<char>),
    /// The codepoint of a glyph.
    Encoding(char),
    /// The direction of a glyph.
    Direction(Direction),
    /// The scalable width of a glyph.
    ScalableWidth(u32, u32),
    /// The device width of a glyph.
    DeviceWidth(u32, u32),
    /// The alternate scalable width of a glyph.
    AlternateScalableWidth(u32, u32),
    /// The alternate device width of a glyph.
    AlternateDeviceWidth(u32, u32),
    /// The offset vector of a glyph.
    Vector(u32, u32),
    /// The bounding box of a glyph.
    BoundingBox(BoundingBox),
    /// The bitmap of a glyph.
    Bitmap(BitmapView),
    /// The end of a character.
    EndChar,
    /// The keyword of a line that is not known.
    Unknown(Seq<char>),
}

impl View for Entry {
    type V = EntryView;

    open spec fn view(&self) -> EntryView {
        match self {
            Entry::StartFont(s) => EntryView::StartFont(s@),
            Entry::Comment(s) => EntryView::Comment(s@),
            Entry::ContentVersion(s) => EntryView::ContentVersion(s@),
            Entry::Font(s) => EntryView::Font(s@),
            Entry::Size(pt, x, y) => EntryView::Size(*pt, *x, *y),
            Entry::Chars(n) => EntryView::Chars(*n),
            Entry::FontBoundingBox(b) => EntryView::FontBoundingBox(*b),
            Entry::EndFont => EntryView::EndFont,
            Entry::StartProperties(n) => EntryView::StartProperties(*n),
            Entry::Property(name, value) => EntryView::Property(name@, value@),
            Entry::EndProperties => EntryView::EndProperties,
            Entry::StartChar(s) => EntryView::StartChar(s@),
            Entry::Encoding(c) => EntryView::Encoding(*c),
            Entry::Direction(d) => EntryView::Direction(*d),
            Entry::ScalableWidth(x, y) => EntryView::ScalableWidth(*x, *y),
            Entry::DeviceWidth(x, y) => EntryView::DeviceWidth(*x, *y),
            Entry::AlternateScalableWidth(x, y) => EntryView::AlternateScalableWidth(*x, *y),
            Entry::AlternateDeviceWidth(x, y) => EntryView::AlternateDeviceWidth(*x, *y),
            Entry::Vector(x, y) => EntryView::Vector(*x, *y),
            Entry::BoundingBox(b) => EntryView::BoundingBox(*b),
            Entry::Bitmap(map) => EntryView::Bitmap(map@),
            Entry::EndChar => EntryView::EndChar,
            Entry::Unknown(s) => EntryView::Unknown(s@),
        }
    }
}

impl Clone for Entry {
    fn clone(&self) -> (entry: Self)
        ensures
            entry@ == self@,
    {
        match self {
            Entry::StartFont(s) => Entry::StartFont(s.clone()),
            Entry::Comment(s) => Entry::Comment(s.clone()),
            Entry::ContentVersion(s) => Entry::ContentVersion(s.clone()),
            Entry::Font(s) => Entry::Font(s.clone()),
            Entry::Size(pt, x, y) => Entry::Size(*pt, *x, *y),
            Entry::Chars(n) => Entry::Chars(*n),
            Entry::FontBoundingBox(b) => Entry::FontBoundingBox(*b),
            Entry::EndFont => Entry::EndFont,
            Entry::StartProperties(n) => Entry::StartProperties(*n),
            Entry::Property(name, value) => Entry::Property(name.clone(), value.clone()),
            Entry::EndProperties => Entry::EndProperties,
            Entry::StartChar(s) => Entry::StartChar(s.clone()),
            Entry::Encoding(c) => Entry::Encoding(*c),
            Entry::Direction(d) => Entry::Direction(*d),
            Entry::ScalableWidth(x, y) => Entry::ScalableWidth(*x, *y),
            Entry::DeviceWidth(x, y) => Entry::DeviceWidth(*x, *y),
            Entry::AlternateScalableWidth(x, y) => Entry::AlternateScalableWidth(*x, *y),
            Entry::AlternateDeviceWidth(x, y) => Entry::AlternateDeviceWidth(*x, *y),
            Entry::Vector(x, y) => Entry::Vector(*x, *y),
            Entry::BoundingBox(b) => Entry::BoundingBox(*b),
            Entry::Bitmap(map) => Entry::Bitmap(map.clone()),
            Entry::EndChar => Entry::EndChar,
            Entry::Unknown(s) => Entry::Unknown(s.clone()),
        }
    }
}

} // verus!
