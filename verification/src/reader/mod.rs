//! Reading a font: from text to records, and from records to a font.

pub mod line;
pub mod reader;

pub use self::reader::Reader;

use crate::entry::{Entry, EntryView};
use crate::error::{Error, ErrorView};
use crate::font::{Font, FontView, Size};
use crate::glyph::{Glyph, GlyphView};
use crate::reader::reader::{lemma_next_record_moves, next_record, ReaderState};
use crate::table::put;
use crate::text::{lines, split_lines};
use vstd::prelude::*;

verus! {

/// The font that is put together from records, and where in the file the
/// records have come to.
pub struct Assembly {
    /// The font as far as it is read.
    pub font: FontView,
    /// The glyph that is being read.
    pub glyph: GlyphView,
    /// Whether `STARTFONT` was read.
    pub in_font: bool,
    /// Whether the properties were started and not ended.
    pub in_properties: bool,
    /// Whether a character was started and not ended.
    pub in_char: bool,
}

/// What a record does to an assembly.
pub enum Step {
    /// The font is not complete; the assembly goes on.
    Next(Assembly),
    /// The font is complete.
    Done(FontView),
    /// The record may not stand where it stands.
    Fail(ErrorView),
}

impl Assembly {
    /// The assembly before the first record.
    pub open spec fn start() -> Assembly {
        Assembly {
            font: FontView::empty(),
            glyph: GlyphView::empty(),
            in_font: false,
            in_properties: false,
            in_char: false,
        }
    }

    /// What a record does before `STARTFONT`: nothing but `STARTFONT` may
    /// stand there.
    pub open spec fn outside(self, entry: EntryView) -> Step {
        match entry {
            EntryView::StartFont(format) => Step::Next(
                Assembly { font: FontView { format, ..self.font }, in_font: true, ..self },
            ),
            _ => Step::Fail(ErrorView::MalformedFont),
        }
    }

    /// What a record does among the properties.
    pub open spec fn among_properties(self, entry: EntryView) -> Step {
        match entry {
            EntryView::EndProperties => Step::Next(Assembly { in_properties: false, ..self }),
            EntryView::Property(name, value) => Step::Next(
                Assembly {
                    font: FontView {
                        properties: put(self.font.properties, name, value),
                        ..self.font
                    },
                    ..self
                },
            ),
            _ => Step::Fail(ErrorView::MalformedProperties),
        }
    }

    /// What a record does inside a character. The end of the character puts
    /// the glyph into the font under its codepoint, which it must have.
    pub open spec fn in_character(self, entry: EntryView) -> Step {
        match entry {
            EntryView::EndChar => match self.glyph.codepoint {
                Some(codepoint) => Step::Next(
                    Assembly {
                        font: FontView {
                            glyphs: put(self.font.glyphs, codepoint, self.glyph),
                            ..self.font
                        },
                        glyph: GlyphView::empty(),
                        in_char: false,
                        ..self
                    },
                ),
                None => Step::Fail(ErrorView::MalformedChar),
            },
            EntryView::Encoding(codepoint) => Step::Next(
                Assembly { glyph: GlyphView { codepoint: Some(codepoint), ..self.glyph }, ..self },
            ),
            EntryView::ScalableWidth(x, y) => Step::Next(
                Assembly {
                    glyph: GlyphView { scalable_width: Some((x, y)), ..self.glyph },
                    ..self
                },
            ),
            EntryView::DeviceWidth(x, y) => Step::Next(
                Assembly { glyph: GlyphView { device_width: Some((x, y)), ..self.glyph }, ..self },
            ),
            EntryView::BoundingBox(bounds) => Step::Next(
                Assembly { glyph: GlyphView { bounds: Some(bounds), ..self.glyph }, ..self },
            ),
            EntryView::Bitmap(map) => Step::Next(
                Assembly { glyph: GlyphView { map, ..self.glyph }, ..self },
            ),
            _ => Step::Fail(ErrorView::MalformedChar),
        }
    }

    /// What a record does in the font, outside its properties and
    /// characters.
    pub open spec fn in_header(self, entry: EntryView) -> Step {
        match entry {
            EntryView::Comment(_) => Step::Next(self),
            EntryView::ContentVersion(version) => Step::Next(
                Assembly { font: FontView { version: Some(version), ..self.font }, ..self },
            ),
            EntryView::Font(name) => Step::Next(
                Assembly { font: FontView { name: Some(name), ..self.font }, ..self },
            ),
            EntryView::Size(pt, x, y) => Step::Next(
                Assembly { font: FontView { size: Some(Size { pt, x, y }), ..self.font }, ..self },
            ),
            EntryView::Chars(_) => Step::Next(self),
            EntryView::FontBoundingBox(bounds) => Step::Next(
                Assembly { font: FontView { bounds: Some(bounds), ..self.font }, ..self },
            ),
            _ => Step::Fail(ErrorView::MalformedFont),
        }
    }

    /// What a record does to the assembly.
    ///
    /// `ENDFONT` completes the font, unless a character or the properties
    /// are open. `STARTPROPERTIES` opens the properties, unless a character
    /// is open. `STARTCHAR` names the glyph and opens the character. Any
    /// other record goes by what is open.
    pub open spec fn step(self, entry: EntryView) -> Step {
        if !self.in_font {
            self.outside(entry)
        } else if entry is EndFont {
            if self.in_char {
                Step::Fail(ErrorView::MalformedChar)
            } else if self.in_properties {
                Step::Fail(ErrorView::MalformedProperties)
            } else {
                Step::Done(self.font)
            }
        } else if entry is StartProperties {
            if self.in_char {
                Step::Fail(ErrorView::MalformedChar)
            } else {
                Step::Next(Assembly { in_properties: true, ..self })
            }
        } else if self.in_properties {
            self.among_properties(entry)
        } else if entry is StartChar {
            Step::Next(
                Assembly {
                    glyph: GlyphView { name: Some(entry->StartChar_0), ..self.glyph },
                    in_char: true,
                    ..self
                },
            )
        } else if self.in_char {
            self.in_character(entry)
        } else {
            self.in_header(entry)
        }
    }
}

/// The font that the records from the state `st` on make of the assembly
/// `a`: the records are taken one by one up to the one that completes the
/// font. The first error of the reader or of the assembly is the result;
/// the end of the input before the font is complete is the error `End`.
pub open spec fn assembled(st: ReaderState, a: Assembly) -> Result<FontView, ErrorView>
    decreases st.lines.len() - st.pos,
    via assembled_decreases
{
    let (record, next) = next_record(st);
    match record {
        Err(e) => Err(e),
        Ok(entry) => match a.step(entry) {
            Step::Done(font) => Ok(font),
            Step::Fail(e) => Err(e),
            Step::Next(b) => assembled(next, b),
        },
    }
}

/// Every record leaves fewer lines to read.
#[via_fn]
proof fn assembled_decreases(st: ReaderState, a: Assembly) {
    if st.pos <= st.lines.len() {
        lemma_next_record_moves(st);
    }
}

/// The font that a text holds.
pub open spec fn font_of(text: Seq<char>) -> Result<FontView, ErrorView> {
    assembled(ReaderState::start(lines(text)), Assembly::start())
}

/// Puts a font together from its records.
pub struct Assembler {
    font: Font,
    glyph: Glyph,
    in_font: bool,
    in_properties: bool,
    in_char: bool,
}

impl View for Assembler {
    type V = Assembly;

    closed spec fn view(&self) -> Assembly {
        Assembly {
            font: self.font@,
            glyph: self.glyph@,
            in_font: self.in_font,
            in_properties: self.in_properties,
            in_char: self.in_char,
        }
    }
}

/// What a record has done to an assembler.
pub enum Progress {
    /// The font is not complete; the assembler takes the next record.
    Next(Assembler),
    /// The font is complete.
    Done(Font),
    /// The record may not stand where it stands.
    Fail(Error),
}

impl View for Progress {
    type V = Step;

    open spec fn view(&self) -> Step {
        match self {
            Progress::Next(a) => Step::Next(a@),
            Progress::Done(font) => Step::Done(font@),
            Progress::Fail(e) => Step::Fail(e@),
        }
    }
}

impl Assembler {
    /// An assembler before the first record.
    pub fn new() -> (assembler: Assembler)
        ensures
            assembler@ == Assembly::start(),
    {
        Assembler {
            font: Font::default(),
            glyph: Glyph::empty(),
            in_font: false,
            in_properties: false,
            in_char: false,
        }
    }

    /// Takes a record among the properties.
    fn feed_property(self, entry: Entry) -> (progress: Progress)
        ensures
            progress@ == self@.among_properties(entry@),
    {
        let mut this = self;
        match entry {
            Entry::EndProperties => {
                this.in_properties = false;
                Progress::Next(this)
            },
            Entry::Property(name, value) => {
                this.font.properties_mut().insert(name, value);
                Progress::Next(this)
            },
            _ => Progress::Fail(Error::MalformedProperties),
        }
    }

    /// Takes a record inside a character.
    fn feed_character(self, entry: Entry) -> (progress: Progress)
        ensures
            progress@ == self@.in_character(entry@),
    {
        let mut this = self;
        match entry {
            Entry::EndChar => match this.glyph.try_codepoint() {
                Some(codepoint) => {
                    let mut glyph = Glyph::empty();
                    core::mem::swap(&mut this.glyph, &mut glyph);
                    this.font.glyphs_mut().insert(codepoint, glyph);
                    this.in_char = false;
                    Progress::Next(this)
                },
                None => Progress::Fail(Error::MalformedChar),
            },
            Entry::Encoding(codepoint) => {
                this.glyph.set_codepoint(codepoint);
                Progress::Next(this)
            },
            Entry::ScalableWidth(x, y) => {
                this.glyph.set_scalable_width(Some((x, y)));
                Progress::Next(this)
            },
            Entry::DeviceWidth(x, y) => {
                this.glyph.set_device_width(Some((x, y)));
                Progress::Next(this)
            },
            Entry::BoundingBox(bounds) => {
                this.glyph.set_bounds(bounds);
                Progress::Next(this)
            },
            Entry::Bitmap(map) => {
                this.glyph.set_map(map);
                Progress::Next(this)
            },
            _ => Progress::Fail(Error::MalformedChar),
        }
    }

    /// Takes a record of the font outside its properties and characters.
    fn feed_header(self, entry: Entry) -> (progress: Progress)
        ensures
            progress@ == self@.in_header(entry@),
    {
        let mut this = self;
        match entry {
            Entry::Comment(_) => Progress::Next(this),
            Entry::ContentVersion(version) => {
                this.font.set_version(Some(version.as_str()));
                Progress::Next(this)
            },
            Entry::Font(name) => {
                this.font.set_name(name.as_str());
                Progress::Next(this)
            },
            Entry::Size(pt, x, y) => {
                this.font.set_size(Size { pt, x, y });
                Progress::Next(this)
            },
            Entry::Chars(_) => Progress::Next(this),
            Entry::FontBoundingBox(bounds) => {
                this.font.set_bounds(bounds);
                Progress::Next(this)
            },
            _ => Progress::Fail(Error::MalformedFont),
        }
    }

    /// Takes the next record.
    pub fn feed(self, entry: Entry) -> (progress: Progress)
        ensures
            progress@ == self@.step(entry@),
    {
        let mut this = self;
        if !this.in_font {
            return match entry {
                Entry::StartFont(format) => {
                    this.font.set_format(format.as_str());
                    this.in_font = true;
                    Progress::Next(this)
                },
                _ => Progress::Fail(Error::MalformedFont),
            };
        }
        if let Entry::EndFont = entry {
            if this.in_char {
                return Progress::Fail(Error::MalformedChar);
            }
            if this.in_properties {
                return Progress::Fail(Error::MalformedProperties);
            }
            return Progress::Done(this.font);
        }
        if let Entry::StartProperties(_) = entry {
            if this.in_char {
                return Progress::Fail(Error::MalformedChar);
            }
            this.in_properties = true;
            return Progress::Next(this);
        }
        if this.in_properties {
            return this.feed_property(entry);
        }
        if let Entry::StartChar(name) = entry {
            this.glyph.set_name(name.as_str());
            this.in_char = true;
            return Progress::Next(this);
        }
        if this.in_char {
            return this.feed_character(entry);
        }
        this.feed_header(entry)
    }
}

/// Create a `Reader` from the text of a font.
pub fn new(text: &str) -> (reader: Reader)
    ensures
        reader@ == ReaderState::start(lines(text@)),
{
    Reader::from_lines(split_lines(text))
}

/// What a font or an error holds.
pub open spec fn font_view(r: Result<Font, Error>) -> Result<FontView, ErrorView> {
    match r {
        Ok(font) => Ok(font@),
        Err(e) => Err(e@),
    }
}

/// Read the text of a BDF file into a `Font`.
pub fn read(text: &str) -> (r: Result<Font, Error>)
    ensures
        font_view(r) == font_of(text@),
{
    let mut reader = new(text);
    let mut assembler = Assembler::new();
    loop
        invariant
            reader@.pos <= reader@.lines.len(),
            assembled(reader@, assembler@) == font_of(text@),
        decreases reader@.lines.len() - reader@.pos,
    {
        proof {
            lemma_next_record_moves(reader@);
        }
        let entry = match reader.entry() {
            Ok(entry) => entry,
            Err(e) => {
                return Err(e);
            },
        };
        match assembler.feed(entry) {
            Progress::Next(next) => {
                assembler = next;
            },
            Progress::Done(font) => {
                return Ok(font);
            },
            Progress::Fail(e) => {
                return Err(e);
            },
        }
    }
}

} // verus!
