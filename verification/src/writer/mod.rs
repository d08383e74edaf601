//! Writing a font: from a font to records, and from records to text.

pub mod writer;

pub use self::writer::Writer;

use crate::direction::Direction;
use crate::entry::{Entry, EntryView};
use crate::error::{Error, ErrorView};
use crate::font::{Font, FontView};
use crate::glyph::{Glyph, GlyphView};
use crate::property::PropertyView;
use crate::table::{Glyphs, Properties};
use crate::writer::writer::text_of;
use vstd::prelude::*;

verus! {

/// The record that may be there, as a list of one record or of none.
pub open spec fn optional(entry: Option<EntryView>) -> Seq<EntryView> {
    match entry {
        Some(e) => seq![e],
        None => Seq::empty(),
    }
}

/// The records of the metrics of a font or a glyph: its direction unless it
/// is the default one, and each pair of metrics that it has.
pub open spec fn metrics_entries(
    direction: Direction,
    scalable_width: Option<(u32, u32)>,
    device_width: Option<(u32, u32)>,
    alternate_scalable_width: Option<(u32, u32)>,
    alternate_device_width: Option<(u32, u32)>,
    vector: Option<(u32, u32)>,
) -> Seq<EntryView> {
    optional(
        if direction != Direction::Default {
            Some(EntryView::Direction(direction))
        } else {
            None
        },
    ) + optional(
        match scalable_width {
            Some((x, y)) => Some(EntryView::ScalableWidth(x, y)),
            None => None,
        },
    ) + optional(
        match device_width {
            Some((x, y)) => Some(EntryView::DeviceWidth(x, y)),
            None => None,
        },
    ) + optional(
        match alternate_scalable_width {
            Some((x, y)) => Some(EntryView::AlternateScalableWidth(x, y)),
            None => None,
        },
    ) + optional(
        match alternate_device_width {
            Some((x, y)) => Some(EntryView::AlternateDeviceWidth(x, y)),
            None => None,
        },
    ) + optional(
        match vector {
            Some((x, y)) => Some(EntryView::Vector(x, y)),
            None => None,
        },
    )
}

/// The records of the first `n` properties.
pub open spec fn property_entries(properties: Seq<(Seq<char>, PropertyView)>, n: nat) -> Seq<
    EntryView,
>
    decreases n,
{
    if n == 0 || n > properties.len() {
        Seq::empty()
    } else {
        property_entries(properties, (n - 1) as nat).push(
            EntryView::Property(properties[n - 1].0, properties[n - 1].1),
        )
    }
}

/// The records of the properties of a font: none where it has no property,
/// else the properties between their start and their end.
pub open spec fn properties_entries(properties: Seq<(Seq<char>, PropertyView)>) -> Seq<EntryView> {
    if properties.len() == 0 {
        Seq::empty()
    } else {
        seq![EntryView::StartProperties(properties.len() as usize)] + property_entries(
            properties,
            properties.len(),
        ) + seq![EntryView::EndProperties]
    }
}

/// The records of a glyph that stands under the given codepoint.
pub open spec fn glyph_entries(codepoint: char, glyph: GlyphView) -> Seq<EntryView> {
    seq![EntryView::StartChar(glyph.name->0), EntryView::Encoding(codepoint)] + metrics_entries(
        glyph.direction,
        glyph.scalable_width,
        glyph.device_width,
        glyph.alternate_scalable_width,
        glyph.alternate_device_width,
        glyph.vector,
    ) + seq![
        EntryView::BoundingBox(glyph.bounds->0),
        EntryView::Bitmap(glyph.map),
        EntryView::EndChar,
    ]
}

/// The records of the first `n` glyphs.
pub open spec fn glyphs_entries(glyphs: Seq<(char, GlyphView)>, n: nat) -> Seq<EntryView>
    decreases n,
{
    if n == 0 || n > glyphs.len() {
        Seq::empty()
    } else {
        glyphs_entries(glyphs, (n - 1) as nat) + glyph_entries(glyphs[n - 1].0, glyphs[n - 1].1)
    }
}

/// The records of the head of a font: all that stands before its
/// properties.
pub open spec fn head_entries(font: FontView) -> Seq<EntryView> {
    seq![
        EntryView::StartFont(font.format),
        EntryView::Font(font.name->0),
        EntryView::Size(font.size->0.pt, font.size->0.x, font.size->0.y),
    ] + optional(
        match font.version {
            Some(version) => Some(EntryView::ContentVersion(version)),
            None => None,
        },
    ) + seq![EntryView::FontBoundingBox(font.bounds->0)] + metrics_entries(
        font.direction,
        font.scalable_width,
        font.device_width,
        font.alternate_scalable_width,
        font.alternate_device_width,
        font.vector,
    )
}

/// The records of a font, in the order in which they are written.
pub open spec fn font_entries(font: FontView) -> Seq<EntryView> {
    head_entries(font) + properties_entries(font.properties) + seq![
        EntryView::Chars(font.glyphs.len() as usize),
    ] + glyphs_entries(font.glyphs, font.glyphs.len()) + seq![EntryView::EndFont]
}

/// The text of some records, one after the other.
pub open spec fn text_of_all(entries: Seq<EntryView>) -> Seq<char>
    decreases entries.len(),
{
    if entries.len() == 0 {
        Seq::empty()
    } else {
        text_of_all(entries.drop_last()) + text_of(entries.last())
    }
}

/// Whether every glyph of the font can be written.
pub open spec fn glyphs_valid(glyphs: Seq<(char, GlyphView)>) -> bool {
    forall|i: int| 0 <= i < glyphs.len() ==> (#[trigger] glyphs[i]).1.valid()
}

/// The text of a font: that of its records, if the font and its glyphs can
/// be written.
pub open spec fn text_of_font(font: FontView) -> Result<Seq<char>, ErrorView> {
    if !font.valid() {
        Err(ErrorView::MalformedFont)
    } else if !glyphs_valid(font.glyphs) {
        Err(ErrorView::MalformedChar)
    } else {
        Ok(text_of_all(font_entries(font)))
    }
}

/// Lists that are put together in one order or the other are the same.
pub proof fn lemma_add_assoc(a: Seq<EntryView>, b: Seq<EntryView>, c: Seq<EntryView>)
    ensures
        a + b + c == a + (b + c),
{
    assert(a + b + c =~= a + (b + c));
}

/// The text of one more record.
pub proof fn lemma_text_push(entries: Seq<EntryView>, entry: EntryView)
    ensures
        text_of_all(entries.push(entry)) == text_of_all(entries) + text_of(entry),
{
    assert(entries.push(entry).drop_last() =~= entries);
}

/// A writer together with the list of the records that it has written.
struct Recorder {
    writer: Writer,
    entries: Ghost<Seq<EntryView>>,
}

impl Recorder {
    /// Whether the writer holds the text of the records that are listed.
    spec fn tallies(self) -> bool {
        self.writer@ == text_of_all(self.entries@)
    }

    /// A recorder that has written nothing.
    fn new() -> (r: Recorder)
        ensures
            r.tallies(),
            r.entries@ == Seq::<EntryView>::empty(),
    {
        Recorder { writer: new(), entries: Ghost(Seq::empty()) }
    }

    /// Writes one record.
    fn put(&mut self, entry: &Entry)
        requires
            old(self).tallies(),
            !(entry@ is Unknown),
        ensures
            final(self).tallies(),
            final(self).entries@ == old(self).entries@.push(entry@),
    {
        proof {
            lemma_text_push(self.entries@, entry@);
        }
        self.writer.entry(entry);
        self.entries = Ghost(self.entries@.push(entry@));
    }

    /// Writes a record that may be there.
    fn put_optional(&mut self, entry: Option<Entry>)
        requires
            old(self).tallies(),
            entry matches Some(e) ==> !(e@ is Unknown),
        ensures
            final(self).tallies(),
            final(self).entries@ == old(self).entries@ + optional(
                match entry {
                    Some(e) => Some(e@),
                    None => None,
                },
            ),
    {
        match entry {
            Some(e) => {
                self.put(&e);
                proof {
                    assert(self.entries@ =~= old(self).entries@ + seq![e@]);
                }
            },
            None => {
                proof {
                    assert(self.entries@ =~= old(self).entries@ + Seq::<EntryView>::empty());
                }
            },
        }
    }

    /// Writes the records of the metrics of a font or a glyph.
    fn put_metrics(
        &mut self,
        direction: Direction,
        scalable_width: Option<&(u32, u32)>,
        device_width: Option<&(u32, u32)>,
        alternate_scalable_width: Option<&(u32, u32)>,
        alternate_device_width: Option<&(u32, u32)>,
        vector: Option<&(u32, u32)>,
    )
        requires
            old(self).tallies(),
        ensures
            final(self).tallies(),
            final(self).entries@ == old(self).entries@ + metrics_entries(
                direction,
                crate::glyph::pair_of(scalable_width),
                crate::glyph::pair_of(device_width),
                crate::glyph::pair_of(alternate_scalable_width),
                crate::glyph::pair_of(alternate_device_width),
                crate::glyph::pair_of(vector),
            ),
    {
        let ghost e0 = self.entries@;
        let ghost a = optional(
            if direction != Direction::Default {
                Some(EntryView::Direction(direction))
            } else {
                None
            },
        );
        let ghost b = optional(
            match crate::glyph::pair_of(scalable_width) {
                Some((x, y)) => Some(EntryView::ScalableWidth(x, y)),
                None => None,
            },
        );
        let ghost c = optional(
            match crate::glyph::pair_of(device_width) {
                Some((x, y)) => Some(EntryView::DeviceWidth(x, y)),
                None => None,
            },
        );
        let ghost d = optional(
            match crate::glyph::pair_of(alternate_scalable_width) {
                Some((x, y)) => Some(EntryView::AlternateScalableWidth(x, y)),
                None => None,
            },
        );
        let ghost e = optional(
            match crate::glyph::pair_of(alternate_device_width) {
                Some((x, y)) => Some(EntryView::AlternateDeviceWidth(x, y)),
                None => None,
            },
        );
        let ghost f = optional(
            match crate::glyph::pair_of(vector) {
                Some((x, y)) => Some(EntryView::Vector(x, y)),
                None => None,
            },
        );
        self.put_optional(
            if direction != Direction::Default {
                Some(Entry::Direction(direction))
            } else {
                None
            },
        );
        assert(self.entries@ == e0 + a);
        self.put_optional(
            match scalable_width {
                Some(p) => Some(Entry::ScalableWidth(p.0, p.1)),
                None => None,
            },
        );
        assert(self.entries@ == e0 + a + b);
        self.put_optional(
            match device_width {
                Some(p) => Some(Entry::DeviceWidth(p.0, p.1)),
                None => None,
            },
        );
        assert(self.entries@ == e0 + a + b + c);
        self.put_optional(
            match alternate_scalable_width {
                Some(p) => Some(Entry::AlternateScalableWidth(p.0, p.1)),
                None => None,
            },
        );
        assert(self.entries@ == e0 + a + b + c + d);
        self.put_optional(
            match alternate_device_width {
                Some(p) => Some(Entry::AlternateDeviceWidth(p.0, p.1)),
                None => None,
            },
        );
        assert(self.entries@ == e0 + a + b + c + d + e);
        self.put_optional(
            match vector {
                Some(p) => Some(Entry::Vector(p.0, p.1)),
                None => None,
            },
        );
        assert(self.entries@ == e0 + a + b + c + d + e + f);
        proof {
            lemma_add_assoc(e0, a, b);
            lemma_add_assoc(e0, a + b, c);
            lemma_add_assoc(e0, a + b + c, d);
            lemma_add_assoc(e0, a + b + c + d, e);
            lemma_add_assoc(e0, a + b + c + d + e, f);
        }
    }

    /// Writes the records of the properties of a font.
    fn put_properties(&mut self, properties: &Properties)
        requires
            old(self).tallies(),
        ensures
            final(self).tallies(),
            final(self).entries@ == old(self).entries@ + properties_entries(properties@),
    {
        let count: usize = properties.len();
        if count == 0 {
            proof {
                assert(self.entries@ =~= old(self).entries@ + properties_entries(properties@));
            }
            return ;
        }
        self.put(&Entry::StartProperties(count));
        let mut i: usize = 0;
        while i < count
            invariant
                i <= count,
                count == properties@.len(),
                self.tallies(),
                self.entries@ == old(self).entries@.push(
                    EntryView::StartProperties(count),
                ) + property_entries(properties@, i as nat),
            decreases count - i,
        {
            let entry = Entry::Property(
                properties.name_at(i).to_owned(),
                properties.value_at(i).clone(),
            );
            self.put(&entry);
            proof {
                assert(self.entries@ =~= old(self).entries@.push(
                    EntryView::StartProperties(count),
                ) + property_entries(properties@, (i + 1) as nat));
            }
            i += 1;
        }
        self.put(&Entry::EndProperties);
        proof {
            assert(self.entries@ =~= old(self).entries@ + properties_entries(properties@));
        }
    }

    /// Writes the records of a glyph.
    fn put_glyph(&mut self, codepoint: char, glyph: &Glyph)
        requires
            old(self).tallies(),
            glyph@.valid(),
        ensures
            final(self).tallies(),
            final(self).entries@ == old(self).entries@ + glyph_entries(codepoint, glyph@),
    {
        let ghost e0 = self.entries@;
        self.put(&Entry::StartChar(glyph.name().to_owned()));
        self.put(&Entry::Encoding(codepoint));
        let ghost e1 = self.entries@;
        self.put_metrics(
            glyph.direction(),
            glyph.scalable_width(),
            glyph.device_width(),
            glyph.alternate_scalable_width(),
            glyph.alternate_device_width(),
            glyph.vector(),
        );
        let ghost e2 = self.entries@;
        self.put(&Entry::BoundingBox(*glyph.bounds()));
        self.put(&Entry::Bitmap(glyph.map().clone()));
        self.put(&Entry::EndChar);
        proof {
            let first = seq![EntryView::StartChar(glyph@.name->0), EntryView::Encoding(codepoint)];
            let last = seq![
                EntryView::BoundingBox(glyph@.bounds->0),
                EntryView::Bitmap(glyph@.map),
                EntryView::EndChar,
            ];
            let metrics = metrics_entries(
                glyph@.direction,
                glyph@.scalable_width,
                glyph@.device_width,
                glyph@.alternate_scalable_width,
                glyph@.alternate_device_width,
                glyph@.vector,
            );
            assert(e1 == e0 + first) by {
                assert(e1 =~= e0 + first);
            }
            assert(e2 == e1 + metrics);
            assert(self.entries@ == e2 + last) by {
                assert(self.entries@ =~= e2 + last);
            }
            lemma_add_assoc(e0, first, metrics);
            lemma_add_assoc(e0, first + metrics, last);
        }
    }

    /// Writes the records of the glyphs of a font.
    fn put_glyphs(&mut self, glyphs: &Glyphs)
        requires
            old(self).tallies(),
            glyphs_valid(glyphs@),
        ensures
            final(self).tallies(),
            final(self).entries@ == old(self).entries@ + glyphs_entries(glyphs@, glyphs@.len()),
    {
        let count: usize = glyphs.len();
        let mut i: usize = 0;
        proof {
            assert(self.entries@ =~= old(self).entries@ + glyphs_entries(glyphs@, 0));
        }
        while i < count
            invariant
                i <= count,
                count == glyphs@.len(),
                glyphs_valid(glyphs@),
                self.tallies(),
                self.entries@ == old(self).entries@ + glyphs_entries(glyphs@, i as nat),
            decreases count - i,
        {
            assert(glyphs@[i as int].1.valid());
            self.put_glyph(glyphs.codepoint_at(i), glyphs.glyph_at(i));
            proof {
                assert(self.entries@ =~= old(self).entries@ + glyphs_entries(
                    glyphs@,
                    (i + 1) as nat,
                ));
            }
            i += 1;
        }
    }

    /// Writes the records of the head of a font.
    fn put_head(&mut self, font: &Font)
        requires
            old(self).tallies(),
            font@.valid(),
        ensures
            final(self).tallies(),
            final(self).entries@ == old(self).entries@ + head_entries(font@),
    {
        let ghost e0 = self.entries@;
        let ghost first = seq![
            EntryView::StartFont(font@.format),
            EntryView::Font(font@.name->0),
            EntryView::Size(font@.size->0.pt, font@.size->0.x, font@.size->0.y),
        ];
        let ghost version = optional(
            match font@.version {
                Some(version) => Some(EntryView::ContentVersion(version)),
                None => None,
            },
        );
        let ghost bounds = seq![EntryView::FontBoundingBox(font@.bounds->0)];
        let ghost metrics = metrics_entries(
            font@.direction,
            font@.scalable_width,
            font@.device_width,
            font@.alternate_scalable_width,
            font@.alternate_device_width,
            font@.vector,
        );
        self.put(&Entry::StartFont(font.format().to_owned()));
        self.put(&Entry::Font(font.name().to_owned()));
        let size = font.size();
        self.put(&Entry::Size(size.pt, size.x, size.y));
        assert(self.entries@ == e0 + first) by {
            assert(self.entries@ =~= e0 + first);
        }
        self.put_optional(
            match font.version() {
                Some(version) => Some(Entry::ContentVersion(version.to_owned())),
                None => None,
            },
        );
        assert(self.entries@ == e0 + first + version);
        self.put(&Entry::FontBoundingBox(*font.bounds()));
        assert(self.entries@ == e0 + first + version + bounds) by {
            assert(self.entries@ =~= e0 + first + version + bounds);
        }
        self.put_metrics(
            font.direction(),
            font.scalable_width(),
            font.device_width(),
            font.alternate_scalable_width(),
            font.alternate_device_width(),
            font.vector(),
        );
        assert(self.entries@ == e0 + first + version + bounds + metrics);
        proof {
            lemma_add_assoc(e0, first, version);
            lemma_add_assoc(e0, first + version, bounds);
            lemma_add_assoc(e0, first + version + bounds, metrics);
        }
    }
}

/// Whether every glyph of the table can be written.
fn validate_glyphs(glyphs: &Glyphs) -> (valid: bool)
    ensures
        valid == glyphs_valid(glyphs@),
{
    let count: usize = glyphs.len();
    let mut i: usize = 0;
    while i < count
        invariant
            i <= count,
            count == glyphs@.len(),
            forall|j: int| 0 <= j < i ==> (#[trigger] glyphs@[j]).1.valid(),
        decreases count - i,
    {
        if !glyphs.glyph_at(i).validate() {
            return false;
        }
        i += 1;
    }
    true
}

/// Create a `Writer` that has written nothing.
pub fn new() -> (writer: Writer)
    ensures
        writer@ == Seq::<char>::empty(),
{
    Writer::empty()
}

/// What a text or an error holds.
pub open spec fn text_view(r: Result<String, Error>) -> Result<Seq<char>, ErrorView> {
    match r {
        Ok(text) => Ok(text@),
        Err(e) => Err(e@),
    }
}

/// Write the font as the text of a BDF file.
pub fn write(font: &Font) -> (r: Result<String, Error>)
    ensures
        text_view(r) == text_of_font(font@),
{
    if !font.validate() {
        return Err(Error::MalformedFont);
    }
    if !validate_glyphs(font.glyphs()) {
        return Err(Error::MalformedChar);
    }
    let mut recorder = Recorder::new();
    recorder.put_head(font);
    recorder.put_properties(font.properties());
    recorder.put(&Entry::Chars(font.glyphs().len()));
    recorder.put_glyphs(font.glyphs());
    recorder.put(&Entry::EndFont);
    proof {
        assert(recorder.entries@ =~= font_entries(font@));
    }
    Ok(recorder.writer.into_string())
}

} // verus!
