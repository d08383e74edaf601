//! A font: its metrics, its properties and its glyphs.

use crate::bounding_box::BoundingBox;
use crate::direction::Direction;
use crate::glyph::{pair_of, text_view, GlyphView};
use crate::property::PropertyView;
use crate::table::{Glyphs, Properties};
use vstd::prelude::*;

verus! {

/// Size of a font.
#[derive(PartialEq, Eq, Clone, Copy, Debug, Structural)]
pub struct Size {
    /// Point size of the font.
    pub pt: u16,
    /// X-axis DPI.
    pub x: u16,
    /// Y-axis DPI.
    pub y: u16,
}

/// A BDF font.
#[derive(Debug)]
pub struct Font {
    format: String,
    name: Option<String>,
    version: Option<String>,
    size: Option<Size>,
    bounds: Option<BoundingBox>,
    direction: Direction,
    scalable_width: Option<(u32, u32)>,
    device_width: Option<(u32, u32)>,
    alternate_scalable_width: Option<(u32, u32)>,
    alternate_device_width: Option<(u32, u32)>,
    vector: Option<(u32, u32)>,
    properties: Properties,
    glyphs: Glyphs,
}

/// What a `Font` holds.
pub struct FontView {
    pub format: Seq<char>,
    pub name: Option<Seq<char>>,
    pub version: Option<Seq<char>>,
    pub size: Option<Size>,
    pub bounds: Option<BoundingBox>,
    pub direction: Direction,
    pub scalable_width: Option<(u32, u32)>,
    pub device_width: Option<(u32, u32)>,
    pub alternate_scalable_width: Option<(u32, u32)>,
    pub alternate_device_width: Option<(u32, u32)>,
    pub vector: Option<(u32, u32)>,
    pub properties: Seq<(Seq<char>, PropertyView)>,
    pub glyphs: Seq<(char, GlyphView)>,
}

impl FontView {
    /// The font of format 2.2 that holds nothing else.
    pub open spec fn empty() -> FontView {
        FontView {
            format: "2.2"@,
            name: None,
            version: None,
            size: None,
            bounds: None,
            direction: Direction::Default,
            scalable_width: None,
            device_width: None,
            alternate_scalable_width: None,
            alternate_device_width: None,
            vector: None,
            properties: Seq::empty(),
            glyphs: Seq::empty(),
        }
    }

    /// Whether the font can be written: it has a name, a size and bounds.
    pub open spec fn valid(self) -> bool {
        self.name is Some && self.size is Some && self.bounds is Some
    }
}

impl View for Font {
    type V = FontView;

    closed spec fn view(&self) -> FontView {
        FontView {
            format: self.format@,
            name: text_view(self.name),
            version: text_view(self.version),
            size: self.size,
            bounds: self.bounds,
            direction: self.direction,
            scalable_width: self.scalable_width,
            device_width: self.device_width,
            alternate_scalable_width: self.alternate_scalable_width,
            alternate_device_width: self.alternate_device_width,
            vector: self.vector,
            properties: self.properties@,
            glyphs: self.glyphs@,
        }
    }
}

impl Default for Font {
    fn default() -> (font: Self)
        ensures
            font@ == FontView::empty(),
    {
        Font {
            format: "2.2".to_owned(),
            name: None,
            version: None,
            size: None,
            bounds: None,
            direction: Direction::Default,
            scalable_width: None,
            device_width: None,
            alternate_scalable_width: None,
            alternate_device_width: None,
            vector: None,
            properties: Properties::new(),
            glyphs: Glyphs::new(),
        }
    }
}

/// An optional string as a string of its own.
fn owned(text: Option<&str>) -> (out: Option<String>)
    ensures
        match text {
            Some(t) => text_view(out) == Some(t@),
            None => out is None,
        },
{
    match text {
        Some(t) => Some(t.to_owned()),
        None => None,
    }
}

impl Font {
    /// Create a new font with the given name and content-version.
    pub fn new(name: &str, version: Option<&str>) -> (font: Self)
        ensures
            font@ == (FontView {
                name: Some(name@),
                version: match version {
                    Some(v) => Some(v@),
                    None => None,
                },
                ..FontView::empty()
            }),
    {
        let mut font = Font::default();
        font.name = Some(name.to_owned());
        font.version = owned(version);
        font
    }

    /// Validates the definition.
    pub fn validate(&self) -> (valid: bool)
        ensures
            valid == self@.valid(),
    {
        if self.name.is_none() {
            return false;
        }
        if self.size.is_none() {
            return false;
        }
        if self.bounds.is_none() {
            return false;
        }
        true
    }

    /// Gets BDF format version.
    pub fn format(&self) -> (format: &str)
        ensures
            format@ == self@.format,
    {
        self.format.as_str()
    }

    /// Sets the BDF format version.
    pub fn set_format(&mut self, format: &str)
        ensures
            final(self)@ == (FontView { format: format@, ..old(self)@ }),
    {
        self.format = format.to_owned();
    }

    /// Gets the name.
    pub fn name(&self) -> (name: &str)
        requires
            self@.name is Some,
        ensures
            Some(name@) == self@.name,
    {
        self.name.as_ref().unwrap().as_str()
    }

    /// Sets the name.
    pub fn set_name(&mut self, name: &str)
        ensures
            final(self)@ == (FontView { name: Some(name@), ..old(self)@ }),
    {
        self.name = Some(name.to_owned());
    }

    /// Gets the content-version.
    pub fn version(&self) -> (version: Option<&str>)
        ensures
            match version {
                Some(v) => self@.version == Some(v@),
                None => self@.version is None,
            },
    {
        match &self.version {
            Some(v) => Some(v.as_str()),
            None => None,
        }
    }

    /// Sets the content-version.
    pub fn set_version(&mut self, version: Option<&str>)
        ensures
            final(self)@ == (FontView {
                version: match version {
                    Some(v) => Some(v@),
                    None => None,
                },
                ..old(self)@
            }),
    {
        self.version = owned(version);
    }

    /// Gets the size.
    pub fn size(&self) -> (size: &Size)
        requires
            self@.size is Some,
        ensures
            Some(*size) == self@.size,
    {
        self.size.as_ref().unwrap()
    }

    /// Sets the size.
    pub fn set_size(&mut self, size: Size)
        ensures
            final(self)@ == (FontView { size: Some(size), ..old(self)@ }),
    {
        self.size = Some(size);
    }

    /// Gets the default bounding box.
    pub fn bounds(&self) -> (bounds: &BoundingBox)
        requires
            self@.bounds is Some,
        ensures
            Some(*bounds) == self@.bounds,
    {
        self.bounds.as_ref().unwrap()
    }

    /// Sets the default bounding box.
    pub fn set_bounds(&mut self, bounds: BoundingBox)
        ensures
            final(self)@ == (FontView { bounds: Some(bounds), ..old(self)@ }),
    {
        self.bounds = Some(bounds);
    }

    /// Gets the default direction.
    pub fn direction(&self) -> (direction: Direction)
        ensures
            direction == self@.direction,
    {
        self.direction
    }

    /// Sets the default direction.
    pub fn set_direction(&mut self, direction: Direction)
        ensures
            final(self)@ == (FontView { direction, ..old(self)@ }),
    {
        self.direction = direction;
    }

    /// Gets the default scalable width.
    pub fn scalable_width(&self) -> (value: Option<&(u32, u32)>)
        ensures
            pair_of(value) == self@.scalable_width,
    {
        self.scalable_width.as_ref()
    }

    /// Sets the default scalable width.
    pub fn set_scalable_width(&mut self, value: Option<(u32, u32)>)
        ensures
            final(self)@ == (FontView { scalable_width: value, ..old(self)@ }),
    {
        self.scalable_width = value;
    }

    /// Gets the default device width.
    pub fn device_width(&self) -> (value: Option<&(u32, u32)>)
        ensures
            pair_of(value) == self@.device_width,
    {
        self.device_width.as_ref()
    }

    /// Sets the default device width.
    pub fn set_device_width(&mut self, value: Option<(u32, u32)>)
        ensures
            final(self)@ == (FontView { device_width: value, ..old(self)@ }),
    {
        self.device_width = value;
    }

    /// Gets the default alternate scalable width.
    pub fn alternate_scalable_width(&self) -> (value: Option<&(u32, u32)>)
        ensures
            pair_of(value) == self@.alternate_scalable_width,
    {
        self.alternate_scalable_width.as_ref()
    }

    /// Sets the default alternate scalable width.
    pub fn set_alternate_scalable_width(&mut self, value: Option<(u32, u32)>)
        ensures
            final(self)@ == (FontView { alternate_scalable_width: value, ..old(self)@ }),
    {
        self.alternate_scalable_width = value;
    }

    /// Gets the default alternate device width.
    pub fn alternate_device_width(&self) -> (value: Option<&(u32, u32)>)
        ensures
            pair_of(value) == self@.alternate_device_width,
    {
        self.alternate_device_width.as_ref()
    }

    /// Sets the default alternate device width.
    pub fn set_alternate_device_width(&mut self, value: Option<(u32, u32)>)
        ensures
            final(self)@ == (FontView { alternate_device_width: value, ..old(self)@ }),
    {
        self.alternate_device_width = value;
    }

    /// Gets the default offset vector.
    pub fn vector(&self) -> (value: Option<&(u32, u32)>)
        ensures
            pair_of(value) == self@.vector,
    {
        self.vector.as_ref()
    }

    /// Sets the default offset vector.
    pub fn set_vector(&mut self, value: Option<(u32, u32)>)
        ensures
            final(self)@ == (FontView { vector: value, ..old(self)@ }),
    {
        self.vector = value;
    }

    /// Gets the properties.
    pub fn properties(&self) -> (properties: &Properties)
        ensures
            properties@ == self@.properties,
    {
        &self.properties
    }

    /// Gets a mutable reference to the properties.
    pub fn properties_mut(&mut self) -> (properties: &mut Properties)
        ensures
            properties@ == old(self)@.properties,
            final(self)@ == (FontView { properties: final(properties)@, ..old(self)@ }),
    {
        &mut self.properties
    }

    /// Gets the glyphs.
    pub fn glyphs(&self) -> (glyphs: &Glyphs)
        ensures
            glyphs@ == self@.glyphs,
    {
        &self.glyphs
    }

    /// Gets a mutable reference to the glyphs.
    pub fn glyphs_mut(&mut self) -> (glyphs: &mut Glyphs)
        ensures
            glyphs@ == old(self)@.glyphs,
            final(self)@ == (FontView { glyphs: final(glyphs)@, ..old(self)@ }),
    {
        &mut self.glyphs
    }
}

} // verus!
