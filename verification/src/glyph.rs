//! A glyph: the metrics and the bitmap of one character.

use crate::bitmap::{Bitmap, BitmapView};
use crate::bounding_box::BoundingBox;
use crate::direction::Direction;
use vstd::prelude::*;

verus! {

/// What an optional string holds.
pub open spec fn text_view(s: Option<String>) -> Option<Seq<char>> {
    match s {
        Some(t) => Some(t@),
        None => None,
    }
}

/// The pair behind an optional reference.
pub open spec fn pair_of(value: Option<&(u32, u32)>) -> Option<(u32, u32)> {
    match value {
        Some(p) => Some(*p),
        None => None,
    }
}

/// A font glyph.
#[derive(Debug)]
pub struct Glyph {
    name: Option<String>,
    codepoint: Option<char>,
    direction: Direction,
    scalable_width: Option<(u32, u32)>,
    device_width: Option<(u32, u32)>,
    alternate_scalable_width: Option<(u32, u32)>,
    alternate_device_width: Option<(u32, u32)>,
    vector: Option<(u32, u32)>,
    bounds: Option<BoundingBox>,
    map: Bitmap,
}

/// What a `Glyph` holds.
pub struct GlyphView {
    pub name: Option<Seq<char>>,
    pub codepoint: Option<char>,
    pub direction: Direction,
    pub scalable_width: Option<(u32, u32)>,
    pub device_width: Option<(u32, u32)>,
    pub alternate_scalable_width: Option<(u32, u32)>,
    pub alternate_device_width: Option<(u32, u32)>,
    pub vector: Option<(u32, u32)>,
    pub bounds: Option<BoundingBox>,
    pub map: BitmapView,
}

impl GlyphView {
    /// The glyph without a name, a codepoint, metrics or pixels.
    pub open spec fn empty() -> GlyphView {
        GlyphView {
            name: None,
            codepoint: None,
            direction: Direction::Default,
            scalable_width: None,
            device_width: None,
            alternate_scalable_width: None,
            alternate_device_width: None,
            vector: None,
            bounds: None,
            map: BitmapView::blank(0, 0),
        }
    }

    /// Whether the glyph can be written: it has a name, a codepoint and
    /// bounds, and it has the alternate widths if and only if its direction
    /// is not the default one.
    pub open spec fn valid(self) -> bool {
        &&& self.name is Some
        &&& self.codepoint is Some
        &&& self.bounds is Some
        &&& if self.direction == Direction::Default {
            self.alternate_scalable_width is None && self.alternate_device_width is None
        } else {
            self.alternate_scalable_width is Some && self.alternate_device_width is Some
        }
    }
}

impl View for Glyph {
    type V = GlyphView;

    closed spec fn view(&self) -> GlyphView {
        GlyphView {
            name: text_view(self.name),
            codepoint: self.codepoint,
            direction: self.direction,
            scalable_width: self.scalable_width,
            device_width: self.device_width,
            alternate_scalable_width: self.alternate_scalable_width,
            alternate_device_width: self.alternate_device_width,
            vector: self.vector,
            bounds: self.bounds,
            map: self.map@,
        }
    }
}

impl Default for Glyph {
    fn default() -> (glyph: Self)
        ensures
            glyph@ == GlyphView::empty(),
    {
        Glyph {
            name: None,
            codepoint: None,
            direction: Direction::Default,
            scalable_width: None,
            device_width: None,
            alternate_scalable_width: None,
            alternate_device_width: None,
            vector: None,
            bounds: None,
            map: Bitmap::new(0, 0),
        }
    }
}

impl Clone for Glyph {
    fn clone(&self) -> (glyph: Self)
        ensures
            glyph@ == self@,
    {
        Glyph {
            name: match &self.name {
                Some(s) => Some(s.clone()),
                None => None,
            },
            codepoint: self.codepoint,
            direction: self.direction,
            scalable_width: self.scalable_width,
            device_width: self.device_width,
            alternate_scalable_width: self.alternate_scalable_width,
            alternate_device_width: self.alternate_device_width,
            vector: self.vector,
            bounds: self.bounds,
            map: self.map.clone(),
        }
    }
}

impl Glyph {
    /// Creates a glyph without a name, a codepoint, metrics or pixels.
    pub fn empty() -> (glyph: Self)
        ensures
            glyph@ == GlyphView::empty(),
    {
        Glyph::default()
    }

    /// Creates a new glyph with the given name and codepoint.
    pub fn new(name: &str, codepoint: char) -> (glyph: Self)
        ensures
            glyph@ == (GlyphView {
                name: Some(name@),
                codepoint: Some(codepoint),
                ..GlyphView::empty()
            }),
    {
        let mut glyph = Glyph::default();
        glyph.name = Some(name.to_owned());
        glyph.codepoint = Some(codepoint);
        glyph
    }

    /// Validates the definition.
    pub fn validate(&self) -> (valid: bool)
        ensures
            valid == self@.valid(),
    {
        if self.name.is_none() {
            return false;
        }
        if self.codepoint.is_none() {
            return false;
        }
        if self.bounds.is_none() {
            return false;
        }
        if self.direction == Direction::Default {
            if self.alternate_scalable_width.is_some() {
                return false;
            }
            if self.alternate_device_width.is_some() {
                return false;
            }
        } else {
            if self.alternate_scalable_width.is_none() {
                return false;
            }
            if self.alternate_device_width.is_none() {
                return false;
            }
        }
        true
    }

    /// Gets the name.
    pub fn name(&self) -> (name: &str)
        requires
            self@.name is Some,
        ensures
            Some(name@) == self@.name,
    {
        self.name.as_ref().unwrap().as_str()
    }

    /// Sets the name.
    pub fn set_name(&mut self, name: &str)
        ensures
            final(self)@ == (GlyphView { name: Some(name@), ..old(self)@ }),
    {
        self.name = Some(name.to_owned());
    }

    /// Gets the codepoint.
    pub fn codepoint(&self) -> (codepoint: char)
        requires
            self@.codepoint is Some,
        ensures
            Some(codepoint) == self@.codepoint,
    {
        self.codepoint.unwrap()
    }

    /// The codepoint, if the glyph has one.
    pub fn try_codepoint(&self) -> (codepoint: Option<char>)
        ensures
            codepoint == self@.codepoint,
    {
        self.codepoint
    }

    /// Sets the codepoint.
    pub fn set_codepoint(&mut self, codepoint: char)
        ensures
            final(self)@ == (GlyphView { codepoint: Some(codepoint), ..old(self)@ }),
    {
        self.codepoint = Some(codepoint);
    }

    /// Gets the direction.
    pub fn direction(&self) -> (direction: Direction)
        ensures
            direction == self@.direction,
    {
        self.direction
    }

    /// Sets the direction.
    pub fn set_direction(&mut self, direction: Direction)
        ensures
            final(self)@ == (GlyphView { direction, ..old(self)@ }),
    {
        self.direction = direction;
    }

    /// Gets the scalable width.
    pub fn scalable_width(&self) -> (value: Option<&(u32, u32)>)
        ensures
            pair_of(value) == self@.scalable_width,
    {
        self.scalable_width.as_ref()
    }

    /// Sets the scalable width.
    pub fn set_scalable_width(&mut self, value: Option<(u32, u32)>)
        ensures
            final(self)@ == (GlyphView { scalable_width: value, ..old(self)@ }),
    {
        self.scalable_width = value;
    }

    /// Gets the device width.
    pub fn device_width(&self) -> (value: Option<&(u32, u32)>)
        ensures
            pair_of(value) == self@.device_width,
    {
        self.device_width.as_ref()
    }

    /// Sets the device width.
    pub fn set_device_width(&mut self, value: Option<(u32, u32)>)
        ensures
            final(self)@ == (GlyphView { device_width: value, ..old(self)@ }),
    {
        self.device_width = value;
    }

    /// Gets the alternate scalable width.
    pub fn alternate_scalable_width(&self) -> (value: Option<&(u32, u32)>)
        ensures
            pair_of(value) == self@.alternate_scalable_width,
    {
        self.alternate_scalable_width.as_ref()
    }

    /// Sets the alternate scalable width.
    pub fn set_alternate_scalable_width(&mut self, value: Option<(u32, u32)>)
        ensures
            final(self)@ == (GlyphView { alternate_scalable_width: value, ..old(self)@ }),
    {
        self.alternate_scalable_width = value;
    }

    /// Gets the alternate device width.
    pub fn alternate_device_width(&self) -> (value: Option<&(u32, u32)>)
        ensures
            pair_of(value) == self@.alternate_device_width,
    {
        self.alternate_device_width.as_ref()
    }

    /// Sets the alternate device width.
    pub fn set_alternate_device_width(&mut self, value: Option<(u32, u32)>)
        ensures
            final(self)@ == (GlyphView { alternate_device_width: value, ..old(self)@ }),
    {
        self.alternate_device_width = value;
    }

    /// Gets the offset vector.
    pub fn vector(&self) -> (value: Option<&(u32, u32)>)
        ensures
            pair_of(value) == self@.vector,
    {
        self.vector.as_ref()
    }

    /// Sets the offset vector.
    pub fn set_vector(&mut self, value: Option<(u32, u32)>)
        ensures
            final(self)@ == (GlyphView { vector: value, ..old(self)@ }),
    {
        self.vector = value;
    }

    /// Gets the bounds.
    pub fn bounds(&self) -> (bounds: &BoundingBox)
        requires
            self@.bounds is Some,
        ensures
            Some(*bounds) == self@.bounds,
    {
        self.bounds.as_ref().unwrap()
    }

    /// Sets the bounds.
    pub fn set_bounds(&mut self, bounds: BoundingBox)
        ensures
            final(self)@ == (GlyphView { bounds: Some(bounds), ..old(self)@ }),
    {
        self.bounds = Some(bounds);
    }

    /// Gets the bitmap.
    pub fn map(&self) -> (map: &Bitmap)
        ensures
            map@ == self@.map,
    {
        &self.map
    }

    /// Sets the bitmap.
    pub fn set_map(&mut self, map: Bitmap)
        ensures
            final(self)@ == (GlyphView { map: map@, ..old(self)@ }),
    {
        self.map = map;
    }

    /// Gets the width of the bitmap.
    pub fn width(&self) -> (width: u32)
        ensures
            width == self@.map.width,
    {
        self.map.width()
    }

    /// Gets the height of the bitmap.
    pub fn height(&self) -> (height: u32)
        ensures
            height == self@.map.height,
    {
        self.map.height()
    }

    /// Gets a bit from the bitmap.
    pub fn get(&self, x: u32, y: u32) -> (lit: bool)
        requires
            x < self@.map.width,
            y < self@.map.height,
        ensures
            lit == self@.map.get(x as int, y as int),
    {
        self.map.get(x, y)
    }

    /// Sets a bit of the bitmap.
    pub fn set(&mut self, x: u32, y: u32, value: bool)
        requires
            x < old(self)@.map.width,
            y < old(self)@.map.height,
        ensures
            final(self)@ == (GlyphView {
                map: old(self)@.map.set(x as int, y as int, value),
                ..old(self)@
            }),
    {
        self.map.set(x, y, value);
    }

    /// Create an iterator over the pixels which will yield `((x, y), value)`.
    pub fn pixels(&self) -> (pixels: PixelIter<'_>)
        ensures
            pixels@ == (PixelsView { map: self@.map, done: 0 }),
    {
        PixelIter { x: 0, y: 0, map: &self.map }
    }
}

/// What an iterator over pixels holds: the bitmap, and the number of pixels
/// that it has yielded.
pub struct PixelsView {
    pub map: BitmapView,
    pub done: nat,
}

impl PixelsView {
    /// The pixels of the bitmap row by row, each with its place `(x, y)`.
    pub open spec fn all(self) -> Seq<((u32, u32), bool)> {
        pixels_of(self.map)
    }

    /// The pixel that comes next, if one is left.
    pub open spec fn next(self) -> Option<((u32, u32), bool)> {
        if self.done < self.all().len() {
            Some(self.all()[self.done as int])
        } else {
            None
        }
    }

    /// The iterator after the next pixel.
    pub open spec fn advance(self) -> PixelsView {
        if self.done < self.all().len() {
            PixelsView { done: self.done + 1, ..self }
        } else {
            self
        }
    }

    /// The number of pixels that are left.
    pub open spec fn left(self) -> nat {
        (self.all().len() - self.done) as nat
    }
}

/// The pixels of a bitmap row by row, each with its place `(x, y)`.
pub open spec fn pixels_of(map: BitmapView) -> Seq<((u32, u32), bool)> {
    Seq::new(
        map.width * map.height,
        |i: int|
            (
                ((i % map.width as int) as u32, (i / map.width as int) as u32),
                map.get(i % map.width as int, i / map.width as int),
            ),
    )
}

/// An iterator over the pixels of a glyph, row by row.
pub struct PixelIter<'a> {
    x: u32,
    y: u32,
    map: &'a Bitmap,
}

impl<'a> View for PixelIter<'a> {
    type V = PixelsView;

    closed spec fn view(&self) -> PixelsView {
        PixelsView { map: self.map@, done: (self.y * self.map@.width + self.x) as nat }
    }
}

impl<'a> PixelIter<'a> {
    #[verifier::type_invariant]
    spec fn inside(self) -> bool {
        &&& self.y <= self.map@.height
        &&& self.x <= self.map@.width
        &&& self.y < self.map@.height ==> self.x < self.map@.width || self.map@.width == 0
        &&& self.y == self.map@.height ==> self.x == 0
    }

    /// The next pixel, if one is left.
    pub fn next(&mut self) -> (pixel: Option<((u32, u32), bool)>)
        ensures
            pixel == old(self)@.next(),
            final(self)@ == old(self)@.advance(),
    {
        proof {
            use_type_invariant(&*self);
        }
        let width: u32 = self.map.width();
        let height: u32 = self.map.height();
        let x: u32 = self.x;
        let y: u32 = self.y;
        if y >= height || width == 0 {
            proof {
                assert(self@.done >= width * height) by (nonlinear_arith)
                    requires
                        self@.done == y * width + x,
                        y >= height || width == 0,
                        0 <= x,
                        0 <= width,
                        0 <= height,
                ;
            }
            return None;
        }
        let lit = self.map.get(x, y);
        proof {
            let i = y * width + x;
            assert(i < width * height && (y + 1) * width == i - x + width) by (nonlinear_arith)
                requires
                    i == y * width + x,
                    0 <= x < width,
                    0 <= y < height,
            ;
            vstd::arithmetic::div_mod::lemma_fundamental_div_mod_converse(
                i,
                width as int,
                y as int,
                x as int,
            );
        }
        if x + 1 == width {
            self.x = 0;
            self.y = y + 1;
        } else {
            self.x = x + 1;
        }
        Some(((x, y), lit))
    }

    /// The number of pixels that are left, as the least and as the most that
    /// will come.
    pub fn size_hint(&self) -> (hint: (usize, Option<usize>))
        ensures
            hint.0 == self@.left(),
            hint.1 == Some(hint.0),
    {
        proof {
            use_type_invariant(self);
        }
        let width: u32 = self.map.width();
        let height: u32 = self.map.height();
        proof {
            assert(self.y * width + self.x <= width * height) by (nonlinear_arith)
                requires
                    self.y <= height,
                    self.x <= width,
                    self.y < height ==> self.x < width || width == 0,
                    self.y == height ==> self.x == 0,
                    0 <= self.x,
                    0 <= self.y,
            ;
            assert(self.y * width <= width * height) by (nonlinear_arith)
                requires
                    self.y <= height,
                    0 <= width,
                    0 <= self.y,
            ;
        }
        let total: u64 = (width as u64) * (height as u64);
        let done: u64 = (self.y as u64) * (width as u64) + (self.x as u64);
        let left: usize = (total - done) as usize;
        (left, Some(left))
    }

    /// The pixels that are left.
    pub fn collect(self) -> (pixels: Vec<((u32, u32), bool)>)
        ensures
            pixels@ == self@.all().skip(self@.done as int),
    {
        let mut rest = self;
        let mut pixels: Vec<((u32, u32), bool)> = Vec::new();
        let ghost all = self@.all();
        proof {
            use_type_invariant(&rest);
            lemma_done_bound(
                rest.x as int,
                rest.y as int,
                rest.map@.width as int,
                rest.map@.height as int,
            );
            assert(all.subrange(self@.done as int, self@.done as int) =~= Seq::empty());
        }
        loop
            invariant_except_break
                rest@.map == self@.map,
                all == self@.all(),
                self@.done <= rest@.done <= all.len(),
                pixels@ == all.subrange(self@.done as int, rest@.done as int),
            ensures
                pixels@ == all.skip(self@.done as int),
            decreases all.len() - rest@.done,
        {
            let ghost before = rest@;
            match rest.next() {
                Some(pixel) => {
                    pixels.push(pixel);
                    proof {
                        assert(pixels@ =~= all.subrange(self@.done as int, rest@.done as int));
                    }
                },
                None => {
                    proof {
                        assert(all.subrange(self@.done as int, all.len() as int) =~= all.skip(
                            self@.done as int,
                        ));
                    }
                    break ;
                },
            }
        }
        pixels
    }
}

/// The number of pixels before the place `(x, y)` is at most the number of
/// pixels of the bitmap.
proof fn lemma_done_bound(x: int, y: int, width: int, height: int)
    requires
        0 <= x <= width,
        0 <= y <= height,
        y < height ==> x < width || width == 0,
        y == height ==> x == 0,
    ensures
        0 <= y * width + x <= width * height,
{
    assert(0 <= y * width + x <= width * height) by (nonlinear_arith)
        requires
            0 <= x <= width,
            0 <= y <= height,
            y < height ==> x < width || width == 0,
            y == height ==> x == 0,
    ;
}

} // verus!
