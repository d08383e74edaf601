//! The pixel grid of a glyph.

use bit_set::BitSet;
use vstd::prelude::*;

verus! {

/// `bit_set::BitSet`, a growable set of unsigned integers that is stored as
/// a vector of bits.
#[verifier::external_type_specification]
#[verifier::external_body]
#[verifier::reject_recursive_types(B)]
pub struct ExBitSet<B>(BitSet<B>);

/// The members of a bit set.
pub uninterp spec fn bit_set_members(set: BitSet<u32>) -> Set<int>;

/// `BitSet::new`: a set without members.
#[verifier::external_body]
fn bit_set_new() -> (set: BitSet<u32>)
    ensures
        bit_set_members(set) == Set::<int>::empty(),
{
    BitSet::new()
}

/// `BitSet::contains`: whether `value` is a member.
#[verifier::external_body]
fn bit_set_contains(set: &BitSet<u32>, value: usize) -> (found: bool)
    ensures
        found == bit_set_members(*set).contains(value as int),
{
    set.contains(value)
}

/// `BitSet::insert`: makes `value` a member and says whether it was none
/// before. The set grows to `value + 1` bits, which leaves out `usize::MAX`.
#[verifier::external_body]
fn bit_set_insert(set: &mut BitSet<u32>, value: usize) -> (fresh: bool)
    requires
        value < usize::MAX,
    ensures
        bit_set_members(*final(set)) == bit_set_members(*old(set)).insert(value as int),
        fresh == !bit_set_members(*old(set)).contains(value as int),
{
    set.insert(value)
}

/// `BitSet::remove`: takes `value` out of the set and says whether it was a
/// member.
#[verifier::external_body]
fn bit_set_remove(set: &mut BitSet<u32>, value: usize) -> (present: bool)
    ensures
        bit_set_members(*final(set)) == bit_set_members(*old(set)).remove(value as int),
        present == bit_set_members(*old(set)).contains(value as int),
{
    set.remove(value)
}

/// `BitSet::clone`: a set with the same members.
#[verifier::external_body]
fn bit_set_clone(set: &BitSet<u32>) -> (copy: BitSet<u32>)
    ensures
        bit_set_members(copy) == bit_set_members(*set),
{
    set.clone()
}

/// What a `Bitmap` holds: its size, and the set of its lit pixels, each as
/// its column `x` and row `y`.
#[verifier::ext_equal]
pub struct BitmapView {
    /// The number of columns.
    pub width: nat,
    /// The number of rows.
    pub height: nat,
    /// The lit pixels, as `(x, y)`.
    pub pixels: Set<(int, int)>,
}

impl BitmapView {
    /// Whether the bitmap is no larger than a bitmap can be, and every lit
    /// pixel lies inside it.
    pub open spec fn wf(self) -> bool {
        &&& size_fits(self.width as int, self.height as int)
        &&& self.width <= u32::MAX
        &&& self.height <= u32::MAX
        &&& forall|x: int, y: int| #[trigger]
            self.pixels.contains((x, y)) ==> 0 <= x < self.width && 0 <= y < self.height
    }

    /// The bitmap of the given size without a lit pixel.
    pub open spec fn blank(width: nat, height: nat) -> BitmapView {
        BitmapView { width, height, pixels: Set::empty() }
    }

    /// Whether the pixel in column `x` of row `y` is lit.
    pub open spec fn get(self, x: int, y: int) -> bool {
        self.pixels.contains((x, y))
    }

    /// The bitmap with the pixel in column `x` of row `y` lit or not, as
    /// `value` says.
    pub open spec fn set(self, x: int, y: int, value: bool) -> BitmapView {
        BitmapView {
            pixels: if value {
                self.pixels.insert((x, y))
            } else {
                self.pixels.remove((x, y))
            },
            ..self
        }
    }
}

/// Whether a bitmap of this size is no larger than a bitmap can be: the
/// pixels are numbered, and their number has to fit in a `usize`.
pub open spec fn size_fits(width: int, height: int) -> bool {
    width * height <= usize::MAX
}

/// In a grid of rows of `width` pixels, two pixels with the same index are
/// the same pixel.
proof fn lemma_index_injective(width: int, x1: int, y1: int, x2: int, y2: int)
    requires
        0 <= x1 < width,
        0 <= x2 < width,
        0 <= y1,
        0 <= y2,
        y1 * width + x1 == y2 * width + x2,
    ensures
        x1 == x2,
        y1 == y2,
{
    if y1 < y2 {
        assert((y1 + 1) * width <= y2 * width) by (nonlinear_arith)
            requires
                y1 + 1 <= y2,
                0 < width,
        ;
        assert((y1 + 1) * width == y1 * width + width) by (nonlinear_arith);
    } else if y2 < y1 {
        assert((y2 + 1) * width <= y1 * width) by (nonlinear_arith)
            requires
                y2 + 1 <= y1,
                0 < width,
        ;
        assert((y2 + 1) * width == y2 * width + width) by (nonlinear_arith);
    }
}

/// The index of a pixel inside a grid is below the size of the grid.
proof fn lemma_index_bound(width: int, height: int, x: int, y: int)
    requires
        0 <= x < width,
        0 <= y < height,
    ensures
        0 <= y * width + x < width * height,
{
    assert((y + 1) * width <= height * width) by (nonlinear_arith)
        requires
            y + 1 <= height,
            0 < width,
    ;
    assert((y + 1) * width == y * width + width) by (nonlinear_arith);
    assert(height * width == width * height) by (nonlinear_arith);
    assert(0 <= y * width) by (nonlinear_arith)
        requires
            0 <= y,
            0 < width,
    ;
}

/// The bitmap of a glyph: a grid of pixels, each lit or not, stored row by
/// row in a bit set. A bitmap has at most `usize::MAX` pixels.
#[derive(PartialEq, Eq, Debug)]
pub struct Bitmap {
    width: u32,
    height: u32,
    bits: BitSet<u32>,
}

impl View for Bitmap {
    type V = BitmapView;

    closed spec fn view(&self) -> BitmapView {
        BitmapView {
            width: self.width as nat,
            height: self.height as nat,
            pixels: Set::new(
                |p: (int, int)|
                    0 <= p.0 < self.width && 0 <= p.1 < self.height && bit_set_members(
                        self.bits,
                    ).contains(p.1 * self.width + p.0),
            ),
        }
    }
}

impl Bitmap {
    #[verifier::type_invariant]
    spec fn fits(self) -> bool {
        size_fits(self.width as int, self.height as int)
    }

    /// Creates a bitmap of the given size, without a lit pixel.
    pub fn new(width: u32, height: u32) -> (map: Self)
        requires
            size_fits(width as int, height as int),
        ensures
            map@ == BitmapView::blank(width as nat, height as nat),
            map@.wf(),
    {
        let map = Bitmap { width, height, bits: bit_set_new() };
        proof {
            assert(map@.pixels =~= Set::<(int, int)>::empty());
        }
        map
    }

    /// Gets the width.
    pub fn width(&self) -> (width: u32)
        ensures
            width == self@.width,
            self@.wf(),
    {
        proof {
            use_type_invariant(self);
        }
        self.width
    }

    /// Gets the height.
    pub fn height(&self) -> (height: u32)
        ensures
            height == self@.height,
            self@.wf(),
    {
        proof {
            use_type_invariant(self);
        }
        self.height
    }

    /// Gets a bit from the map.
    pub fn get(&self, x: u32, y: u32) -> (lit: bool)
        requires
            x < self@.width,
            y < self@.height,
        ensures
            lit == self@.get(x as int, y as int),
    {
        proof {
            use_type_invariant(self);
            lemma_index_bound(self.width as int, self.height as int, x as int, y as int);
        }
        let index: usize = (y as usize) * (self.width as usize) + (x as usize);
        bit_set_contains(&self.bits, index)
    }

    /// Sets a bit of the map.
    pub fn set(&mut self, x: u32, y: u32, value: bool)
        requires
            x < old(self)@.width,
            y < old(self)@.height,
        ensures
            final(self)@ == old(self)@.set(x as int, y as int, value),
            final(self)@.wf(),
    {
        proof {
            use_type_invariant(&*self);
            lemma_index_bound(self.width as int, self.height as int, x as int, y as int);
        }
        let index: usize = (y as usize) * (self.width as usize) + (x as usize);
        let mut bits = bit_set_new();
        core::mem::swap(&mut self.bits, &mut bits);
        if value {
            bit_set_insert(&mut bits, index);
        } else {
            bit_set_remove(&mut bits, index);
        }
        core::mem::swap(&mut self.bits, &mut bits);
        proof {
            let after = self@;
            let wanted = old(self)@.set(x as int, y as int, value);
            assert forall|p: (int, int)| after.pixels.contains(p) == wanted.pixels.contains(p) by {
                if 0 <= p.0 < self.width && 0 <= p.1 < self.height && p.1 * self.width + p.0
                    == index {
                    lemma_index_injective(self.width as int, p.0, p.1, x as int, y as int);
                }
            }
            assert(after.pixels =~= wanted.pixels);
        }
    }
}

impl Clone for Bitmap {
    fn clone(&self) -> (map: Self)
        ensures
            map@ == self@,
    {
        proof {
            use_type_invariant(self);
        }
        let bits = bit_set_clone(&self.bits);
        let map = Bitmap { width: self.width, height: self.height, bits };
        proof {
            assert(map@.pixels =~= self@.pixels);
        }
        map
    }
}

impl Default for Bitmap {
    fn default() -> (map: Self)
        ensures
            map@ == BitmapView::blank(0, 0),
    {
        Bitmap::new(0, 0)
    }
}

} // verus!
