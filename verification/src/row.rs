//! Rows of a bitmap as words: the packing of pixels into bits.
//!
//! A row is written with its first column as the highest of the bits in use,
//! and is then moved up to the next whole byte.

use crate::bitmap::{Bitmap, BitmapView};
use vstd::prelude::*;

verus! {

/// The number of unused bits below a row of `width` pixels, which fill the
/// row up to whole bytes.
pub open spec fn padding(width: nat) -> nat {
    ((8 - width % 8) % 8) as nat
}

/// A pixel as a bit.
pub open spec fn bit_of(lit: bool) -> u64 {
    if lit {
        1
    } else {
        0
    }
}

/// The first `n` pixels of row `y`, shifted in from the right, one after the
/// other. Bits that leave the word at its upper end are lost.
pub open spec fn shift_in(map: BitmapView, y: int, n: nat) -> u64
    decreases n,
{
    if n == 0 {
        0
    } else {
        (shift_in(map, y, (n - 1) as nat) << 1u64) | bit_of(map.get(n - 1, y))
    }
}

/// Row `y` as a word: all its pixels shifted in, then moved up by the padding.
pub open spec fn row_word(map: BitmapView, y: int) -> u64 {
    shift_in(map, y, map.width) << (padding(map.width) as u64)
}

/// Whether bit `k` of `word` is set, counted from the lowest. There is no
/// bit from 64 on.
pub open spec fn word_bit(word: u64, k: int) -> bool {
    0 <= k < 64 && (word >> (k as u64)) & 1u64 == 1u64
}

/// Whether the pixel in column `x` is lit in a row of `width` pixels that is
/// given as a word: the padding is dropped, and the last column is the lowest
/// bit of what is left.
pub open spec fn unpacked_pixel(word: u64, width: nat, x: int) -> bool {
    0 <= x < width && word_bit(word >> (padding(width) as u64), width - 1 - x)
}

/// The bitmap of the given size whose rows are the given words.
pub open spec fn unpack(words: Seq<u64>, width: nat, height: nat) -> BitmapView {
    BitmapView {
        width,
        height,
        pixels: Set::new(
            |p: (int, int)|
                0 <= p.1 < height && p.1 < words.len() && unpacked_pixel(words[p.1], width, p.0),
        ),
    }
}

/// The words of the rows of a bitmap, from the first row to the last.
pub open spec fn pack(map: BitmapView) -> Seq<u64> {
    Seq::new(map.height, |y: int| row_word(map, y))
}

/// Whether a pixel in column `x` of a row of `width` pixels has a bit of its
/// own in the word of the row: the columns so far to the left that their
/// bits leave the word do not.
pub open spec fn column_kept(width: nat, x: int) -> bool {
    width - x + padding(width) <= 64
}

/// Whether every lit pixel of the bitmap has a bit of its own in the word of
/// its row. This holds of every bitmap of at most 64 columns.
pub open spec fn packs_whole(map: BitmapView) -> bool {
    forall|x: int, y: int| #[trigger] map.pixels.contains((x, y)) ==> column_kept(map.width, x)
}

/// The bits of a word after one more bit was shifted in: the new bit is
/// the lowest, and every other bit is the one that stood below it.
proof fn lemma_shift_in_bit(v: u64, b: u64, k: u64)
    by (bit_vector)
    requires
        b <= 1,
        k < 64,
    ensures
        ((((v << 1u64) | b) >> k) & 1u64 == 1u64) == (if k == 0 {
            b == 1
        } else {
            (v >> ((k - 1) as u64)) & 1u64 == 1u64
        }),
{
}

/// The bits of a word that was moved up by `p` and down again: those that
/// did not leave the word on the way up.
proof fn lemma_padded_bit(v: u64, p: u64, k: u64)
    by (bit_vector)
    requires
        p < 8,
        k < 64,
    ensures
        ((((v << p) >> p) >> k) & 1u64 == 1u64) == (k + p < 64 && (v >> k) & 1u64 == 1u64),
{
}

/// No bit of zero is set.
proof fn lemma_zero_bit(k: u64)
    by (bit_vector)
    requires
        k < 64,
    ensures
        (0u64 >> k) & 1u64 == 0u64,
{
}

/// The bits of what was shifted in: bit `k` is the pixel `k` columns before
/// the last one that was shifted in.
pub proof fn lemma_shift_in_bits(map: BitmapView, y: int, n: nat, k: int)
    requires
        0 <= k < 64,
    ensures
        word_bit(shift_in(map, y, n), k) == (k < n && map.get(n - 1 - k, y)),
    decreases n,
{
    if n == 0 {
        lemma_zero_bit(k as u64);
    } else {
        let before = shift_in(map, y, (n - 1) as nat);
        let b = bit_of(map.get(n - 1, y));
        lemma_shift_in_bit(before, b, k as u64);
        if k > 0 {
            lemma_shift_in_bits(map, y, (n - 1) as nat, k - 1);
        }
    }
}

/// A pixel read back from the word of its row is the pixel of the bitmap,
/// where the column has a bit of its own, and is dark where it has none.
pub proof fn lemma_unpack_row_word(map: BitmapView, y: int, x: int)
    requires
        0 <= x < map.width,
    ensures
        unpacked_pixel(row_word(map, y), map.width, x) == (map.get(x, y) && column_kept(
            map.width,
            x,
        )),
{
    let w = map.width;
    let k = w - 1 - x;
    let p = padding(w);
    let s = shift_in(map, y, w);
    if k < 64 {
        lemma_padded_bit(s, p as u64, k as u64);
        lemma_shift_in_bits(map, y, w, k);
    }
}

/// A bitmap whose lit pixels all have a bit of their own is what its words
/// unpack to.
pub proof fn lemma_unpack_pack(map: BitmapView)
    requires
        map.wf(),
        packs_whole(map),
    ensures
        unpack(pack(map), map.width, map.height) == map,
{
    let back = unpack(pack(map), map.width, map.height);
    assert forall|p: (int, int)| back.pixels.contains(p) == map.pixels.contains(p) by {
        assert(p == (p.0, p.1));
        if 0 <= p.1 < map.height && 0 <= p.0 < map.width {
            assert(pack(map)[p.1] == row_word(map, p.1));
            lemma_unpack_row_word(map, p.1, p.0);
        }
    }
    assert(back.pixels =~= map.pixels);
}

/// A bitmap of at most 64 columns has a bit for every pixel.
pub proof fn lemma_narrow_packs_whole(map: BitmapView)
    requires
        map.wf(),
        map.width <= 64,
    ensures
        packs_whole(map),
{
}

/// The padding of a row of `width` pixels.
pub fn padding_of(width: u32) -> (p: u32)
    ensures
        p == padding(width as nat),
        p < 8,
{
    (8 - width % 8) % 8
}

/// Row `y` of the bitmap as a word.
pub fn pack_row(map: &Bitmap, y: u32) -> (word: u64)
    requires
        y < map@.height,
    ensures
        word == row_word(map@, y as int),
{
    let width: u32 = map.width();
    let mut value: u64 = 0;
    let mut x: u32 = 0;
    while x < width
        invariant
            x <= width,
            width == map@.width,
            y < map@.height,
            value == shift_in(map@, y as int, x as nat),
        decreases width - x,
    {
        let b: u64 = if map.get(x, y) {
            1
        } else {
            0
        };
        value = (value << 1u64) | b;
        x += 1;
    }
    value << (padding_of(width) as u64)
}

/// The bitmap with row `y` as the given word says, and its other rows as
/// they were.
pub open spec fn with_row(map: BitmapView, y: int, word: u64) -> BitmapView {
    BitmapView {
        pixels: Set::new(
            |p: (int, int)|
                if p.1 == y {
                    unpacked_pixel(word, map.width, p.0)
                } else {
                    map.pixels.contains(p)
                },
        ),
        ..map
    }
}

/// Sets row `y` of the bitmap from its word.
pub fn unpack_row(map: &mut Bitmap, y: u32, word: u64)
    requires
        y < old(map)@.height,
    ensures
        final(map)@ == with_row(old(map)@, y as int, word),
        final(map)@.wf(),
{
    let width: u32 = map.width();
    let shifted: u64 = word >> (padding_of(width) as u64);
    let mut x: u32 = 0;
    while x < width
        invariant
            x <= width,
            width == map@.width,
            map@.width == old(map)@.width,
            map@.height == old(map)@.height,
            y < map@.height,
            map@.wf(),
            old(map)@.wf(),
            shifted == word >> (padding(width as nat) as u64),
            forall|p: (int, int)|
                map@.pixels.contains(p) == (if p.1 == y && width - x <= p.0 {
                    unpacked_pixel(word, width as nat, p.0)
                } else {
                    old(map)@.pixels.contains(p)
                }),
        decreases width - x,
    {
        let lit: bool = x < 64 && (shifted >> (x as u64)) & 1u64 == 1u64;
        let ghost before = map@;
        map.set(width - x - 1, y, lit);
        proof {
            let column = width - x - 1;
            assert(lit == unpacked_pixel(word, width as nat, column));
            assert forall|p: (int, int)|
                map@.pixels.contains(p) == (if p.1 == y && width - (x + 1) <= p.0 {
                    unpacked_pixel(word, width as nat, p.0)
                } else {
                    old(map)@.pixels.contains(p)
                }) by {
                if p == (column, y as int) {
                } else {
                    assert(map@.pixels.contains(p) == before.pixels.contains(p));
                }
            }
        }
        x += 1;
    }
    proof {
        let wanted = with_row(old(map)@, y as int, word);
        let was = old(map)@;
        assert forall|p: (int, int)| map@.pixels.contains(p) == wanted.pixels.contains(p) by {
            if p.1 == y && !(0 <= p.0) {
                assert(!was.pixels.contains(p));
            }
        }
        assert(map@.pixels =~= wanted.pixels);
    }
}

} // verus!
