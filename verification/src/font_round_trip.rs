//! A whole font that is written reads back: the records one after the
//! other, and the font that they make.

use crate::bounding_box::BoundingBox;
use crate::direction::Direction;
use crate::entry::EntryView;
use crate::error::ErrorView;
use crate::font::FontView;
use crate::glyph::GlyphView;
use crate::reader::line::Keyword;
use crate::reader::reader::{
    lemma_next_record_moves, lemma_skip_blank_is, next_record, records, ReaderState,
};
use crate::reader::{assembled, font_of, Assembly, Step};
use crate::round_trip::{
    bare, is_line, lemma_bare_keyword, lemma_hex_solid, lemma_line_reads_back,
    lemma_lines_of_joined, lemma_rows_read_back, lemma_solid, reads_back,
};
use crate::row::{lemma_unpack_pack, pack, packs_whole, row_word};
use crate::table::{lemma_position_is, put, unique_keys};
use crate::text::lines;
use crate::writer::writer::{join_lines, line_of, lines_of, rows_of};
use crate::writer::{
    font_entries, glyph_entries, glyphs_entries, glyphs_valid, head_entries, metrics_entries,
    optional, properties_entries, property_entries, text_of_all, text_of_font,
};
use vstd::prelude::*;

verus! {

/// The lines of some records, one record after the other.
pub open spec fn lines_of_all(entries: Seq<EntryView>) -> Seq<Seq<char>>
    decreases entries.len(),
{
    if entries.len() == 0 {
        Seq::empty()
    } else {
        lines_of_all(entries.drop_last()) + lines_of(entries.last())
    }
}

/// The bounding boxes that a reader has met once it has read the given
/// records: that of the font, and that of the glyph.
pub open spec fn bounds_after(entries: Seq<EntryView>) -> (
    Option<BoundingBox>,
    Option<BoundingBox>,
)
    decreases entries.len(),
{
    if entries.len() == 0 {
        (None, None)
    } else {
        let (default, current) = bounds_after(entries.drop_last());
        match entries.last() {
            EntryView::FontBoundingBox(b) => (Some(b), current),
            EntryView::BoundingBox(b) => (default, Some(b)),
            EntryView::Bitmap(_) => (default, None),
            _ => (default, current),
        }
    }
}

/// The state of a reader that has read the first `i` of the given records
/// from the text that is written for them.
pub open spec fn state_after(entries: Seq<EntryView>, i: int) -> ReaderState {
    ReaderState {
        lines: lines_of_all(entries),
        pos: lines_of_all(entries.take(i)).len(),
        default: bounds_after(entries.take(i)).0,
        current: bounds_after(entries.take(i)).1,
    }
}

/// Whether the record `i` of the list reads back where it stands: it reads
/// back by itself, and where it is a bitmap, the bounding box that the
/// records before it leave is of its size.
pub open spec fn reads_back_at(entries: Seq<EntryView>, i: int) -> bool {
    &&& reads_back(entries[i])
    &&& entries[i] matches EntryView::Bitmap(map) ==> {
        &&& map.wf()
        &&& state_after(entries, i).bounds() matches Some(b)
        &&& b.width == map.width
        &&& b.height == map.height
    }
}

/// Whether every record of the list reads back where it stands.
pub open spec fn all_read_back(entries: Seq<EntryView>) -> bool {
    forall|i: int| 0 <= i < entries.len() ==> reads_back_at(entries, i)
}

/// The text of lines that follow others.
pub proof fn lemma_join_add(a: Seq<Seq<char>>, b: Seq<Seq<char>>)
    ensures
        join_lines(a + b) == join_lines(a) + join_lines(b),
    decreases b.len(),
{
    if b.len() == 0 {
        assert(a + b =~= a);
        assert(join_lines(a) + join_lines(b) =~= join_lines(a));
    } else {
        lemma_join_add(a, b.drop_last());
        assert((a + b).drop_last() =~= a + b.drop_last());
        assert((a + b).last() == b.last());
        assert(join_lines(a + b) =~= join_lines(a) + join_lines(b));
    }
}

/// The text of some records is the text of their lines.
pub proof fn lemma_text_is_lines(entries: Seq<EntryView>)
    ensures
        text_of_all(entries) == join_lines(lines_of_all(entries)),
    decreases entries.len(),
{
    if entries.len() > 0 {
        lemma_text_is_lines(entries.drop_last());
        lemma_join_add(lines_of_all(entries.drop_last()), lines_of(entries.last()));
    }
}

/// The lines of records that follow others.
pub proof fn lemma_lines_add(a: Seq<EntryView>, b: Seq<EntryView>)
    ensures
        lines_of_all(a + b) == lines_of_all(a) + lines_of_all(b),
    decreases b.len(),
{
    if b.len() == 0 {
        assert(a + b =~= a);
        assert(lines_of_all(a) + lines_of_all(b) =~= lines_of_all(a));
    } else {
        lemma_lines_add(a, b.drop_last());
        assert((a + b).drop_last() =~= a + b.drop_last());
        assert((a + b).last() == b.last());
        assert(lines_of_all(a + b) =~= lines_of_all(a) + lines_of_all(b));
    }
}

/// Where the lines of record `i` stand among the lines of all records.
pub proof fn lemma_lines_at(entries: Seq<EntryView>, i: int)
    requires
        0 <= i < entries.len(),
    ensures
        lines_of_all(entries.take(i + 1)) == lines_of_all(entries.take(i)) + lines_of(entries[i]),
        lines_of_all(entries) == lines_of_all(entries.take(i + 1)) + lines_of_all(
            entries.skip(i + 1),
        ),
        lines_of(entries[i]).len() >= 1,
{
    assert(entries.take(i + 1).drop_last() =~= entries.take(i));
    assert(entries.take(i + 1).last() == entries[i]);
    assert(entries =~= entries.take(i + 1) + entries.skip(i + 1));
    lemma_lines_add(entries.take(i + 1), entries.skip(i + 1));
}

/// The lines of a record that reads back are lines.
pub proof fn lemma_record_lines(entry: EntryView)
    requires
        reads_back(entry),
    ensures
        forall|j: int| 0 <= j < lines_of(entry).len() ==> is_line(#[trigger] lines_of(entry)[j]),
        lines_of(entry).len() >= 1,
        lines_of(entry)[0] == line_of(entry),
        lines_of(entry)[0].len() > 0,
{
    match entry {
        EntryView::Bitmap(map) => {
            lemma_bare_keyword(Keyword::Bitmap);
            let written = lines_of(entry);
            assert forall|j: int| 0 <= j < written.len() implies is_line(#[trigger] written[j]) by {
                if j > 0 {
                    assert(written[j] == rows_of(map)[j - 1]);
                    lemma_hex_solid(row_word(map, j - 1) as nat);
                    lemma_solid(written[j]);
                }
            }
        },
        _ => {
            lemma_line_reads_back(entry, 0);
        },
    }
}

/// The lines of records that read back are lines.
pub proof fn lemma_all_lines(entries: Seq<EntryView>)
    requires
        forall|i: int| 0 <= i < entries.len() ==> reads_back(#[trigger] entries[i]),
    ensures
        forall|j: int|
            0 <= j < lines_of_all(entries).len() ==> is_line(#[trigger] lines_of_all(entries)[j]),
    decreases entries.len(),
{
    if entries.len() > 0 {
        let before = entries.drop_last();
        assert forall|i: int| 0 <= i < before.len() implies reads_back(#[trigger] before[i]) by {
            assert(before[i] == entries[i]);
        }
        lemma_all_lines(before);
        assert(reads_back(entries[entries.len() - 1]));
        lemma_record_lines(entries.last());
        let all = lines_of_all(entries);
        let a = lines_of_all(before);
        let b = lines_of(entries.last());
        assert forall|j: int| 0 <= j < all.len() implies is_line(#[trigger] all[j]) by {
            if j < a.len() {
                assert(all[j] == a[j]);
            } else {
                assert(all[j] == b[j - a.len()]);
            }
        }
    }
}

/// The lines of the text of records that read back are the lines of the
/// records.
pub proof fn lemma_lines_of_text(entries: Seq<EntryView>)
    requires
        forall|i: int| 0 <= i < entries.len() ==> reads_back(#[trigger] entries[i]),
    ensures
        lines(text_of_all(entries)) == lines_of_all(entries),
{
    lemma_text_is_lines(entries);
    lemma_all_lines(entries);
    lemma_lines_of_joined(lines_of_all(entries));
}

/// A reader that has read the first `i` records reads record `i` next.
pub proof fn lemma_reads_record(entries: Seq<EntryView>, i: int)
    requires
        0 <= i < entries.len(),
        reads_back_at(entries, i),
    ensures
        next_record(state_after(entries, i)) == (
            Ok::<EntryView, ErrorView>(entries[i]),
            state_after(entries, i + 1),
        ),
{
    let st = state_after(entries, i);
    let entry = entries[i];
    let all = st.lines;
    let at = st.pos;
    lemma_lines_at(entries, i);
    lemma_record_lines(entry);
    let written = lines_of(entry);
    let before = lines_of_all(entries.take(i));
    let rest = lines_of_all(entries.skip(i + 1));
    assert(all == before + written + rest);
    assert(all[at as int] == written[0]);
    lemma_skip_blank_is(all, at, at);
    assert(entries.take(i + 1).drop_last() =~= entries.take(i));
    assert(entries.take(i + 1).last() == entry);
    match entry {
        EntryView::Bitmap(map) => {
            lemma_bare_keyword(Keyword::Bitmap);
            assert forall|y: int| 0 <= y < map.height implies all[at + 1 + y]
                == #[trigger] rows_of(map)[y] by {
                assert(all[at + 1 + y] == written[1 + y]);
            }
            lemma_rows_read_back(map, all, at + 1, map.height);
            assert(pack(map).take(map.height as int) =~= pack(map));
            lemma_unpack_pack(map);
        },
        _ => {
            lemma_line_reads_back(entry, at + 1);
            assert(written =~= seq![line_of(entry)]);
        },
    }
}

/// A reader that has read the first `i` records reads the other records,
/// one after the other, and nothing else.
pub proof fn lemma_reads_records_from(entries: Seq<EntryView>, i: int)
    requires
        0 <= i <= entries.len(),
        all_read_back(entries),
    ensures
        records(state_after(entries, i)).0 == Ok::<Seq<EntryView>, ErrorView>(entries.skip(i)),
    decreases entries.len() - i,
{
    let st = state_after(entries, i);
    if i == entries.len() {
        assert(entries.take(i) =~= entries);
        lemma_skip_blank_is(st.lines, st.pos, st.pos);
        assert(entries.skip(i) =~= Seq::<EntryView>::empty());
    } else {
        assert(reads_back_at(entries, i));
        lemma_reads_record(entries, i);
        lemma_lines_at(entries, i);
        lemma_reads_records_from(entries, i + 1);
        let next = state_after(entries, i + 1);
        assert(next.pos <= next.lines.len()) by {
            assert(next.lines == lines_of_all(entries.take(i + 1)) + lines_of_all(
                entries.skip(i + 1),
            ));
        }
        assert(seq![entries[i]] + entries.skip(i + 1) =~= entries.skip(i));
    }
}

/// Records that are written one after the other read back as they were
/// written, and nothing else is read from their text. This holds of every
/// list of records that read back, in which each bitmap comes under a
/// bounding box of its size.
pub proof fn lemma_written_records_read_back(entries: Seq<EntryView>)
    requires
        all_read_back(entries),
    ensures
        records(ReaderState::start(lines(text_of_all(entries)))).0 == Ok::<
            Seq<EntryView>,
            ErrorView,
        >(entries),
{
    assert forall|i: int| 0 <= i < entries.len() implies reads_back(#[trigger] entries[i]) by {
        assert(reads_back_at(entries, i));
    }
    lemma_lines_of_text(entries);
    lemma_reads_records_from(entries, 0);
    assert(entries.take(0) =~= Seq::<EntryView>::empty());
    assert(entries.skip(0) =~= entries);
    assert(state_after(entries, 0) == ReaderState::start(lines(text_of_all(entries))));
}

/// The font that a list of records makes of the assembly `a`: the records
/// are taken one by one up to the one that completes the font. A list that
/// ends before the font is complete gives the error `End`.
pub open spec fn assemble(a: Assembly, entries: Seq<EntryView>) -> Result<FontView, ErrorView>
    decreases entries.len(),
{
    if entries.len() == 0 {
        Err(ErrorView::End)
    } else {
        match a.step(entries[0]) {
            Step::Done(font) => Ok(font),
            Step::Fail(e) => Err(e),
            Step::Next(b) => assemble(b, entries.drop_first()),
        }
    }
}

/// The assembly that the records make of the assembly `a`, where none of
/// them completes the font or fails.
pub open spec fn run(a: Assembly, entries: Seq<EntryView>) -> Option<Assembly>
    decreases entries.len(),
{
    if entries.len() == 0 {
        Some(a)
    } else {
        match a.step(entries[0]) {
            Step::Next(b) => run(b, entries.drop_first()),
            _ => None,
        }
    }
}

/// Where the reader gives all its records without an error, the font that
/// is read is the font that these records make.
pub proof fn lemma_assembled_from_records(st: ReaderState, a: Assembly)
    requires
        st.pos <= st.lines.len(),
        records(st).0 is Ok,
    ensures
        assembled(st, a) == assemble(a, records(st).0->Ok_0),
    decreases st.lines.len() - st.pos,
{
    lemma_next_record_moves(st);
    let (record, next) = next_record(st);
    match record {
        Err(_) => {},
        Ok(entry) => {
            let rest = records(next).0->Ok_0;
            let all = seq![entry] + rest;
            assert(all[0] == entry);
            assert(all.drop_first() =~= rest);
            match a.step(entry) {
                Step::Next(b) => {
                    lemma_assembled_from_records(next, b);
                },
                _ => {},
            }
        },
    }
}

/// Records that follow others go on from the assembly that the others
/// made.
pub proof fn lemma_run_add(a: Assembly, x: Seq<EntryView>, y: Seq<EntryView>)
    ensures
        run(a, x + y) == match run(a, x) {
            Some(b) => run(b, y),
            None => None,
        },
        run(a, x) matches Some(b) ==> assemble(a, x + y) == assemble(b, y),
    decreases x.len(),
{
    if x.len() == 0 {
        assert(x + y =~= y);
    } else {
        assert((x + y)[0] == x[0]);
        assert((x + y).drop_first() =~= x.drop_first() + y);
        match a.step(x[0]) {
            Step::Next(b) => {
                lemma_run_add(b, x.drop_first(), y);
            },
            _ => {},
        }
    }
}

/// What one record makes of an assembly.
pub proof fn lemma_run_one(a: Assembly, entry: EntryView)
    ensures
        run(a, seq![entry]) == match a.step(entry) {
            Step::Next(b) => Some(b),
            _ => None::<Assembly>,
        },
{
    let one = seq![entry];
    assert(one[0] == entry);
    assert(one.drop_first() =~= Seq::<EntryView>::empty());
    match a.step(entry) {
        Step::Next(b) => {
            assert(run(b, Seq::<EntryView>::empty()) == Some(b));
        },
        _ => {},
    }
}

/// Whether every record of the list reads back, and every bitmap stands
/// directly behind the bounding box of a glyph of its size.
pub open spec fn well_placed(entries: Seq<EntryView>) -> bool {
    forall|i: int|
        0 <= i < entries.len() ==> {
            &&& reads_back(#[trigger] entries[i])
            &&& entries[i] matches EntryView::Bitmap(map) ==> {
                &&& map.wf()
                &&& i > 0
                &&& entries[i - 1] matches EntryView::BoundingBox(b)
                &&& b.width == map.width
                &&& b.height == map.height
            }
        }
}

/// Lists of well placed records make a list of well placed records.
pub proof fn lemma_well_placed_add(a: Seq<EntryView>, b: Seq<EntryView>)
    requires
        well_placed(a),
        well_placed(b),
    ensures
        well_placed(a + b),
{
    let all = a + b;
    assert forall|i: int| 0 <= i < all.len() implies {
        &&& reads_back(#[trigger] all[i])
        &&& all[i] matches EntryView::Bitmap(map) ==> {
            &&& map.wf()
            &&& i > 0
            &&& all[i - 1] matches EntryView::BoundingBox(b)
            &&& b.width == map.width
            &&& b.height == map.height
        }
    } by {
        if i < a.len() {
            assert(all[i] == a[i]);
            if i > 0 {
                assert(all[i - 1] == a[i - 1]);
            }
        } else {
            assert(all[i] == b[i - a.len()]);
            if i - a.len() > 0 {
                assert(all[i - 1] == b[i - a.len() - 1]);
            }
        }
    }
}

/// Well placed records read back where they stand.
pub proof fn lemma_well_placed_read_back(entries: Seq<EntryView>)
    requires
        well_placed(entries),
    ensures
        all_read_back(entries),
{
    assert forall|i: int| 0 <= i < entries.len() implies reads_back_at(entries, i) by {
        assert(reads_back(entries[i]));
        if entries[i] is Bitmap {
            let before = entries.take(i);
            assert(before.last() == entries[i - 1]);
        }
    }
}

/// Whether a glyph that stands under the given codepoint reads back from
/// the text that is written for it.
///
/// Its codepoint is the one that it stands under. Its name is its own trim
/// and holds no line feed. It has the default direction, and neither
/// alternate widths nor a vector: the records of these may not stand in a
/// character. Its bounding box has the size of its bitmap, and every lit
/// pixel has a bit of its own in the word of its row.
pub open spec fn glyph_reads_back(codepoint: char, glyph: GlyphView) -> bool {
    &&& glyph.codepoint == Some(codepoint)
    &&& glyph.name matches Some(name) && bare(name)
    &&& glyph.direction == Direction::Default
    &&& glyph.alternate_scalable_width is None
    &&& glyph.alternate_device_width is None
    &&& glyph.vector is None
    &&& glyph.bounds matches Some(b) && b.width == glyph.map.width && b.height == glyph.map.height
    &&& glyph.map.wf()
    &&& packs_whole(glyph.map)
}

/// Whether a font reads back from the text that is written for it.
///
/// Its format, its name and its version are their own trim and hold no line
/// feed. It has a size and a bounding box. It has the default direction and
/// no metrics of its own: the records of these may not stand in the font
/// outside a character. No name stands twice among its properties, and each
/// property reads back. No codepoint stands twice among its glyphs, and
/// each glyph reads back.
pub open spec fn font_reads_back(font: FontView) -> bool {
    &&& bare(font.format)
    &&& font.name matches Some(name) && bare(name)
    &&& font.version matches Some(version) ==> bare(version)
    &&& font.size is Some
    &&& font.bounds is Some
    &&& font.direction == Direction::Default
    &&& font.scalable_width is None
    &&& font.device_width is None
    &&& font.alternate_scalable_width is None
    &&& font.alternate_device_width is None
    &&& font.vector is None
    &&& unique_keys(font.properties)
    &&& forall|i: int|
        0 <= i < font.properties.len() ==> reads_back(
            EntryView::Property((#[trigger] font.properties[i]).0, font.properties[i].1),
        )
    &&& unique_keys(font.glyphs)
    &&& forall|i: int|
        0 <= i < font.glyphs.len() ==> glyph_reads_back(
            (#[trigger] font.glyphs[i]).0,
            font.glyphs[i].1,
        )
}

/// The font with only the first `properties` of its properties and the
/// first `glyphs` of its glyphs.
pub open spec fn partial(font: FontView, properties: int, glyphs: int) -> FontView {
    FontView {
        properties: font.properties.take(properties),
        glyphs: font.glyphs.take(glyphs),
        ..font
    }
}

/// The assembly that holds the given font and stands in the font, outside
/// its properties and characters.
pub open spec fn in_font(font: FontView) -> Assembly {
    Assembly {
        font,
        glyph: GlyphView::empty(),
        in_font: true,
        in_properties: false,
        in_char: false,
    }
}

/// What a record and the records behind it make of an assembly.
pub proof fn lemma_run_first(a: Assembly, entry: EntryView, rest: Seq<EntryView>)
    ensures
        run(a, seq![entry] + rest) == match a.step(entry) {
            Step::Next(b) => run(b, rest),
            _ => None,
        },
{
    let all = seq![entry] + rest;
    assert(all[0] == entry);
    assert(all.drop_first() =~= rest);
}

/// A list of one record that reads back and is no bitmap is well placed.
pub proof fn lemma_well_placed_one(entry: EntryView)
    requires
        reads_back(entry),
        !(entry is Bitmap),
    ensures
        well_placed(seq![entry]),
{
}

/// A record that may be there and reads back is well placed.
pub proof fn lemma_well_placed_optional(entry: Option<EntryView>)
    requires
        entry matches Some(e) ==> reads_back(e) && !(e is Bitmap),
    ensures
        well_placed(optional(entry)),
{
}

/// The records of the head of a font that reads back are well placed, and
/// make the font without its properties and glyphs.
pub proof fn lemma_head(font: FontView)
    requires
        font_reads_back(font),
    ensures
        well_placed(head_entries(font)),
        run(Assembly::start(), head_entries(font)) == Some(in_font(partial(font, 0, 0))),
{
    let start = EntryView::StartFont(font.format);
    let name = EntryView::Font(font.name->0);
    let size = EntryView::Size(font.size->0.pt, font.size->0.x, font.size->0.y);
    let bounds = EntryView::FontBoundingBox(font.bounds->0);
    let version = optional(
        match font.version {
            Some(version) => Some(EntryView::ContentVersion(version)),
            None => None,
        },
    );
    let metrics = metrics_entries(
        font.direction,
        font.scalable_width,
        font.device_width,
        font.alternate_scalable_width,
        font.alternate_device_width,
        font.vector,
    );
    assert(metrics =~= Seq::<EntryView>::empty());
    let tail = version + seq![bounds];
    assert(head_entries(font) =~= seq![start] + (seq![name] + (seq![size] + tail)));

    lemma_well_placed_one(start);
    lemma_well_placed_one(name);
    lemma_well_placed_one(size);
    lemma_well_placed_one(bounds);
    lemma_well_placed_optional(
        match font.version {
            Some(version) => Some(EntryView::ContentVersion(version)),
            None => None,
        },
    );
    lemma_well_placed_add(version, seq![bounds]);
    lemma_well_placed_add(seq![size], tail);
    lemma_well_placed_add(seq![name], seq![size] + tail);
    lemma_well_placed_add(seq![start], seq![name] + (seq![size] + tail));

    let a0 = Assembly::start();
    let a1 = Assembly { font: FontView { format: font.format, ..a0.font }, in_font: true, ..a0 };
    let a2 = Assembly { font: FontView { name: font.name, ..a1.font }, ..a1 };
    let a3 = Assembly { font: FontView { size: font.size, ..a2.font }, ..a2 };
    lemma_run_first(a0, start, seq![name] + (seq![size] + tail));
    lemma_run_first(a1, name, seq![size] + tail);
    lemma_run_first(a2, size, tail);
    let a4 = Assembly { font: FontView { version: font.version, ..a3.font }, ..a3 };
    match font.version {
        Some(v) => {
            assert(tail =~= seq![EntryView::ContentVersion(v)] + seq![bounds]);
            lemma_run_first(a3, EntryView::ContentVersion(v), seq![bounds]);
        },
        None => {
            assert(tail =~= seq![bounds]);
            assert(a4 == a3);
        },
    }
    lemma_run_one(a4, bounds);
    let a5 = Assembly { font: FontView { bounds: font.bounds, ..a4.font }, ..a4 };
    assert(a5.font.properties =~= font.properties.take(0));
    assert(a5.font.glyphs =~= font.glyphs.take(0));
    assert(a5 == in_font(partial(font, 0, 0)));
}

/// The assembly that holds the given font and stands among its properties.
pub open spec fn in_properties(font: FontView) -> Assembly {
    Assembly { in_properties: true, ..in_font(font) }
}

/// Putting entry `k` of a table without a key twice behind the entries
/// before it gives the entries up to it.
pub proof fn lemma_put_next<K, V>(s: Seq<(K, V)>, k: int)
    requires
        unique_keys(s),
        0 <= k < s.len(),
    ensures
        put(s.take(k), s[k].0, s[k].1) == s.take(k + 1),
{
    let before = s.take(k);
    assert forall|j: int| 0 <= j < k implies (#[trigger] before[j]).0 != s[k].0 by {
        assert(before[j] == s[j]);
    }
    lemma_position_is(before, s[k].0, k);
    assert(before.push((s[k].0, s[k].1)) =~= s.take(k + 1));
}

/// The records of the first `k` properties are well placed, and make the
/// font with these properties.
pub proof fn lemma_property_records(font: FontView, k: int)
    requires
        font_reads_back(font),
        0 <= k <= font.properties.len(),
    ensures
        well_placed(property_entries(font.properties, k as nat)),
        run(in_properties(partial(font, 0, 0)), property_entries(font.properties, k as nat))
            == Some(in_properties(partial(font, k, 0))),
    decreases k,
{
    let a = in_properties(partial(font, 0, 0));
    if k == 0 {
    } else {
        lemma_property_records(font, k - 1);
        let before = property_entries(font.properties, (k - 1) as nat);
        let name = font.properties[k - 1].0;
        let value = font.properties[k - 1].1;
        let entry = EntryView::Property(name, value);
        assert(property_entries(font.properties, k as nat) =~= before + seq![entry]);
        lemma_well_placed_one(entry);
        lemma_well_placed_add(before, seq![entry]);
        lemma_run_add(a, before, seq![entry]);
        let b = in_properties(partial(font, k - 1, 0));
        lemma_run_one(b, entry);
        lemma_put_next(font.properties, k - 1);
    }
}

/// The records of the properties of a font that reads back are well
/// placed, and make the font with its properties.
pub proof fn lemma_properties(font: FontView)
    requires
        font_reads_back(font),
    ensures
        well_placed(properties_entries(font.properties)),
        run(in_font(partial(font, 0, 0)), properties_entries(font.properties)) == Some(
            in_font(partial(font, font.properties.len() as int, 0)),
        ),
{
    let n = font.properties.len();
    if n == 0 {
    } else {
        let first = EntryView::StartProperties(n as usize);
        let middle = property_entries(font.properties, n);
        let last = EntryView::EndProperties;
        assert(properties_entries(font.properties) =~= seq![first] + (middle + seq![last]));
        lemma_property_records(font, n as int);
        lemma_well_placed_one(first);
        lemma_well_placed_one(last);
        lemma_well_placed_add(middle, seq![last]);
        lemma_well_placed_add(seq![first], middle + seq![last]);
        lemma_run_first(in_font(partial(font, 0, 0)), first, middle + seq![last]);
        lemma_run_add(in_properties(partial(font, 0, 0)), middle, seq![last]);
        lemma_run_one(in_properties(partial(font, n as int, 0)), last);
    }
}

/// The records of a glyph that reads back are well placed, and put the
/// glyph into the font under its codepoint.
pub proof fn lemma_glyph(font: FontView, codepoint: char, glyph: GlyphView)
    requires
        glyph_reads_back(codepoint, glyph),
    ensures
        well_placed(glyph_entries(codepoint, glyph)),
        run(in_font(font), glyph_entries(codepoint, glyph)) == Some(
            in_font(FontView { glyphs: put(font.glyphs, codepoint, glyph), ..font }),
        ),
{
    let start = EntryView::StartChar(glyph.name->0);
    let encoding = EntryView::Encoding(codepoint);
    let scalable = match glyph.scalable_width {
        Some((x, y)) => Some(EntryView::ScalableWidth(x, y)),
        None => None,
    };
    let device = match glyph.device_width {
        Some((x, y)) => Some(EntryView::DeviceWidth(x, y)),
        None => None,
    };
    let bounds = EntryView::BoundingBox(glyph.bounds->0);
    let map = EntryView::Bitmap(glyph.map);
    let end = EntryView::EndChar;
    let last = seq![bounds] + (seq![map] + seq![end]);
    let metrics = metrics_entries(
        glyph.direction,
        glyph.scalable_width,
        glyph.device_width,
        glyph.alternate_scalable_width,
        glyph.alternate_device_width,
        glyph.vector,
    );
    assert(metrics =~= optional(scalable) + optional(device));
    let tail = optional(scalable) + (optional(device) + last);
    assert(glyph_entries(codepoint, glyph) =~= seq![start] + (seq![encoding] + tail));

    assert(well_placed(last)) by {
        assert(last =~= seq![bounds, map, end]);
    }
    lemma_well_placed_one(start);
    lemma_well_placed_one(encoding);
    lemma_well_placed_optional(scalable);
    lemma_well_placed_optional(device);
    lemma_well_placed_add(optional(device), last);
    lemma_well_placed_add(optional(scalable), optional(device) + last);
    lemma_well_placed_add(seq![encoding], tail);
    lemma_well_placed_add(seq![start], seq![encoding] + tail);

    let a0 = in_font(font);
    let g0 = GlyphView::empty();
    let g1 = GlyphView { name: glyph.name, ..g0 };
    let a1 = Assembly { glyph: g1, in_char: true, ..a0 };
    lemma_run_first(a0, start, seq![encoding] + tail);
    let g2 = GlyphView { codepoint: Some(codepoint), ..g1 };
    let a2 = Assembly { glyph: g2, ..a1 };
    lemma_run_first(a1, encoding, tail);
    let g3 = GlyphView { scalable_width: glyph.scalable_width, ..g2 };
    let a3 = Assembly { glyph: g3, ..a2 };
    match glyph.scalable_width {
        Some((x, y)) => {
            assert(tail =~= seq![EntryView::ScalableWidth(x, y)] + (optional(device) + last));
            lemma_run_first(a2, EntryView::ScalableWidth(x, y), optional(device) + last);
        },
        None => {
            assert(tail =~= optional(device) + last);
            assert(a3 == a2);
        },
    }
    let g4 = GlyphView { device_width: glyph.device_width, ..g3 };
    let a4 = Assembly { glyph: g4, ..a3 };
    match glyph.device_width {
        Some((x, y)) => {
            assert(optional(device) + last =~= seq![EntryView::DeviceWidth(x, y)] + last);
            lemma_run_first(a3, EntryView::DeviceWidth(x, y), last);
        },
        None => {
            assert(optional(device) + last =~= last);
            assert(a4 == a3);
        },
    }
    let g5 = GlyphView { bounds: glyph.bounds, ..g4 };
    let a5 = Assembly { glyph: g5, ..a4 };
    lemma_run_first(a4, bounds, seq![map] + seq![end]);
    let g6 = GlyphView { map: glyph.map, ..g5 };
    let a6 = Assembly { glyph: g6, ..a5 };
    lemma_run_first(a5, map, seq![end]);
    lemma_run_one(a6, end);
    assert(g6 == glyph);
}

/// The records of the first `k` glyphs of a font that reads back are well
/// placed, and make the font with these glyphs.
pub proof fn lemma_glyphs(font: FontView, k: int)
    requires
        font_reads_back(font),
        0 <= k <= font.glyphs.len(),
    ensures
        well_placed(glyphs_entries(font.glyphs, k as nat)),
        run(
            in_font(partial(font, font.properties.len() as int, 0)),
            glyphs_entries(font.glyphs, k as nat),
        ) == Some(in_font(partial(font, font.properties.len() as int, k))),
    decreases k,
{
    let np = font.properties.len() as int;
    let a = in_font(partial(font, np, 0));
    if k == 0 {
    } else {
        lemma_glyphs(font, k - 1);
        let before = glyphs_entries(font.glyphs, (k - 1) as nat);
        let codepoint = font.glyphs[k - 1].0;
        let glyph = font.glyphs[k - 1].1;
        let these = glyph_entries(codepoint, glyph);
        let b = partial(font, np, k - 1);
        assert(glyph_reads_back(codepoint, glyph));
        lemma_glyph(b, codepoint, glyph);
        lemma_well_placed_add(before, these);
        lemma_run_add(a, before, these);
        lemma_put_next(font.glyphs, k - 1);
        assert(FontView { glyphs: put(b.glyphs, codepoint, glyph), ..b } == partial(font, np, k));
    }
}

/// The font that the records of a font that reads back make is that font,
/// and the records are well placed.
pub proof fn lemma_font_records(font: FontView)
    requires
        font_reads_back(font),
    ensures
        well_placed(font_entries(font)),
        assemble(Assembly::start(), font_entries(font)) == Ok::<FontView, ErrorView>(font),
{
    let np = font.properties.len() as int;
    let ng = font.glyphs.len() as int;
    let head = head_entries(font);
    let properties = properties_entries(font.properties);
    let chars = EntryView::Chars(font.glyphs.len() as usize);
    let glyphs = glyphs_entries(font.glyphs, font.glyphs.len());
    let end = EntryView::EndFont;
    lemma_head(font);
    lemma_properties(font);
    lemma_glyphs(font, ng);
    lemma_well_placed_one(chars);
    lemma_well_placed_one(end);

    let a = head + properties;
    let b = a + seq![chars];
    let c = b + glyphs;
    assert(font_entries(font) == c + seq![end]);
    lemma_well_placed_add(head, properties);
    lemma_well_placed_add(a, seq![chars]);
    lemma_well_placed_add(b, glyphs);
    lemma_well_placed_add(c, seq![end]);

    let start = Assembly::start();
    lemma_run_add(start, head, properties);
    lemma_run_add(start, a, seq![chars]);
    lemma_run_one(in_font(partial(font, np, 0)), chars);
    lemma_run_add(start, b, glyphs);
    lemma_run_add(start, c, seq![end]);
    let last = in_font(partial(font, np, ng));
    assert(run(start, c) == Some(last));
    let one = seq![end];
    assert(one[0] == end);
    assert(partial(font, np, ng).properties =~= font.properties);
    assert(partial(font, np, ng).glyphs =~= font.glyphs);
    assert(partial(font, np, ng) == font);
}

/// A font that is written reads back: the text of a font that
/// `font_reads_back` admits holds that font.
pub proof fn lemma_written_font_reads_back(font: FontView)
    requires
        font_reads_back(font),
    ensures
        text_of_font(font) == Ok::<Seq<char>, ErrorView>(text_of_all(font_entries(font))),
        font_of(text_of_all(font_entries(font))) == Ok::<FontView, ErrorView>(font),
{
    assert(font.valid());
    assert(glyphs_valid(font.glyphs)) by {
        assert forall|i: int| 0 <= i < font.glyphs.len() implies (
        #[trigger] font.glyphs[i]).1.valid() by {
            assert(glyph_reads_back(font.glyphs[i].0, font.glyphs[i].1));
        }
    }
    let entries = font_entries(font);
    lemma_font_records(font);
    lemma_well_placed_read_back(entries);
    lemma_written_records_read_back(entries);
    let st = ReaderState::start(lines(text_of_all(entries)));
    lemma_assembled_from_records(st, Assembly::start());
}

} // verus!
