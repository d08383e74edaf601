//! The reader: lines in, records out.

use crate::bitmap::{size_fits, Bitmap};
use crate::bounding_box::BoundingBox;
use crate::entry::{Entry, EntryView};
use crate::error::{Error, ErrorView};
use crate::number::{parse_int, parse_integer, IntErrorKind};
use crate::reader::line::{
    decode_line, keyword_named, keyword_of, record_of_line, record_view, tokenize, tokens, Keyword,
};
use crate::row::{unpack, unpack_row};
use crate::text::string_of;
use vstd::prelude::*;

verus! {

/// What a reader holds: the lines of its input, how many of them it has
/// read, and the bounding boxes that it has met.
pub struct ReaderState {
    /// The lines of the input.
    pub lines: Seq<Seq<char>>,
    /// The number of lines that are read.
    pub pos: nat,
    /// The bounding box of the font, once it was read.
    pub default: Option<BoundingBox>,
    /// The bounding box of the glyph, from where it was read up to the end
    /// of the bitmap that follows it.
    pub current: Option<BoundingBox>,
}

impl ReaderState {
    /// The state of a reader that has read nothing of the given lines.
    pub open spec fn start(lines: Seq<Seq<char>>) -> ReaderState {
        ReaderState { lines, pos: 0, default: None, current: None }
    }

    /// The bounding box that a bitmap goes by: that of the glyph, or else
    /// that of the font.
    pub open spec fn bounds(self) -> Option<BoundingBox> {
        match self.current {
            Some(b) => Some(b),
            None => self.default,
        }
    }
}

/// The first place from `pos` on that holds a line that is not empty, or the
/// number of lines where there is none.
pub open spec fn skip_blank(lines: Seq<Seq<char>>, pos: nat) -> nat
    decreases lines.len() - pos,
{
    if pos < lines.len() && lines[pos as int].len() == 0 {
        skip_blank(lines, pos + 1)
    } else {
        pos
    }
}

/// The words of `count` rows of a bitmap, read from the lines from `start`
/// on, and the number of lines that are read after that. The first line that
/// is missing, or that is no number in base 16 of at most 64 bits, ends the
/// reading with its error.
pub open spec fn read_rows(lines: Seq<Seq<char>>, start: nat, count: nat) -> (
    Result<Seq<u64>, ErrorView>,
    nat,
)
    decreases count,
{
    if count == 0 {
        (Ok(Seq::empty()), start)
    } else {
        let (before, pos) = read_rows(lines, start, (count - 1) as nat);
        match before {
            Err(e) => (Err(e), pos),
            Ok(words) => if pos >= lines.len() {
                (Err(ErrorView::End), pos)
            } else {
                match parse_int(lines[pos as int], 16, 0, u64::MAX as int) {
                    Err(error) => (
                        Err(
                            ErrorView::Parse {
                                error,
                                line_number: pos + 1,
                                line: lines[pos as int],
                            },
                        ),
                        pos + 1,
                    ),
                    Ok(v) => (Ok(words.push(v as u64)), pos + 1),
                }
            },
        }
    }
}

/// The record of a bitmap whose first line stands at `at`, and the state of
/// the reader after it. The size of the bitmap is that of the bounding box
/// of the glyph, or else of the font; one row is read for each line of its
/// height. Once the bitmap is read, the bounding box of the glyph is
/// forgotten.
///
/// Without a bounding box the result is `MissingBoundingBox`. A bounding box
/// of more pixels than a bitmap can have is refused, as a number that is too
/// large, before any row is read.
pub open spec fn bitmap_record(st: ReaderState, at: nat) -> (
    Result<EntryView, ErrorView>,
    ReaderState,
) {
    let line = st.lines[at as int];
    match st.bounds() {
        None => (
            Err(ErrorView::MissingBoundingBox { line_number: at + 1, line }),
            ReaderState { pos: at + 1, ..st },
        ),
        Some(b) => if !size_fits(b.width as int, b.height as int) {
            (
                Err(
                    ErrorView::Parse {
                        error: IntErrorKind::PosOverflow,
                        line_number: at + 1,
                        line,
                    },
                ),
                ReaderState { pos: at + 1, ..st },
            )
        } else {
            let (rows, pos) = read_rows(st.lines, at + 1, b.height as nat);
            match rows {
                Err(e) => (Err(e), ReaderState { pos, ..st }),
                Ok(words) => (
                    Ok(EntryView::Bitmap(unpack(words, b.width as nat, b.height as nat))),
                    ReaderState { pos, current: None, ..st },
                ),
            }
        },
    }
}

/// The next record of the input, and the state of the reader after it.
///
/// Empty lines are passed over. Where no line is left, the result is `End`.
/// A line with the keyword `BITMAP` is read together with the rows that
/// follow it. Any other line is a record by itself; the bounding box of
/// `FONTBOUNDINGBOX` is remembered as that of the font, the one of `BBX` as
/// that of the glyph.
pub open spec fn next_record(st: ReaderState) -> (Result<EntryView, ErrorView>, ReaderState) {
    let at = skip_blank(st.lines, st.pos);
    if at >= st.lines.len() {
        (Err(ErrorView::End), ReaderState { pos: at, ..st })
    } else {
        let line = st.lines[at as int];
        if keyword_named(tokens(line).0) == Some(Keyword::Bitmap) {
            bitmap_record(st, at)
        } else {
            let record = record_of_line(line, at + 1);
            (
                record,
                ReaderState {
                    pos: at + 1,
                    default: match record {
                        Ok(EntryView::FontBoundingBox(b)) => Some(b),
                        _ => st.default,
                    },
                    current: match record {
                        Ok(EntryView::BoundingBox(b)) => Some(b),
                        _ => st.current,
                    },
                    ..st
                },
            )
        }
    }
}

/// All the records from the state `st` on, up to the end of the input, and
/// the state of the reader after them; or the first error that is not the
/// end of the input.
pub open spec fn records(st: ReaderState) -> (Result<Seq<EntryView>, ErrorView>, ReaderState)
    decreases st.lines.len() - st.pos,
    via records_decreases
{
    let (record, next) = next_record(st);
    match record {
        Err(ErrorView::End) => (Ok(Seq::empty()), next),
        Err(e) => (Err(e), next),
        Ok(entry) => match records(next) {
            (Ok(rest), last) => (Ok(seq![entry] + rest), last),
            (Err(e), last) => (Err(e), last),
        },
    }
}

/// Every record leaves fewer lines to read.
#[via_fn]
proof fn records_decreases(st: ReaderState) {
    if st.pos <= st.lines.len() {
        lemma_next_record_moves(st);
    }
}

/// Where `skip_blank` ends: at or behind `pos`, not behind the last line,
/// and at a line that is not empty unless it is at the end.
pub proof fn lemma_skip_blank(lines: Seq<Seq<char>>, pos: nat)
    requires
        pos <= lines.len(),
    ensures
        pos <= skip_blank(lines, pos) <= lines.len(),
        skip_blank(lines, pos) < lines.len() ==> lines[skip_blank(lines, pos) as int].len() > 0,
        forall|i: int| pos <= i < skip_blank(lines, pos) ==> lines[i].len() == 0,
    decreases lines.len() - pos,
{
    if pos < lines.len() && lines[pos as int].len() == 0 {
        lemma_skip_blank(lines, pos + 1);
    }
}

/// `skip_blank` is the only place with the properties of `lemma_skip_blank`.
pub proof fn lemma_skip_blank_is(lines: Seq<Seq<char>>, pos: nat, at: nat)
    requires
        pos <= at <= lines.len(),
        forall|i: int| pos <= i < at ==> lines[i].len() == 0,
        at < lines.len() ==> lines[at as int].len() > 0,
    ensures
        skip_blank(lines, pos) == at,
    decreases at - pos,
{
    if pos < at {
        lemma_skip_blank_is(lines, pos + 1, at);
    }
}

/// Reading rows moves the reader on by at most one line for each row, and
/// not behind the last line.
pub proof fn lemma_read_rows_pos(lines: Seq<Seq<char>>, start: nat, count: nat)
    requires
        start <= lines.len(),
    ensures
        start <= read_rows(lines, start, count).1 <= lines.len(),
        read_rows(lines, start, count).1 <= start + count,
        read_rows(lines, start, count).0 is Ok ==> read_rows(lines, start, count).1 == start
            + count && read_rows(lines, start, count).0->Ok_0.len() == count,
    decreases count,
{
    if count > 0 {
        lemma_read_rows_pos(lines, start, (count - 1) as nat);
    }
}

/// A record moves the reader on by at least one line, but not behind the
/// last line, and leaves the lines as they are.
pub proof fn lemma_next_record_moves(st: ReaderState)
    requires
        st.pos <= st.lines.len(),
    ensures
        next_record(st).1.lines == st.lines,
        st.pos <= next_record(st).1.pos <= st.lines.len(),
        next_record(st).0 != Err::<EntryView, ErrorView>(ErrorView::End) ==> st.pos < next_record(
            st,
        ).1.pos,
{
    lemma_skip_blank(st.lines, st.pos);
    let at = skip_blank(st.lines, st.pos);
    if at < st.lines.len() {
        match st.bounds() {
            Some(b) => {
                lemma_read_rows_pos(st.lines, at + 1, b.height as nat);
            },
            None => {},
        }
    }
}

/// A bitmap needs a bounding box: where the reader has met none, a line
/// with the keyword `BITMAP` is the error `MissingBoundingBox`, with the
/// line and its number.
pub proof fn lemma_bitmap_needs_bounds(st: ReaderState)
    requires
        st.default is None,
        st.current is None,
        skip_blank(st.lines, st.pos) < st.lines.len(),
        keyword_named(tokens(st.lines[skip_blank(st.lines, st.pos) as int]).0) == Some(
            Keyword::Bitmap,
        ),
    ensures
        next_record(st).0 == Err::<EntryView, ErrorView>(
            ErrorView::MissingBoundingBox {
                line_number: skip_blank(st.lines, st.pos) + 1,
                line: st.lines[skip_blank(st.lines, st.pos) as int],
            },
        ),
        next_record(st).1.default is None,
        next_record(st).1.current is None,
{
}

/// Bounding boxes come from their records alone: the one of the font stays
/// as it is unless the record is `FONTBOUNDINGBOX`; the one of the glyph
/// stays as it is unless the record is `BBX`, or a bitmap, which forgets
/// it.
pub proof fn lemma_bounds_come_from_records(st: ReaderState)
    ensures
        match next_record(st).0 {
            Ok(EntryView::FontBoundingBox(b)) => next_record(st).1.default == Some(b),
            _ => next_record(st).1.default == st.default,
        },
        match next_record(st).0 {
            Ok(EntryView::BoundingBox(b)) => next_record(st).1.current == Some(b),
            Ok(EntryView::Bitmap(_)) => next_record(st).1.current is None,
            _ => next_record(st).1.current == st.current,
        },
{
    let at = skip_blank(st.lines, st.pos);
    if at < st.lines.len() {
        let line = st.lines[at as int];
        if keyword_named(tokens(line).0) == Some(Keyword::Bitmap) {
        } else {
            crate::reader::line::lemma_record_is_no_bitmap(line, at + 1);
        }
    }
}

/// The state of a reader after `k` more records, read or failed.
pub open spec fn state_after_records(st: ReaderState, k: nat) -> ReaderState
    decreases k,
{
    if k == 0 {
        st
    } else {
        next_record(state_after_records(st, (k - 1) as nat)).1
    }
}

/// Whether a record gives the reader a bounding box.
pub open spec fn gives_bounds(record: Result<EntryView, ErrorView>) -> bool {
    record matches Ok(entry) && (entry is FontBoundingBox || entry is BoundingBox)
}

/// A bitmap that comes before any bounding box is an error: where none of
/// the first `k` records of an input is `FONTBOUNDINGBOX` or `BBX`, a line
/// with the keyword `BITMAP` that comes next is `MissingBoundingBox`.
pub proof fn lemma_bitmap_before_bounds(lines: Seq<Seq<char>>, k: nat)
    requires
        forall|j: nat|
            j < k ==> !gives_bounds(
                next_record(#[trigger] state_after_records(ReaderState::start(lines), j)).0,
            ),
    ensures
        state_after_records(ReaderState::start(lines), k).default is None,
        state_after_records(ReaderState::start(lines), k).current is None,
        ({
            let st = state_after_records(ReaderState::start(lines), k);
            let at = skip_blank(st.lines, st.pos);
            at < st.lines.len() && keyword_named(tokens(st.lines[at as int]).0) == Some(
                Keyword::Bitmap,
            ) ==> next_record(st).0 == Err::<EntryView, ErrorView>(
                ErrorView::MissingBoundingBox { line_number: at + 1, line: st.lines[at as int] },
            )
        }),
    decreases k,
{
    if k > 0 {
        lemma_bitmap_before_bounds(lines, (k - 1) as nat);
        let before = state_after_records(ReaderState::start(lines), (k - 1) as nat);
        lemma_bounds_come_from_records(before);
        assert(!gives_bounds(next_record(before).0));
    }
}

/// Behind the last record there is the end, and it stays the end: where
/// only empty lines are left, the next record is `End`, however often it is
/// asked for.
pub proof fn lemma_end_stays(st: ReaderState)
    requires
        st.pos <= st.lines.len(),
        forall|i: int| st.pos <= i < st.lines.len() ==> st.lines[i].len() == 0,
    ensures
        next_record(st).0 == Err::<EntryView, ErrorView>(ErrorView::End),
        next_record(next_record(st).1).0 == Err::<EntryView, ErrorView>(ErrorView::End),
        next_record(next_record(st).1).1 == next_record(st).1,
        next_record(st).1.pos == st.lines.len(),
{
    lemma_skip_blank_is(st.lines, st.pos, st.lines.len());
    lemma_skip_blank_is(st.lines, st.lines.len(), st.lines.len());
}

/// The font reader.
pub struct Reader {
    lines: Vec<Vec<char>>,
    pos: usize,
    default: Option<BoundingBox>,
    current: Option<BoundingBox>,
}

impl View for Reader {
    type V = ReaderState;

    closed spec fn view(&self) -> ReaderState {
        ReaderState {
            lines: self.lines@.map_values(|l: Vec<char>| l@),
            pos: self.pos as nat,
            default: self.default,
            current: self.current,
        }
    }
}

impl Reader {
    #[verifier::type_invariant]
    spec fn inside(self) -> bool {
        self.pos <= self.lines.len()
    }

    /// A reader at the start of the given lines.
    pub fn from_lines(lines: Vec<Vec<char>>) -> (reader: Reader)
        ensures
            reader@ == ReaderState::start(lines@.map_values(|l: Vec<char>| l@)),
    {
        Reader { lines, pos: 0, default: None, current: None }
    }

    /// Get the next entry.
    #[verifier::loop_isolation(false)]
    pub fn entry(&mut self) -> (r: Result<Entry, Error>)
        ensures
            record_view(r) == next_record(old(self)@).0,
            final(self)@ == next_record(old(self)@).1,
            final(self)@.pos <= final(self)@.lines.len(),
    {
        proof {
            use_type_invariant(&*self);
            lemma_next_record_moves(self@);
        }
        let count: usize = self.lines.len();
        let mut at: usize = self.pos;
        while at < count && self.lines[at].len() == 0
            invariant
                self.pos <= at <= count,
                count == self.lines.len(),
                forall|i: int| self.pos <= i < at ==> self@.lines[i].len() == 0,
            decreases count - at,
        {
            at += 1;
        }
        proof {
            lemma_skip_blank_is(self@.lines, self.pos as nat, at as nat);
        }
        if at >= count {
            self.pos = at;
            return Err(Error::End);
        }
        let line: &[char] = self.lines[at].as_slice();
        assert(line@ == self@.lines[at as int]);
        let (id, _rest) = tokenize(line);
        match keyword_of(id) {
            Some(Keyword::Bitmap) => {},
            _ => {
                let record = decode_line(line, at + 1);
                match &record {
                    Ok(Entry::FontBoundingBox(b)) => {
                        self.default = Some(*b);
                    },
                    Ok(Entry::BoundingBox(b)) => {
                        self.current = Some(*b);
                    },
                    _ => {},
                }
                self.pos = at + 1;
                return record;
            },
        }
        let bounds = match self.current {
            Some(b) => Some(b),
            None => self.default,
        };
        let b = match bounds {
            Some(b) => b,
            None => {
                let line = string_of(line);
                self.pos = at + 1;
                return Err(Error::MissingBoundingBox { line_number: at + 1, line });
            },
        };
        assert((b.width as u64) * (b.height as u64) <= 0xFFFF_FFFE_0000_0001) by (nonlinear_arith)
            requires
                b.width <= 0xFFFF_FFFF,
                b.height <= 0xFFFF_FFFF,
        ;
        if (b.width as u64) * (b.height as u64) > usize::MAX as u64 {
            let line = string_of(line);
            self.pos = at + 1;
            return Err(
                Error::Parse { error: IntErrorKind::PosOverflow, line_number: at + 1, line },
            );
        }
        let mut map = Bitmap::new(b.width, b.height);
        let ghost mut words: Seq<u64> = Seq::empty();
        let mut next: usize = at + 1;
        let mut y: u32 = 0;
        proof {
            assert(map@.pixels =~= unpack(words, b.width as nat, b.height as nat).pixels);
        }
        while y < b.height
            invariant
                y <= b.height,
                at < next <= count,
                count == self.lines.len(),
                self@ == old(self)@,
                read_rows(self@.lines, (at + 1) as nat, y as nat) == (
                    Ok::<Seq<u64>, ErrorView>(words),
                    next as nat,
                ),
                words.len() == y,
                map@ == unpack(words, b.width as nat, b.height as nat),
                map@.wf(),
            decreases b.height - y,
        {
            if next >= count {
                self.pos = next;
                proof {
                    lemma_rows_fail(self@.lines, (at + 1) as nat, (y + 1) as nat, b.height as nat);
                }
                return Err(Error::End);
            }
            let row: &[char] = self.lines[next].as_slice();
            assert(row@ == self@.lines[next as int]);
            match parse_integer(row, 16, 0, u64::MAX as i128) {
                Err(error) => {
                    let line = string_of(row);
                    self.pos = next + 1;
                    proof {
                        lemma_rows_fail(
                            self@.lines,
                            (at + 1) as nat,
                            (y + 1) as nat,
                            b.height as nat,
                        );
                    }
                    return Err(Error::Parse { error, line_number: next + 1, line });
                },
                Ok(v) => {
                    let word: u64 = v as u64;
                    unpack_row(&mut map, y, word);
                    proof {
                        let longer = words.push(word);
                        assert(map@.pixels =~= unpack(
                            longer,
                            b.width as nat,
                            b.height as nat,
                        ).pixels);
                        words = longer;
                    }
                },
            }
            next += 1;
            y += 1;
        }
        self.pos = next;
        self.current = None;
        Ok(Entry::Bitmap(map))
    }

    /// Reads all the entries that are left. The end of the input ends the
    /// reading; any other error is returned in place of the entries.
    pub fn entries(&mut self) -> (r: Result<Vec<Entry>, Error>)
        ensures
            match r {
                Ok(list) => records(old(self)@).0 == Ok::<Seq<EntryView>, ErrorView>(
                    list@.map_values(|e: Entry| e@),
                ),
                Err(e) => records(old(self)@).0 == Err::<Seq<EntryView>, ErrorView>(e@),
            },
            final(self)@ == records(old(self)@).1,
    {
        let mut list: Vec<Entry> = Vec::new();
        proof {
            use_type_invariant(&*self);
        }
        loop
            invariant
                self@.pos <= self@.lines.len(),
                match records(self@).0 {
                    Ok(rest) => records(old(self)@).0 == Ok::<Seq<EntryView>, ErrorView>(
                        list@.map_values(|e: Entry| e@) + rest,
                    ),
                    Err(e) => records(old(self)@).0 == Err::<Seq<EntryView>, ErrorView>(e),
                },
                records(self@).1 == records(old(self)@).1,
            decreases self@.lines.len() - self@.pos,
        {
            let ghost before = self@;
            let ghost so_far = list@.map_values(|e: Entry| e@);
            proof {
                lemma_next_record_moves(before);
            }
            match self.entry() {
                Err(Error::End) => {
                    proof {
                        assert(so_far + Seq::<EntryView>::empty() =~= so_far);
                    }
                    return Ok(list);
                },
                Err(e) => {
                    return Err(e);
                },
                Ok(entry) => {
                    list.push(entry);
                    proof {
                        assert(list@.map_values(|e: Entry| e@) =~= so_far.push(entry@));
                        match records(self@).0 {
                            Ok(rest) => {
                                assert(so_far.push(entry@) + rest =~= so_far + (seq![entry@]
                                    + rest));
                            },
                            Err(_) => {},
                        }
                    }
                },
            }
        }
    }
}

/// Once a row has failed, the rows behind it change nothing.
pub proof fn lemma_rows_fail(lines: Seq<Seq<char>>, start: nat, failed: nat, count: nat)
    requires
        failed <= count,
        read_rows(lines, start, failed).0 is Err,
    ensures
        read_rows(lines, start, count) == read_rows(lines, start, failed),
    decreases count,
{
    if failed < count {
        lemma_rows_fail(lines, start, failed, (count - 1) as nat);
    }
}

} // verus!
