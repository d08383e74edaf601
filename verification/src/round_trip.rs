//! What is written reads back: the writer and the reader as inverses.

use crate::bitmap::BitmapView;
use crate::entry::EntryView;
use crate::error::ErrorView;
use crate::number::{
    decimal, digit_value, digits, hex_bytes, lemma_digits_shape, lemma_parse_decimal,
    lemma_parse_hex,
};
use crate::property::{
    escape, extract_text, lemma_extract_quote, parse_property, quote, PropertyView,
};
use crate::reader::line::{
    bounds_in, count_in, is_keyword_char, keyword_named, lemma_keyword_chars, lemma_keyword_named,
    number_in, pair_in, record_of_line, size_in, tokens, Keyword,
};
use crate::reader::reader::{lemma_skip_blank_is, next_record, read_rows, skip_blank, ReaderState};
use crate::row::{column_kept, lemma_unpack_pack, pack, packs_whole, row_word, unpack};
use crate::text::{
    is_whitespace, lemma_until_is, lines, split, strip_carriage_return, trim, trim_end,
    trim_start, until,
};
use crate::writer::writer::{
    bounds_text, direction_text, join_lines, lemma_join_one, line_of, lines_of, pair_text,
    rows_of, text_of, value_text, with_argument,
};
use vstd::prelude::*;

verus! {

/// Whether a line comes back from text as it went in: it holds no line
/// feed, and does not end with a carriage return.
pub open spec fn is_line(s: Seq<char>) -> bool {
    !s.contains('\n') && !(s.len() > 0 && s.last() == '\r')
}

/// The text of some lines is the first line, a line feed, and the text of
/// the other lines.
pub proof fn lemma_join_first(first: Seq<char>, rest: Seq<Seq<char>>)
    ensures
        join_lines(seq![first] + rest) == first + seq!['\n'] + join_lines(rest),
    decreases rest.len(),
{
    let all = seq![first] + rest;
    if rest.len() == 0 {
        assert(all =~= seq![first]);
        lemma_join_one(first);
        assert(join_lines(rest) =~= Seq::<char>::empty());
        assert(join_lines(all) =~= first + seq!['\n'] + join_lines(rest));
    } else {
        assert(all.drop_last() =~= seq![first] + rest.drop_last());
        assert(all.last() == rest.last());
        lemma_join_first(first, rest.drop_last());
        assert(join_lines(all) =~= first + seq!['\n'] + join_lines(rest));
    }
}

/// Lines that are written as text are the lines of that text.
pub proof fn lemma_lines_of_joined(ls: Seq<Seq<char>>)
    requires
        forall|i: int| 0 <= i < ls.len() ==> is_line(#[trigger] ls[i]),
    ensures
        lines(join_lines(ls)) == ls,
    decreases ls.len(),
{
    if ls.len() == 0 {
        assert(lines(join_lines(ls)) =~= ls);
    } else {
        let first = ls[0];
        let rest = ls.drop_first();
        assert(ls =~= seq![first] + rest);
        lemma_join_first(first, rest);
        let text = join_lines(ls);
        assert(text == first + seq!['\n'] + join_lines(rest));
        assert(is_line(first));
        assert forall|j: int| 0 <= j < first.len() implies text[j] != '\n' by {
            assert(text[j] == first[j]);
        }
        assert(text[first.len() as int] == '\n');
        lemma_until_is(text, '\n', first.len() as int);
        assert(text.subrange(0, first.len() as int) =~= first);
        assert(text.subrange(first.len() as int + 1, text.len() as int) =~= join_lines(rest));
        assert forall|i: int| 0 <= i < rest.len() implies is_line(#[trigger] rest[i]) by {
            assert(rest[i] == ls[i + 1]);
        }
        lemma_lines_of_joined(rest);
        assert(strip_carriage_return(first) == first);
    }
}

/// Whether `s` is made of characters that are neither whitespace nor quotes.
pub open spec fn solid(s: Seq<char>) -> bool {
    forall|i: int| 0 <= i < s.len() ==> !is_whitespace(#[trigger] s[i]) && s[i] != '"'
}

/// What is solid holds no space and no line end, and is its own trim.
pub proof fn lemma_solid(s: Seq<char>)
    requires
        solid(s),
    ensures
        !s.contains(' '),
        !s.contains('\n'),
        is_line(s),
        trim(s) == s,
        until(s, ' ') == s.len(),
{
    assert forall|i: int| 0 <= i < s.len() implies s[i] != ' ' && s[i] != '\n' && s[i]
        != '\r' by {
        assert(!is_whitespace(s[i]));
    }
    lemma_until_is(s, ' ', s.len() as int);
}

/// The digits of a number are solid.
pub proof fn lemma_digits_solid(n: nat, radix: int)
    requires
        radix == 10 || radix == 16,
    ensures
        solid(digits(n, radix)),
        digits(n, radix).len() >= 1,
{
    lemma_digits_shape(n, radix);
    let d = digits(n, radix);
    assert forall|i: int| 0 <= i < d.len() implies !is_whitespace(#[trigger] d[i]) && d[i]
        != '"' by {
        assert(digit_value(d[i], radix) is Some);
    }
}

/// A number in base 10 is solid.
pub proof fn lemma_decimal_solid(n: int)
    ensures
        solid(decimal(n)),
        decimal(n).len() >= 1,
{
    if n < 0 {
        lemma_digits_solid((-n) as nat, 10);
        let d = digits((-n) as nat, 10);
        let all = decimal(n);
        assert forall|i: int| 0 <= i < all.len() implies !is_whitespace(#[trigger] all[i])
            && all[i] != '"' by {
            if i > 0 {
                assert(all[i] == d[i - 1]);
            }
        }
    } else {
        lemma_digits_solid(n as nat, 10);
    }
}

/// The bytes of a number in base 16 are solid.
pub proof fn lemma_hex_solid(n: nat)
    ensures
        solid(hex_bytes(n)),
        hex_bytes(n).len() >= 1,
{
    lemma_digits_solid(n, 16);
    let d = digits(n, 16);
    let all = hex_bytes(n);
    if d.len() % 2 != 0 {
        assert forall|i: int| 0 <= i < all.len() implies !is_whitespace(#[trigger] all[i])
            && all[i] != '"' by {
            if i > 0 {
                assert(all[i] == d[i - 1]);
            }
        }
    }
}

/// A keyword is solid.
pub proof fn lemma_keyword_solid(k: Keyword)
    ensures
        solid(k.text()),
        k.text().len() >= 3,
{
    lemma_keyword_chars(k);
    let t = k.text();
    assert forall|i: int| 0 <= i < t.len() implies !is_whitespace(#[trigger] t[i]) && t[i]
        != '"' by {
        assert(is_keyword_char(t[i]));
    }
}

/// What holds no space is one piece.
pub proof fn lemma_split_one(s: Seq<char>)
    requires
        !s.contains(' '),
    ensures
        split(s, ' ') == seq![s],
{
    assert forall|j: int| 0 <= j < s.len() implies s[j] != ' ' by {
        assert(s.contains(s[j]));
    }
    lemma_until_is(s, ' ', s.len() as int);
}

/// The first piece ends at the first space.
pub proof fn lemma_split_first(a: Seq<char>, b: Seq<char>)
    requires
        !a.contains(' '),
    ensures
        split(a + seq![' '] + b, ' ') == seq![a] + split(b, ' '),
{
    let s = a + seq![' '] + b;
    assert forall|j: int| 0 <= j < a.len() implies s[j] != ' ' by {
        assert(a.contains(a[j]));
        assert(s[j] == a[j]);
    }
    assert(s[a.len() as int] == ' ');
    lemma_until_is(s, ' ', a.len() as int);
    assert(s.subrange(0, a.len() as int) =~= a);
    assert(s.subrange(a.len() as int + 1, s.len() as int) =~= b);
}

/// A space in front does not change the trim.
pub proof fn lemma_trim_after_space(s: Seq<char>)
    ensures
        trim(seq![' '] + s) == trim(s),
{
    let t = seq![' '] + s;
    assert(is_whitespace(t[0]));
    assert(t.drop_first() =~= s);
}

/// A line of a word, a space and an argument has the word as its keyword.
pub proof fn lemma_tokens_argument(head: Seq<char>, argument: Seq<char>)
    requires
        !head.contains(' '),
    ensures
        tokens(head + seq![' '] + argument) == (head, Some(trim(argument))),
{
    let line = head + seq![' '] + argument;
    assert forall|j: int| 0 <= j < head.len() implies line[j] != ' ' by {
        assert(head.contains(head[j]));
        assert(line[j] == head[j]);
    }
    assert(line[head.len() as int] == ' ');
    lemma_until_is(line, ' ', head.len() as int);
    assert(line.take(head.len() as int) =~= head);
    assert(line.skip(head.len() as int) =~= seq![' '] + argument);
    lemma_trim_after_space(argument);
}

/// A line that is a keyword has no argument.
pub proof fn lemma_tokens_bare(k: Keyword)
    ensures
        tokens(k.text()) == (k.text(), None::<Seq<char>>),
{
    lemma_keyword_solid(k);
    lemma_solid(k.text());
}

/// A number that was written reads back.
pub proof fn lemma_number_reads_back(v: int, min: int, max: int, line: Seq<char>, number: nat)
    requires
        min <= 0 <= max,
        min <= v <= max,
    ensures
        number_in(decimal(v), min, max, line, number) == Ok::<int, ErrorView>(v),
{
    lemma_parse_decimal(v, min, max);
}

/// Two numbers that were written read back.
pub proof fn lemma_pair_split(x: int, y: int)
    ensures
        split(pair_text(x, y), ' ') == seq![decimal(x), decimal(y)],
        solid_but_spaces(pair_text(x, y)),
{
    lemma_decimal_solid(x);
    lemma_decimal_solid(y);
    lemma_solid(decimal(x));
    lemma_solid(decimal(y));
    lemma_split_first(decimal(x), decimal(y));
    lemma_split_one(decimal(y));
    let p = pair_text(x, y);
    assert forall|i: int| 0 <= i < p.len() implies (!is_whitespace(#[trigger] p[i]) && p[i]
        != '"') || p[i] == ' ' by {
        if i < decimal(x).len() {
            assert(p[i] == decimal(x)[i]);
        } else if i > decimal(x).len() {
            assert(p[i] == decimal(y)[i - decimal(x).len() - 1]);
        }
    }
    assert(p[0] == decimal(x)[0]);
    assert(p.last() == decimal(y).last());
}

/// Whether `s` is made of solid characters and spaces, and neither starts
/// nor ends with a space.
pub open spec fn solid_but_spaces(s: Seq<char>) -> bool {
    &&& s.len() > 0
    &&& forall|i: int|
        0 <= i < s.len() ==> (!is_whitespace(#[trigger] s[i]) && s[i] != '"') || s[i] == ' '
    &&& s[0] != ' '
    &&& s.last() != ' '
}

/// What is made of solid characters and single spaces is a line and its own
/// trim.
pub proof fn lemma_solid_but_spaces(s: Seq<char>)
    requires
        solid_but_spaces(s),
    ensures
        is_line(s),
        trim(s) == s,
{
    assert(!is_whitespace(s[0]));
    assert(!is_whitespace(s.last()));
    assert forall|i: int| 0 <= i < s.len() implies s[i] != '\n' by {
        assert(is_whitespace('\n'));
    }
    assert(is_whitespace('\r'));
}

/// Whether a string that is written as it stands reads back: it is its
/// own trim, and holds no line feed.
pub open spec fn bare(s: Seq<char>) -> bool {
    trim(s) == s && !s.contains('\n')
}

/// Whether a record reads back as itself from the text that is written for
/// it.
///
/// A string that is written as it stands has to be its own trim. No string
/// may hold a line feed. The name of a property may not hold a space, nor
/// be a keyword. Every lit pixel of a bitmap has to have a bit of its own in
/// the word of its row, as it has in every bitmap of at most 64 columns. A
/// record of an unknown line is never written.
pub open spec fn reads_back(entry: EntryView) -> bool {
    match entry {
        EntryView::StartFont(s) => bare(s),
        EntryView::ContentVersion(s) => bare(s),
        EntryView::Font(s) => bare(s),
        EntryView::StartChar(s) => bare(s),
        EntryView::Comment(s) => !s.contains('\n'),
        EntryView::Property(name, value) => {
            &&& !name.contains(' ')
            &&& !name.contains('\n')
            &&& keyword_named(name) is None
            &&& (value matches PropertyView::String(s) ==> !s.contains('\n'))
        },
        EntryView::Bitmap(map) => packs_whole(map),
        EntryView::Unknown(_) => false,
        _ => true,
    }
}

/// Doubling the quotes brings in no line feed.
pub proof fn lemma_escape_keeps_line(s: Seq<char>)
    requires
        !s.contains('\n'),
    ensures
        !escape(s).contains('\n'),
    decreases s.len(),
{
    if s.len() > 0 {
        let rest = s.drop_first();
        assert forall|i: int| 0 <= i < rest.len() implies rest[i] != '\n' by {
            assert(s.contains(s[i + 1]));
        }
        assert(!rest.contains('\n'));
        lemma_escape_keeps_line(rest);
        assert(s.contains(s[0]));
        let e = escape(s);
        let tail = escape(rest);
        assert forall|i: int| 0 <= i < e.len() implies e[i] != '\n' by {
            if s[0] == '"' {
                if i >= 2 {
                    assert(e[i] == tail[i - 2]);
                    assert(tail.contains(tail[i - 2]));
                }
            } else {
                if i >= 1 {
                    assert(e[i] == tail[i - 1]);
                    assert(tail.contains(tail[i - 1]));
                }
            }
        }
    }
}

/// A quoted string without a line feed is a line, and its own trim.
pub proof fn lemma_quote_line(s: Seq<char>)
    requires
        !s.contains('\n'),
    ensures
        is_line(quote(s)),
        trim(quote(s)) == quote(s),
        quote(s).len() >= 2,
        quote(s)[0] == '"',
        quote(s).last() == '"',
{
    lemma_escape_keeps_line(s);
    let q = quote(s);
    let e = escape(s);
    assert(q[0] == '"');
    assert(q.last() == '"');
    assert forall|i: int| 0 <= i < q.len() implies q[i] != '\n' by {
        if 0 < i < q.len() - 1 {
            assert(q[i] == e[i - 1]);
            assert(e.contains(e[i - 1]));
        }
    }
}

/// A line of a keyword, a space and an argument has the keyword as its
/// keyword and the trimmed argument as its argument, and is a line where
/// the argument is one.
pub proof fn lemma_keyword_line(k: Keyword, argument: Seq<char>)
    requires
        !argument.contains('\n'),
        argument.len() > 0 ==> argument.last() != '\r',
    ensures
        tokens(with_argument(k, argument)) == (k.text(), Some(trim(argument))),
        keyword_named(k.text()) == Some(k),
        is_line(with_argument(k, argument)),
        with_argument(k, argument).len() > 0,
{
    lemma_keyword_solid(k);
    lemma_solid(k.text());
    lemma_keyword_named(k);
    lemma_tokens_argument(k.text(), argument);
    let line = with_argument(k, argument);
    let head = k.text();
    assert forall|i: int| 0 <= i < line.len() implies line[i] != '\n' by {
        if i < head.len() {
            assert(line[i] == head[i]);
            assert(head.contains(head[i]));
        } else if i > head.len() {
            assert(line[i] == argument[i - head.len() - 1]);
            assert(argument.contains(argument[i - head.len() - 1]));
        }
    }
    if argument.len() > 0 {
        assert(line.last() == argument.last());
    } else {
        assert(line.last() == ' ');
    }
}

/// A string that is its own trim does not end with a carriage return.
pub proof fn lemma_bare_end(s: Seq<char>)
    requires
        bare(s),
    ensures
        s.len() > 0 ==> s.last() != '\r',
{
    crate::text::lemma_trim_is_trimmed(s);
    assert(is_whitespace('\r'));
}

/// A pair that was written reads back.
pub proof fn lemma_pair_reads_back(x: u32, y: u32, id: Seq<char>, line: Seq<char>, number: nat)
    ensures
        pair_in(Some(pair_text(x as int, y as int)), id, line, number) == Ok::<
            (u32, u32),
            ErrorView,
        >((x, y)),
{
    lemma_pair_split(x as int, y as int);
    lemma_number_reads_back(x as int, 0, u32::MAX as int, line, number);
    lemma_number_reads_back(y as int, 0, u32::MAX as int, line, number);
}

/// A size that was written reads back.
pub proof fn lemma_size_reads_back(
    pt: u16,
    x: u16,
    y: u16,
    id: Seq<char>,
    line: Seq<char>,
    number: nat,
)
    ensures
        size_in(
            Some(decimal(pt as int) + seq![' '] + pair_text(x as int, y as int)),
            id,
            line,
            number,
        ) == Ok::<(u16, u16, u16), ErrorView>((pt, x, y)),
        solid_but_spaces(decimal(pt as int) + seq![' '] + pair_text(x as int, y as int)),
{
    lemma_pair_split(x as int, y as int);
    lemma_decimal_solid(pt as int);
    lemma_solid(decimal(pt as int));
    lemma_split_first(decimal(pt as int), pair_text(x as int, y as int));
    lemma_number_reads_back(pt as int, 0, u16::MAX as int, line, number);
    lemma_number_reads_back(x as int, 0, u16::MAX as int, line, number);
    lemma_number_reads_back(y as int, 0, u16::MAX as int, line, number);
    lemma_joined_solid(decimal(pt as int), pair_text(x as int, y as int));
    assert(solid_but_spaces(decimal(pt as int))) by {
        let d = decimal(pt as int);
        assert(!is_whitespace(d[0]));
        assert(!is_whitespace(d.last()));
    }
}

/// Two pieces of solid characters and spaces, with a space between them,
/// are one such piece.
pub proof fn lemma_joined_solid(a: Seq<char>, b: Seq<char>)
    requires
        solid_but_spaces(a),
        solid_but_spaces(b),
    ensures
        solid_but_spaces(a + seq![' '] + b),
{
    let s = a + seq![' '] + b;
    assert forall|i: int| 0 <= i < s.len() implies (!is_whitespace(#[trigger] s[i]) && s[i]
        != '"') || s[i] == ' ' by {
        if i < a.len() {
            assert(s[i] == a[i]);
        } else if i > a.len() {
            assert(s[i] == b[i - a.len() - 1]);
        }
    }
    assert(s[0] == a[0]);
    assert(s.last() == b.last());
}

/// A bounding box that was written reads back.
pub proof fn lemma_bounds_reads_back(
    b: crate::bounding_box::BoundingBox,
    id: Seq<char>,
    line: Seq<char>,
    number: nat,
)
    ensures
        bounds_in(Some(bounds_text(b)), id, line, number) == Ok::<
            crate::bounding_box::BoundingBox,
            ErrorView,
        >(b),
        solid_but_spaces(bounds_text(b)),
{
    let size = pair_text(b.width as int, b.height as int);
    let offset = pair_text(b.x as int, b.y as int);
    lemma_pair_split(b.width as int, b.height as int);
    lemma_pair_split(b.x as int, b.y as int);
    lemma_decimal_solid(b.width as int);
    lemma_decimal_solid(b.height as int);
    lemma_solid(decimal(b.width as int));
    lemma_solid(decimal(b.height as int));
    let rest = decimal(b.height as int) + seq![' '] + offset;
    assert(bounds_text(b) =~= decimal(b.width as int) + seq![' '] + rest);
    lemma_split_first(decimal(b.width as int), rest);
    lemma_split_first(decimal(b.height as int), offset);
    let f = split(bounds_text(b), ' ');
    assert(f =~= seq![
        decimal(b.width as int),
        decimal(b.height as int),
        decimal(b.x as int),
        decimal(b.y as int),
    ]);
    lemma_number_reads_back(b.width as int, 0, u32::MAX as int, line, number);
    lemma_number_reads_back(b.height as int, 0, u32::MAX as int, line, number);
    lemma_number_reads_back(b.x as int, i32::MIN as int, i32::MAX as int, line, number);
    lemma_number_reads_back(b.y as int, i32::MIN as int, i32::MAX as int, line, number);
    lemma_joined_solid(size, offset);
}

/// A count that was written reads back.
pub proof fn lemma_count_reads_back(n: usize, id: Seq<char>, line: Seq<char>, number: nat)
    ensures
        count_in(Some(decimal(n as int)), id, line, number) == Ok::<usize, ErrorView>(n),
{
    lemma_number_reads_back(n as int, 0, usize::MAX as int, line, number);
}

/// What `lemma_line_reads_back` states of one record.
pub open spec fn line_reads_back(entry: EntryView, number: nat) -> bool {
    &&& record_of_line(line_of(entry), number) == Ok::<EntryView, ErrorView>(entry)
    &&& keyword_named(tokens(line_of(entry)).0) != Some(Keyword::Bitmap)
    &&& is_line(line_of(entry))
    &&& line_of(entry).len() > 0
}

/// The line of a record that holds one string reads back.
proof fn lemma_text_line_reads_back(entry: EntryView, number: nat)
    requires
        reads_back(entry),
        entry is StartFont || entry is ContentVersion || entry is Font || entry is StartChar
            || entry is Comment,
    ensures
        line_reads_back(entry, number),
{
    match entry {
        EntryView::StartFont(s) => {
            lemma_bare_end(s);
            lemma_keyword_line(Keyword::StartFont, s);
        },
        EntryView::ContentVersion(s) => {
            lemma_bare_end(s);
            lemma_keyword_line(Keyword::ContentVersion, s);
        },
        EntryView::Font(s) => {
            lemma_bare_end(s);
            lemma_keyword_line(Keyword::Font, s);
        },
        EntryView::StartChar(s) => {
            lemma_bare_end(s);
            lemma_keyword_line(Keyword::StartChar, s);
        },
        EntryView::Comment(s) => {
            lemma_quote_line(s);
            lemma_extract_quote(s);
            lemma_keyword_line(Keyword::Comment, quote(s));
        },
        _ => {},
    }
}

/// The line of a record that holds one number, or a size, reads back.
proof fn lemma_count_line_reads_back(entry: EntryView, number: nat)
    requires
        entry is Chars || entry is StartProperties || entry is Encoding || entry is Size,
    ensures
        line_reads_back(entry, number),
{
    let line = line_of(entry);
    match entry {
        EntryView::Size(pt, x, y) => {
            let argument = decimal(pt as int) + seq![' '] + pair_text(x as int, y as int);
            lemma_size_reads_back(pt, x, y, Keyword::Size.text(), line, number);
            lemma_solid_but_spaces(argument);
            lemma_keyword_line(Keyword::Size, argument);
        },
        EntryView::Chars(n) => {
            lemma_decimal_solid(n as int);
            lemma_solid(decimal(n as int));
            lemma_count_reads_back(n, Keyword::Chars.text(), line, number);
            lemma_keyword_line(Keyword::Chars, decimal(n as int));
        },
        EntryView::StartProperties(n) => {
            lemma_decimal_solid(n as int);
            lemma_solid(decimal(n as int));
            lemma_count_reads_back(n, Keyword::StartProperties.text(), line, number);
            lemma_keyword_line(Keyword::StartProperties, decimal(n as int));
        },
        EntryView::Encoding(c) => {
            lemma_decimal_solid(c as int);
            lemma_solid(decimal(c as int));
            lemma_number_reads_back(c as int, 0, u32::MAX as int, line, number);
            lemma_keyword_line(Keyword::Encoding, decimal(c as int));
        },
        _ => {},
    }
}

/// The line of a bounding box reads back.
proof fn lemma_bounds_line_reads_back(entry: EntryView, number: nat)
    requires
        entry is FontBoundingBox || entry is BoundingBox,
    ensures
        line_reads_back(entry, number),
{
    let line = line_of(entry);
    match entry {
        EntryView::FontBoundingBox(b) => {
            lemma_bounds_reads_back(b, Keyword::FontBoundingBox.text(), line, number);
            lemma_solid_but_spaces(bounds_text(b));
            lemma_keyword_line(Keyword::FontBoundingBox, bounds_text(b));
        },
        EntryView::BoundingBox(b) => {
            lemma_bounds_reads_back(b, Keyword::BoundingBox.text(), line, number);
            lemma_solid_but_spaces(bounds_text(b));
            lemma_keyword_line(Keyword::BoundingBox, bounds_text(b));
        },
        _ => {},
    }
}

/// The line of a keyword and a pair of numbers holds that keyword and
/// that pair.
proof fn lemma_pair_line(k: Keyword, x: u32, y: u32, line: Seq<char>, number: nat)
    ensures
        tokens(with_argument(k, pair_text(x as int, y as int))) == (
            k.text(),
            Some(pair_text(x as int, y as int)),
        ),
        keyword_named(k.text()) == Some(k),
        is_line(with_argument(k, pair_text(x as int, y as int))),
        with_argument(k, pair_text(x as int, y as int)).len() > 0,
        pair_in(Some(pair_text(x as int, y as int)), k.text(), line, number) == Ok::<
            (u32, u32),
            ErrorView,
        >((x, y)),
{
    lemma_pair_split(x as int, y as int);
    lemma_solid_but_spaces(pair_text(x as int, y as int));
    lemma_pair_reads_back(x, y, k.text(), line, number);
    lemma_keyword_line(k, pair_text(x as int, y as int));
}

/// The line of a record that holds a pair of numbers reads back.
proof fn lemma_pair_line_reads_back(entry: EntryView, number: nat)
    requires
        entry is ScalableWidth || entry is DeviceWidth || entry is AlternateScalableWidth
            || entry is AlternateDeviceWidth || entry is Vector,
    ensures
        line_reads_back(entry, number),
{
    let line = line_of(entry);
    match entry {
        EntryView::ScalableWidth(x, y) => {
            lemma_pair_line(Keyword::ScalableWidth, x, y, line, number);
        },
        EntryView::DeviceWidth(x, y) => {
            lemma_pair_line(Keyword::DeviceWidth, x, y, line, number);
        },
        EntryView::AlternateScalableWidth(x, y) => {
            lemma_pair_line(Keyword::AlternateScalableWidth, x, y, line, number);
        },
        EntryView::AlternateDeviceWidth(x, y) => {
            lemma_pair_line(Keyword::AlternateDeviceWidth, x, y, line, number);
        },
        EntryView::Vector(x, y) => {
            lemma_pair_line(Keyword::Vector, x, y, line, number);
        },
        _ => {},
    }
}

/// The line of a record without a value, or of a direction, reads back.
proof fn lemma_plain_line_reads_back(entry: EntryView, number: nat)
    requires
        entry is EndFont || entry is EndChar || entry is EndProperties || entry is Direction,
    ensures
        line_reads_back(entry, number),
{
    match entry {
        EntryView::Direction(d) => {
            reveal_strlit("0");
            reveal_strlit("1");
            reveal_strlit("2");
            let t = direction_text(d);
            assert(t.len() == 1);
            assert(!is_whitespace(t[0]));
            assert(t.last() == t[0]);
            assert(trim(t) == t);
            assert forall|i: int| 0 <= i < t.len() implies t[i] != '\n' by {}
            lemma_keyword_line(Keyword::MetricsSet, t);
        },
        EntryView::EndFont => {
            lemma_bare_keyword(Keyword::EndFont);
        },
        EntryView::EndChar => {
            lemma_bare_keyword(Keyword::EndChar);
        },
        EntryView::EndProperties => {
            lemma_bare_keyword(Keyword::EndProperties);
        },
        _ => {},
    }
}

/// The line of a property reads back.
proof fn lemma_property_line_reads_back(entry: EntryView, number: nat)
    requires
        reads_back(entry),
        entry is Property,
    ensures
        line_reads_back(entry, number),
{
    match entry {
        EntryView::Property(name, value) => {
            lemma_property_line(name, value);
        },
        _ => {},
    }
}

/// The line that is written for a record other than a bitmap reads back as
/// the record.
pub proof fn lemma_line_reads_back(entry: EntryView, number: nat)
    requires
        reads_back(entry),
        !(entry is Bitmap),
    ensures
        line_reads_back(entry, number),
{
    if entry is StartFont || entry is ContentVersion || entry is Font || entry is StartChar
        || entry is Comment {
        lemma_text_line_reads_back(entry, number);
    } else if entry is Chars || entry is StartProperties || entry is Encoding || entry is Size {
        lemma_count_line_reads_back(entry, number);
    } else if entry is FontBoundingBox || entry is BoundingBox {
        lemma_bounds_line_reads_back(entry, number);
    } else if entry is ScalableWidth || entry is DeviceWidth || entry is AlternateScalableWidth
        || entry is AlternateDeviceWidth || entry is Vector {
        lemma_pair_line_reads_back(entry, number);
    } else if entry is Property {
        lemma_property_line_reads_back(entry, number);
    } else {
        lemma_plain_line_reads_back(entry, number);
    }
}

/// A line that is a keyword names that keyword, and is a line.
pub proof fn lemma_bare_keyword(k: Keyword)
    ensures
        tokens(k.text()) == (k.text(), None::<Seq<char>>),
        keyword_named(k.text()) == Some(k),
        is_line(k.text()),
        k.text().len() > 0,
{
    lemma_tokens_bare(k);
    lemma_keyword_named(k);
    lemma_keyword_solid(k);
    lemma_solid(k.text());
}

/// The line of a property is a line that holds its name and its value.
pub proof fn lemma_property_line(name: Seq<char>, value: PropertyView)
    requires
        reads_back(EntryView::Property(name, value)),
    ensures
        tokens(line_of(EntryView::Property(name, value))) == (name, Some(value_text(value))),
        parse_property(value_text(value)) == value,
        is_line(line_of(EntryView::Property(name, value))),
        line_of(EntryView::Property(name, value)).len() > 0,
{
    let text = value_text(value);
    let line = name + seq![' '] + text;
    lemma_tokens_argument(name, text);
    match value {
        PropertyView::String(s) => {
            lemma_quote_line(s);
            lemma_extract_quote(s);
        },
        PropertyView::Integer(i) => {
            lemma_decimal_solid(i as int);
            lemma_solid(text);
            lemma_parse_decimal(i as int, i64::MIN as int, i64::MAX as int);
        },
    }
    assert(is_line(text));
    assert forall|j: int| 0 <= j < line.len() implies line[j] != '\n' by {
        if j < name.len() {
            assert(line[j] == name[j]);
            assert(name.contains(name[j]));
        } else if j > name.len() {
            assert(line[j] == text[j - name.len() - 1]);
            assert(text.contains(text[j - name.len() - 1]));
        }
    }
    assert(line.last() == text.last());
}

/// The rows that are written for a bitmap read back as its words.
pub proof fn lemma_rows_read_back(
    map: BitmapView,
    all: Seq<Seq<char>>,
    start: nat,
    count: nat,
)
    requires
        count <= map.height,
        start + map.height <= all.len(),
        forall|y: int| 0 <= y < map.height ==> all[start + y] == #[trigger] rows_of(map)[y],
    ensures
        read_rows(all, start, count) == (
            Ok::<Seq<u64>, ErrorView>(pack(map).take(count as int)),
            start + count,
        ),
    decreases count,
{
    if count == 0 {
        assert(pack(map).take(0) =~= Seq::<u64>::empty());
    } else {
        let y = (count - 1) as nat;
        lemma_rows_read_back(map, all, start, y);
        let word = row_word(map, y as int);
        assert(all[start as int + y as int] == rows_of(map)[y as int]);
        lemma_parse_hex(word as nat, u64::MAX as int);
        assert(pack(map).take(count as int) =~= pack(map).take(y as int).push(word));
    }
}

/// The first record of the text that is written for a record is that
/// record, and with it the text is read to its end.
///
/// This holds of every record that `reads_back` admits. A bitmap is read by
/// a reader that has met a bounding box of its size; any other record by
/// any reader.
pub proof fn lemma_written_record_reads_back(entry: EntryView, st: ReaderState)
    requires
        reads_back(entry),
        entry matches EntryView::Bitmap(map) ==> map.wf() && (st.bounds() matches Some(b)
            && b.width == map.width && b.height == map.height),
        st.lines == lines(text_of(entry)),
        st.pos == 0,
    ensures
        next_record(st).0 == Ok::<EntryView, ErrorView>(entry),
        next_record(st).1.pos == st.lines.len(),
        next_record(next_record(st).1).0 == Err::<EntryView, ErrorView>(ErrorView::End),
{
    let written = lines_of(entry);
    match entry {
        EntryView::Bitmap(map) => {
            let head = line_of(entry);
            lemma_bare_keyword(Keyword::Bitmap);
            assert forall|i: int| 0 <= i < written.len() implies is_line(#[trigger] written[i]) by {
                if i > 0 {
                    assert(written[i] == rows_of(map)[i - 1]);
                    lemma_hex_solid(row_word(map, i - 1) as nat);
                    lemma_solid(written[i]);
                }
            }
            lemma_lines_of_joined(written);
            lemma_skip_blank_is(st.lines, 0, 0);
            assert(st.lines[0] == head);
            assert forall|y: int| 0 <= y < map.height implies st.lines[1 + y]
                == #[trigger] rows_of(map)[y] by {}
            lemma_rows_read_back(map, st.lines, 1, map.height);
            assert(pack(map).take(map.height as int) =~= pack(map));
            lemma_unpack_pack(map);
        },
        _ => {
            lemma_line_reads_back(entry, 1);
            assert(written =~= seq![line_of(entry)]);
            lemma_lines_of_joined(written);
            lemma_skip_blank_is(st.lines, 0, 0);
        },
    }
    let after = next_record(st).1;
    assert(after.pos == st.lines.len());
    assert(after.lines == st.lines);
    lemma_skip_blank_is(after.lines, after.pos, after.pos);
}

/// What `trim_start` gives is the end of its argument.
pub proof fn lemma_trim_start_is_suffix(s: Seq<char>)
    ensures
        trim_start(s).len() <= s.len(),
        trim_start(s) == s.skip(s.len() - trim_start(s).len()),
    decreases s.len(),
{
    if s.len() > 0 && is_whitespace(s[0]) {
        let t = s.drop_first();
        lemma_trim_start_is_suffix(t);
        assert(t.skip(t.len() - trim_start(t).len()) =~= s.skip(s.len() - trim_start(t).len()));
    } else {
        assert(s.skip(0) =~= s);
    }
}

/// A character that does not occur in a text does not occur in its trim.
pub proof fn lemma_trim_within(s: Seq<char>, c: char)
    requires
        !s.contains(c),
    ensures
        !trim(s).contains(c),
{
    let a = trim_start(s);
    let b = trim_end(a);
    lemma_trim_start_is_suffix(s);
    crate::text::lemma_trim_end_is_prefix(a);
    assert forall|i: int| 0 <= i < b.len() implies b[i] != c by {
        assert(b[i] == a[i]);
        assert(a[i] == s[i + s.len() - a.len()]);
        assert(s.contains(s[i + s.len() - a.len()]));
    }
}

/// A character other than the quote that does not occur in a text does not
/// occur in it once its doubled quotes are made single.
pub proof fn lemma_unescape_within(s: Seq<char>, c: char)
    requires
        !s.contains(c),
        c != '"',
    ensures
        !crate::property::unescape(s).contains(c),
    decreases s.len(),
{
    let u = crate::property::unescape(s);
    if s.len() == 0 {
    } else if s.len() >= 2 && s[0] == '"' && s[1] == '"' {
        let rest = s.skip(2);
        assert forall|i: int| 0 <= i < rest.len() implies rest[i] != c by {
            assert(s.contains(s[i + 2]));
        }
        lemma_unescape_within(rest, c);
        let tail = crate::property::unescape(rest);
        assert forall|i: int| 0 <= i < u.len() implies u[i] != c by {
            if i >= 1 {
                assert(u[i] == tail[i - 1]);
                assert(tail.contains(tail[i - 1]));
            }
        }
    } else {
        let rest = s.drop_first();
        assert forall|i: int| 0 <= i < rest.len() implies rest[i] != c by {
            assert(s.contains(s[i + 1]));
        }
        lemma_unescape_within(rest, c);
        let tail = crate::property::unescape(rest);
        assert(s.contains(s[0]));
        assert forall|i: int| 0 <= i < u.len() implies u[i] != c by {
            if i >= 1 {
                assert(u[i] == tail[i - 1]);
                assert(tail.contains(tail[i - 1]));
            }
        }
    }
}

/// The string that a text without a line feed stands for holds none.
pub proof fn lemma_extract_within(s: Seq<char>)
    requires
        !s.contains('\n'),
    ensures
        !extract_text(s).contains('\n'),
{
    let t = trim(s);
    lemma_trim_within(s, '\n');
    if t.len() >= 2 && t[0] == '"' && t.last() == '"' {
        let inner = t.subrange(1, t.len() - 1);
        assert forall|i: int| 0 <= i < inner.len() implies inner[i] != '\n' by {
            assert(t.contains(t[i + 1]));
        }
        lemma_unescape_within(inner, '\n');
    }
}

/// The keyword and the argument of a line without a line feed hold none;
/// the argument is its own trim, and where there is one, the keyword holds
/// no space.
pub proof fn lemma_tokens_within(line: Seq<char>)
    requires
        !line.contains('\n'),
    ensures
        !tokens(line).0.contains('\n'),
        tokens(line).1 matches Some(rest) ==> bare(rest) && !tokens(line).0.contains(' '),
{
    crate::text::lemma_until(line, ' ');
    let n = until(line, ' ');
    if n < line.len() {
        let id = line.take(n);
        let tail = line.skip(n);
        assert forall|i: int| 0 <= i < id.len() implies id[i] != '\n' && id[i] != ' ' by {
            assert(line.contains(line[i]));
        }
        assert forall|i: int| 0 <= i < tail.len() implies tail[i] != '\n' by {
            assert(line.contains(line[i + n]));
        }
        lemma_trim_within(tail, '\n');
        crate::text::lemma_trim_is_trimmed(tail);
    } else {
        lemma_trim_within(line, '\n');
    }
}

/// The property value that a text without a line feed stands for holds
/// none.
pub proof fn lemma_property_within(s: Seq<char>)
    requires
        !s.contains('\n'),
    ensures
        parse_property(s) matches PropertyView::String(t) ==> !t.contains('\n'),
{
    lemma_extract_within(s);
}

/// A record that is read from a line, other than the record of an unknown
/// line, reads back.
pub proof fn lemma_line_record_reads_back(line: Seq<char>, number: nat)
    requires
        !line.contains('\n'),
    ensures
        record_of_line(line, number) matches Ok(entry) ==> entry is Unknown || reads_back(entry),
{
    lemma_tokens_within(line);
    let (id, rest) = tokens(line);
    match rest {
        Some(r) => {
            lemma_extract_within(r);
            lemma_property_within(r);
        },
        None => {},
    }
    assert(!Seq::<char>::empty().contains('\n'));
}

/// A bit that is set in a word that was moved down by `p` is below bit
/// `64 - p`.
proof fn lemma_shifted_bit(v: u64, p: u64, k: u64)
    by (bit_vector)
    requires
        p < 8,
        k < 64,
        ((v >> p) >> k) & 1u64 == 1u64,
    ensures
        k + p < 64,
{
}

/// Every lit pixel of a bitmap that is unpacked from words has a bit of its
/// own.
pub proof fn lemma_unpacked_packs_whole(words: Seq<u64>, width: nat, height: nat)
    requires
        width <= u32::MAX,
        height <= u32::MAX,
        crate::bitmap::size_fits(width as int, height as int),
    ensures
        packs_whole(unpack(words, width, height)),
        unpack(words, width, height).wf(),
{
    let map = unpack(words, width, height);
    assert forall|x: int, y: int| #[trigger] map.pixels.contains((x, y)) implies column_kept(
        width,
        x,
    ) && 0 <= x < width && 0 <= y < height by {
        let word = words[y];
        let p = crate::row::padding(width);
        let k = width - 1 - x;
        lemma_shifted_bit(word, p as u64, k as u64);
    }
}

/// Whether no line holds a line feed, as it is with the lines of a text.
pub open spec fn clean(lines: Seq<Seq<char>>) -> bool {
    forall|i: int| 0 <= i < lines.len() ==> !(#[trigger] lines[i]).contains('\n')
}

/// The lines of a text hold no line feed.
pub proof fn lemma_lines_are_clean(text: Seq<char>)
    ensures
        clean(lines(text)),
    decreases text.len(),
{
    crate::text::lemma_until(text, '\n');
    let n = until(text, '\n');
    if text.len() == 0 {
    } else if n < text.len() {
        let raw = text.subrange(0, n);
        let first = strip_carriage_return(raw);
        let rest = text.subrange(n + 1, text.len() as int);
        lemma_lines_are_clean(rest);
        assert forall|i: int| 0 <= i < first.len() implies first[i] != '\n' by {
            assert(first[i] == text[i]);
        }
        let all = lines(text);
        assert forall|i: int| 0 <= i < all.len() implies !(#[trigger] all[i]).contains('\n') by {
            if i > 0 {
                assert(all[i] == lines(rest)[i - 1]);
            }
        }
    } else {
        assert forall|i: int| 0 <= i < text.len() implies text[i] != '\n' by {}
    }
}

/// Whatever record the reader gives, other than the record of an unknown
/// line, reads back: `reads_back` holds of the records that come from text,
/// and of no others.
pub proof fn lemma_records_read_back(st: ReaderState)
    requires
        clean(st.lines),
    ensures
        next_record(st).0 matches Ok(entry) ==> entry is Unknown || reads_back(entry),
        next_record(st).0 matches Ok(EntryView::Bitmap(map)) ==> map.wf(),
{
    let at = skip_blank(st.lines, st.pos);
    if at < st.lines.len() {
        let line = st.lines[at as int];
        if keyword_named(tokens(line).0) == Some(Keyword::Bitmap) {
            match st.bounds() {
                Some(b) => {
                    if crate::bitmap::size_fits(b.width as int, b.height as int) {
                        let (rows, pos) = read_rows(st.lines, at + 1, b.height as nat);
                        match rows {
                            Ok(words) => {
                                lemma_unpacked_packs_whole(words, b.width as nat, b.height as nat);
                            },
                            Err(_) => {},
                        }
                    }
                },
                None => {},
            }
        } else {
            lemma_line_record_reads_back(line, at + 1);
            crate::reader::line::lemma_record_is_no_bitmap(line, at + 1);
        }
    }
}

/// Whatever record is read from a text, other than the record of an
/// unknown line, reads back.
pub proof fn lemma_text_records_read_back(text: Seq<char>, st: ReaderState)
    requires
        st.lines == lines(text),
    ensures
        next_record(st).0 matches Ok(entry) ==> entry is Unknown || reads_back(entry),
        next_record(st).0 matches Ok(EntryView::Bitmap(map)) ==> map.wf(),
{
    lemma_lines_are_clean(text);
    lemma_records_read_back(st);
}

} // verus!
