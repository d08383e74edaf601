//! Text primitives: characters, trimming, searching and splitting.
//!
//! Text is modelled as `Seq<char>`. The executable functions work on slices
//! of characters, which index in constant time.

use vstd::prelude::*;
use vstd::slice::{slice_subrange, slice_to_vec};

verus! {

/// Whether `c` has the Unicode property `White_Space`.
pub open spec fn is_whitespace(c: char) -> bool {
    let u = c as u32;
    ||| 0x09 <= u <= 0x0D
    ||| u == 0x20
    ||| u == 0x85
    ||| u == 0xA0
    ||| u == 0x1680
    ||| 0x2000 <= u <= 0x200A
    ||| u == 0x2028
    ||| u == 0x2029
    ||| u == 0x202F
    ||| u == 0x205F
    ||| u == 0x3000
}

/// `s` without its leading whitespace.
pub open spec fn trim_start(s: Seq<char>) -> Seq<char>
    decreases s.len(),
{
    if s.len() > 0 && is_whitespace(s[0]) {
        trim_start(s.drop_first())
    } else {
        s
    }
}

/// `s` without its trailing whitespace.
pub open spec fn trim_end(s: Seq<char>) -> Seq<char>
    decreases s.len(),
{
    if s.len() > 0 && is_whitespace(s.last()) {
        trim_end(s.drop_last())
    } else {
        s
    }
}

/// `s` without its leading and trailing whitespace.
pub open spec fn trim(s: Seq<char>) -> Seq<char> {
    trim_end(trim_start(s))
}

/// The length of the longest prefix of `s` in which `c` does not occur: the
/// index of the first `c`, or `s.len()` where there is none.
pub open spec fn until(s: Seq<char>, c: char) -> int
    decreases s.len(),
{
    if s.len() == 0 || s[0] == c {
        0
    } else {
        1 + until(s.drop_first(), c)
    }
}

/// The pieces of `s` between occurrences of `sep`. There is always at least
/// one piece, and a piece may be empty.
pub open spec fn split(s: Seq<char>, sep: char) -> Seq<Seq<char>>
    decreases s.len(),
{
    let n = until(s, sep);
    if 0 <= n < s.len() {
        seq![s.subrange(0, n)] + split(s.subrange(n + 1, s.len() as int), sep)
    } else {
        seq![s]
    }
}

/// `line` without one trailing carriage return.
pub open spec fn strip_carriage_return(line: Seq<char>) -> Seq<char> {
    if line.len() > 0 && line.last() == '\r' {
        line.drop_last()
    } else {
        line
    }
}

/// The lines of `text`. A line ends at a line feed, or at a carriage return
/// directly followed by one; the end of the last line may be left out.
pub open spec fn lines(text: Seq<char>) -> Seq<Seq<char>>
    decreases text.len(),
{
    let n = until(text, '\n');
    if text.len() == 0 {
        Seq::empty()
    } else if 0 <= n < text.len() {
        seq![strip_carriage_return(text.subrange(0, n))] + lines(
            text.subrange(n + 1, text.len() as int),
        )
    } else {
        seq![text]
    }
}

/// What `until` finds: nothing before it is `c`, and it is `c` unless it is the end.
pub proof fn lemma_until(s: Seq<char>, c: char)
    ensures
        0 <= until(s, c) <= s.len(),
        forall|j: int| 0 <= j < until(s, c) ==> s[j] != c,
        until(s, c) < s.len() ==> s[until(s, c)] == c,
    decreases s.len(),
{
    if s.len() == 0 || s[0] == c {
    } else {
        let t = s.drop_first();
        lemma_until(t, c);
        assert forall|j: int| 0 <= j < until(s, c) implies s[j] != c by {
            if j > 0 {
                assert(s[j] == t[j - 1]);
            }
        }
        assert(s[until(s, c)] == t[until(t, c)] || until(s, c) == s.len());
    }
}

/// `until` is the only index with the properties of `lemma_until`.
pub proof fn lemma_until_is(s: Seq<char>, c: char, i: int)
    requires
        0 <= i <= s.len(),
        forall|j: int| 0 <= j < i ==> s[j] != c,
        i < s.len() ==> s[i] == c,
    ensures
        until(s, c) == i,
    decreases s.len(),
{
    if s.len() == 0 || s[0] == c {
    } else {
        let t = s.drop_first();
        assert forall|j: int| 0 <= j < i - 1 implies t[j] != c by {
            assert(t[j] == s[j + 1]);
        }
        lemma_until_is(t, c, i - 1);
    }
}

/// Whitespace in front of `s` does not change what `trim_start` gives.
pub proof fn lemma_trim_start_skip(s: Seq<char>, i: int)
    requires
        0 <= i <= s.len(),
        forall|j: int| 0 <= j < i ==> is_whitespace(s[j]),
    ensures
        trim_start(s) == trim_start(s.skip(i)),
    decreases i,
{
    if i == 0 {
        assert(s.skip(0) =~= s);
    } else {
        assert(is_whitespace(s[0]));
        let t = s.drop_first();
        assert forall|j: int| 0 <= j < i - 1 implies is_whitespace(t[j]) by {
            assert(t[j] == s[j + 1]);
        }
        lemma_trim_start_skip(t, i - 1);
        assert(t.skip(i - 1) =~= s.skip(i));
    }
}

/// Whitespace behind `s` does not change what `trim_end` gives.
pub proof fn lemma_trim_end_take(s: Seq<char>, i: int)
    requires
        0 <= i <= s.len(),
        forall|j: int| i <= j < s.len() ==> is_whitespace(s[j]),
    ensures
        trim_end(s) == trim_end(s.take(i)),
    decreases s.len() - i,
{
    if i == s.len() {
        assert(s.take(i) =~= s);
    } else {
        assert(is_whitespace(s.last()));
        let t = s.drop_last();
        lemma_trim_end_take(t, i);
        assert(t.take(i) =~= s.take(i));
    }
}

/// What `trim` gives neither starts nor ends with whitespace.
pub proof fn lemma_trim_is_trimmed(s: Seq<char>)
    ensures
        trim(s).len() > 0 ==> !is_whitespace(trim(s)[0]) && !is_whitespace(trim(s).last()),
        trim(trim(s)) == trim(s),
{
    lemma_trim_start_shape(s);
    lemma_trim_end_shape(trim_start(s));
    let a = trim_start(s);
    let b = trim_end(a);
    if b.len() > 0 {
        lemma_trim_end_is_prefix(a);
        assert(b[0] == a[0]);
    }
}

/// What `trim_start` gives does not start with whitespace.
pub proof fn lemma_trim_start_shape(s: Seq<char>)
    ensures
        trim_start(s).len() > 0 ==> !is_whitespace(trim_start(s)[0]),
        trim_start(s).len() <= s.len(),
    decreases s.len(),
{
    if s.len() > 0 && is_whitespace(s[0]) {
        lemma_trim_start_shape(s.drop_first());
    }
}

/// What `trim_end` gives does not end with whitespace.
pub proof fn lemma_trim_end_shape(s: Seq<char>)
    ensures
        trim_end(s).len() > 0 ==> !is_whitespace(trim_end(s).last()),
        trim_end(s).len() <= s.len(),
    decreases s.len(),
{
    if s.len() > 0 && is_whitespace(s.last()) {
        lemma_trim_end_shape(s.drop_last());
    }
}

/// What `trim_end` gives is a prefix of its argument.
pub proof fn lemma_trim_end_is_prefix(s: Seq<char>)
    ensures
        trim_end(s).len() <= s.len(),
        trim_end(s) == s.take(trim_end(s).len() as int),
    decreases s.len(),
{
    if s.len() > 0 && is_whitespace(s.last()) {
        let t = s.drop_last();
        lemma_trim_end_is_prefix(t);
        assert(t.take(trim_end(t).len() as int) =~= s.take(trim_end(t).len() as int));
    } else {
        assert(s.take(s.len() as int) =~= s);
    }
}

/// `String::push`: appends one character to the string.
#[verifier::external_body]
pub(crate) fn string_push(s: &mut String, c: char)
    ensures
        final(s)@ == old(s)@.push(c),
{
    s.push(c)
}

/// The characters of a string.
pub fn chars_of(s: &str) -> (v: Vec<char>)
    ensures
        v@ == s@,
{
    let mut v: Vec<char> = Vec::new();
    for c in it: s.chars()
        invariant
            v@ == it.seq().take(it.index() as int),
            it.seq() == s@,
    {
        v.push(c);
    }
    v
}

/// The string made of the given characters.
pub fn string_of(v: &[char]) -> (s: String)
    ensures
        s@ == v@,
{
    let mut s = String::new();
    let mut i: usize = 0;
    while i < v.len()
        invariant
            i <= v.len(),
            s@ == v@.take(i as int),
        decreases v.len() - i,
    {
        string_push(&mut s, v[i]);
        i += 1;
    }
    s
}

/// Whether `c` is whitespace.
pub fn is_whitespace_char(c: char) -> (b: bool)
    ensures
        b == is_whitespace(c),
{
    let u: u32 = c as u32;
    (0x09 <= u && u <= 0x0D) || u == 0x20 || u == 0x85 || u == 0xA0 || u == 0x1680 || (0x2000 <= u
        && u <= 0x200A) || u == 0x2028 || u == 0x2029 || u == 0x202F || u == 0x205F || u == 0x3000
}

/// The part of `s` between its leading and its trailing whitespace.
pub fn trim_chars(s: &[char]) -> (t: &[char])
    ensures
        t@ == trim(s@),
{
    let mut start: usize = 0;
    while start < s.len() && is_whitespace_char(s[start])
        invariant
            start <= s.len(),
            forall|j: int| 0 <= j < start ==> is_whitespace(s@[j]),
        decreases s.len() - start,
    {
        start += 1;
    }
    let mut end: usize = s.len();
    while end > start && is_whitespace_char(s[end - 1])
        invariant
            start <= end <= s.len(),
            forall|j: int| end <= j < s.len() ==> is_whitespace(s@[j]),
        decreases end,
    {
        end -= 1;
    }
    proof {
        let a = s@.skip(start as int);
        lemma_trim_start_skip(s@, start as int);
        assert(trim_start(s@) == a);
        lemma_trim_end_take(a, end - start);
        assert(a.take(end - start) =~= s@.subrange(start as int, end as int));
        assert(trim_end(a.take(end - start)) == a.take(end - start)) by {
            let b = a.take(end - start);
            if b.len() > 0 {
                assert(b.last() == s@[end - 1]);
            }
        }
    }
    slice_subrange(s, start, end)
}

/// The index of the first `c` in `s`, or `s.len()` where there is none.
pub fn find_char(s: &[char], c: char) -> (n: usize)
    ensures
        n == until(s@, c),
{
    let mut n: usize = 0;
    while n < s.len() && s[n] != c
        invariant
            n <= s.len(),
            forall|j: int| 0 <= j < n ==> s@[j] != c,
        decreases s.len() - n,
    {
        n += 1;
    }
    proof {
        lemma_until_is(s@, c, n as int);
    }
    n
}

/// The pieces of `s` between occurrences of `sep`.
pub fn split_chars(s: &[char], sep: char) -> (pieces: Vec<&[char]>)
    ensures
        pieces@.map_values(|p: &[char]| p@) == split(s@, sep),
        pieces.len() >= 1,
{
    let mut pieces: Vec<&[char]> = Vec::new();
    let mut rest: &[char] = s;
    loop
        invariant_except_break
            pieces@.map_values(|p: &[char]| p@) + split(rest@, sep) == split(s@, sep),
        ensures
            pieces@.map_values(|p: &[char]| p@) == split(s@, sep),
            pieces.len() >= 1,
        decreases rest.len(),
    {
        let n: usize = find_char(rest, sep);
        proof {
            lemma_until(rest@, sep);
        }
        if n < rest.len() {
            let ghost before = pieces@.map_values(|p: &[char]| p@);
            let piece = slice_subrange(rest, 0, n);
            let tail = slice_subrange(rest, n + 1, rest.len());
            pieces.push(piece);
            proof {
                assert(pieces@.map_values(|p: &[char]| p@) =~= before.push(piece@));
                assert(before.push(piece@) + split(tail@, sep) =~= before + (seq![piece@] + split(
                    tail@,
                    sep,
                )));
            }
            rest = tail;
        } else {
            let ghost before = pieces@.map_values(|p: &[char]| p@);
            pieces.push(rest);
            proof {
                assert(pieces@.map_values(|p: &[char]| p@) =~= before.push(rest@));
                assert(before.push(rest@) =~= before + seq![rest@]);
            }
            break;
        }
    }
    pieces
}

/// Whether `s` holds exactly the characters of `word`.
pub fn chars_equal(s: &[char], word: &str) -> (same: bool)
    ensures
        same == (s@ == word@),
{
    let mut same: bool = true;
    let mut i: usize = 0;
    for c in it: word.chars()
        invariant
            it.seq() == word@,
            same ==> i == it.index() && i <= s.len() && s@.take(i as int) == word@.take(i as int),
            !same ==> s@ != word@,
    {
        if same {
            if i < s.len() && s[i] == c {
                proof {
                    assert(s@.take(i + 1) =~= s@.take(i as int).push(s@[i as int]));
                    assert(word@.take(i + 1) =~= word@.take(i as int).push(word@[i as int]));
                }
                i += 1;
            } else {
                proof {
                    if s@ == word@ {
                        assert(s@[i as int] == word@[i as int]);
                    }
                }
                same = false;
            }
        }
    }
    proof {
        if same && i == s.len() {
            assert(s@.take(i as int) =~= s@);
            assert(word@.take(i as int) =~= word@);
        }
    }
    same && i == s.len()
}

/// The lines of `text`, each without its line ending.
pub fn split_lines(text: &str) -> (out: Vec<Vec<char>>)
    ensures
        out@.map_values(|l: Vec<char>| l@) == lines(text@),
{
    let chars = chars_of(text);
    let mut out: Vec<Vec<char>> = Vec::new();
    let mut rest: &[char] = chars.as_slice();
    while rest.len() > 0
        invariant
            out@.map_values(|l: Vec<char>| l@) + lines(rest@) == lines(text@),
        decreases rest.len(),
    {
        let n: usize = find_char(rest, '\n');
        let ghost before = out@.map_values(|l: Vec<char>| l@);
        proof {
            lemma_until(rest@, '\n');
        }
        if n < rest.len() {
            let mut end: usize = n;
            if end > 0 && rest[end - 1] == '\r' {
                end -= 1;
            }
            let line = slice_to_vec(slice_subrange(rest, 0, end));
            let tail = slice_subrange(rest, n + 1, rest.len());
            proof {
                let raw = rest@.subrange(0, n as int);
                assert(line@ =~= strip_carriage_return(raw)) by {
                    if raw.len() > 0 {
                        assert(raw.last() == rest@[n - 1]);
                    }
                }
            }
            out.push(line);
            proof {
                assert(out@.map_values(|l: Vec<char>| l@) =~= before.push(line@));
                assert(before.push(line@) + lines(tail@) =~= before + (seq![line@] + lines(tail@)));
            }
            rest = tail;
        } else {
            let line = slice_to_vec(rest);
            let tail = slice_subrange(rest, rest.len(), rest.len());
            out.push(line);
            proof {
                assert(out@.map_values(|l: Vec<char>| l@) =~= before.push(line@));
                assert(tail@ =~= Seq::<char>::empty());
                assert(lines(tail@) =~= Seq::<Seq<char>>::empty());
                assert(before.push(line@) + lines(tail@) =~= before + seq![rest@]);
            }
            rest = tail;
        }
    }
    proof {
        assert(lines(rest@) =~= Seq::<Seq<char>>::empty());
        assert(out@.map_values(|l: Vec<char>| l@) + Seq::<Seq<char>>::empty() =~= out@.map_values(
            |l: Vec<char>| l@,
        ));
    }
    out
}

} // verus!
