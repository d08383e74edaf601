//! Property values, and the quoting of strings.

use crate::number::{parse_int, parse_integer};
use crate::text::{chars_of, string_of, string_push, trim, trim_chars};
use vstd::prelude::*;
use vstd::slice::slice_subrange;

verus! {

/// A `Font` property.
#[derive(PartialEq, Eq, Debug)]
pub enum Property {
    /// A string, written in quotes.
    String(String),
    /// An integer.
    Integer(i64),
}

/// What a `Property` holds.
pub enum PropertyView {
    /// A string.
    String(Seq<char>),
    /// An integer.
    Integer(i64),
}

impl View for Property {
    type V = PropertyView;

    open spec fn view(&self) -> PropertyView {
        match self {
            Property::String(s) => PropertyView::String(s@),
            Property::Integer(i) => PropertyView::Integer(*i),
        }
    }
}

impl Clone for Property {
    fn clone(&self) -> (value: Self)
        ensures
            value@ == self@,
    {
        match self {
            Property::String(s) => Property::String(s.clone()),
            Property::Integer(i) => Property::Integer(*i),
        }
    }
}

/// `s` with every quote doubled.
pub open spec fn escape(s: Seq<char>) -> Seq<char>
    decreases s.len(),
{
    if s.len() == 0 {
        s
    } else if s[0] == '"' {
        seq!['"', '"'] + escape(s.drop_first())
    } else {
        seq![s[0]] + escape(s.drop_first())
    }
}

/// `s` with every pair of quotes, taken from the left, made one quote.
pub open spec fn unescape(s: Seq<char>) -> Seq<char>
    decreases s.len(),
{
    if s.len() == 0 {
        s
    } else if s.len() >= 2 && s[0] == '"' && s[1] == '"' {
        seq!['"'] + unescape(s.skip(2))
    } else {
        seq![s[0]] + unescape(s.drop_first())
    }
}

/// What stands between the quotes, where the trimmed `s` starts with a quote
/// and ends with another.
pub open spec fn quoted_part(s: Seq<char>) -> Option<Seq<char>> {
    let t = trim(s);
    if t.len() >= 2 && t[0] == '"' && t.last() == '"' {
        Some(t.subrange(1, t.len() - 1))
    } else {
        None
    }
}

/// The string that `s` stands for: what its quotes hold, with doubled quotes
/// made single, or `s` itself where it is not in quotes.
pub open spec fn extract_text(s: Seq<char>) -> Seq<char> {
    match quoted_part(s) {
        Some(inner) => unescape(inner),
        None => s,
    }
}

/// `s` in quotes, with the quotes inside it doubled.
pub open spec fn quote(s: Seq<char>) -> Seq<char> {
    seq!['"'] + escape(s) + seq!['"']
}

/// The property value that `s` stands for. What starts with a quote is a
/// string; of the rest, what reads as a 64-bit integer is one, and anything
/// else is a string as it stands.
pub open spec fn parse_property(s: Seq<char>) -> PropertyView {
    if s.len() > 0 && s[0] == '"' {
        PropertyView::String(extract_text(s))
    } else {
        match parse_int(s, 10, i64::MIN as int, i64::MAX as int) {
            Ok(v) => PropertyView::Integer(v as i64),
            Err(_) => PropertyView::String(s),
        }
    }
}

/// Removing the doubling gives back what was escaped, whatever follows it,
/// as long as that does not start with a quote.
pub proof fn lemma_unescape_escape(s: Seq<char>, tail: Seq<char>)
    requires
        tail.len() > 0 ==> tail[0] != '"',
    ensures
        unescape(escape(s) + tail) == s + unescape(tail),
    decreases s.len(),
{
    if s.len() == 0 {
        assert(escape(s) + tail =~= tail);
        assert(s + unescape(tail) =~= unescape(tail));
    } else {
        let rest = s.drop_first();
        lemma_unescape_escape(rest, tail);
        let whole = escape(s) + tail;
        if s[0] == '"' {
            assert(whole.skip(2) =~= escape(rest) + tail);
            assert(whole[0] == '"' && whole[1] == '"');
            assert(seq!['"'] + (rest + unescape(tail)) =~= s + unescape(tail));
        } else {
            assert(whole.drop_first() =~= escape(rest) + tail);
            assert(whole[0] == s[0]);
            assert(seq![s[0]] + (rest + unescape(tail)) =~= s + unescape(tail));
        }
    }
}

/// A quoted string stands for the string that was quoted.
pub proof fn lemma_extract_quote(s: Seq<char>)
    ensures
        extract_text(quote(s)) == s,
        quote(s).len() >= 2,
        quote(s)[0] == '"',
        quote(s).last() == '"',
{
    let q = quote(s);
    assert(q[0] == '"');
    assert(q.last() == '"');
    assert(trim(q) == q);
    assert(q.subrange(1, q.len() - 1) =~= escape(s));
    lemma_unescape_escape(s, Seq::<char>::empty());
    assert(escape(s) + Seq::<char>::empty() =~= escape(s));
    assert(s + unescape(Seq::<char>::empty()) =~= s);
}

/// Appends `s` to `out`, with every quote doubled.
pub fn push_escaped(out: &mut String, s: &str)
    ensures
        final(out)@ == old(out)@ + escape(s@),
{
    let chars = chars_of(s);
    let mut i: usize = 0;
    proof {
        assert(chars@.skip(0) =~= chars@);
        assert(old(out)@ + Seq::<char>::empty() =~= old(out)@);
    }
    while i < chars.len()
        invariant
            i <= chars.len(),
            chars@ == s@,
            out@ + escape(chars@.skip(i as int)) == old(out)@ + escape(s@),
        decreases chars.len() - i,
    {
        let c: char = chars[i];
        let ghost before = out@;
        let ghost here = chars@.skip(i as int);
        proof {
            assert(here[0] == c);
            assert(here.drop_first() =~= chars@.skip(i + 1));
        }
        if c == '"' {
            string_push(out, '"');
            string_push(out, '"');
            proof {
                assert(out@ + escape(chars@.skip(i + 1)) =~= before + (seq!['"', '"'] + escape(
                    chars@.skip(i + 1),
                )));
            }
        } else {
            string_push(out, c);
            proof {
                assert(out@ + escape(chars@.skip(i + 1)) =~= before + (seq![c] + escape(
                    chars@.skip(i + 1),
                )));
            }
        }
        i += 1;
    }
    proof {
        assert(escape(chars@.skip(i as int)) =~= Seq::<char>::empty());
        assert(out@ + Seq::<char>::empty() =~= out@);
    }
}

/// `s` with every pair of quotes made one quote.
pub fn unescape_chars(s: &[char]) -> (out: String)
    ensures
        out@ == unescape(s@),
{
    let mut out = String::new();
    let mut i: usize = 0;
    proof {
        assert(s@.skip(0) =~= s@);
        assert(Seq::<char>::empty() + unescape(s@) =~= unescape(s@));
    }
    while i < s.len()
        invariant
            i <= s.len(),
            out@ + unescape(s@.skip(i as int)) == unescape(s@),
        decreases s.len() - i,
    {
        let ghost before = out@;
        let ghost here = s@.skip(i as int);
        proof {
            assert(here[0] == s@[i as int]);
            assert(here.drop_first() =~= s@.skip(i + 1));
        }
        if s[i] == '"' && i + 1 < s.len() && s[i + 1] == '"' {
            proof {
                assert(here[1] == s@[i + 1]);
                assert(here.skip(2) =~= s@.skip(i + 2));
            }
            string_push(&mut out, '"');
            proof {
                assert(out@ + unescape(s@.skip(i + 2)) =~= before + (seq!['"'] + unescape(
                    s@.skip(i + 2),
                )));
            }
            i += 2;
        } else {
            proof {
                if here.len() >= 2 {
                    assert(here[1] == s@[i + 1]);
                }
            }
            string_push(&mut out, s[i]);
            proof {
                assert(out@ + unescape(s@.skip(i + 1)) =~= before + (seq![s@[i as int]] + unescape(
                    s@.skip(i + 1),
                )));
            }
            i += 1;
        }
    }
    proof {
        assert(unescape(s@.skip(i as int)) =~= Seq::<char>::empty());
        assert(out@ + Seq::<char>::empty() =~= out@);
    }
    out
}

/// What stands between the quotes of `s`, where it is in quotes.
pub fn strip_quotes_chars(s: &[char]) -> (inner: Option<&[char]>)
    ensures
        match inner {
            Some(t) => quoted_part(s@) == Some(t@),
            None => quoted_part(s@) is None,
        },
{
    let t = trim_chars(s);
    if t.len() >= 2 && t[0] == '"' && t[t.len() - 1] == '"' {
        Some(slice_subrange(t, 1, t.len() - 1))
    } else {
        None
    }
}

/// The string that `s` stands for.
pub fn extract_chars(s: &[char]) -> (out: String)
    ensures
        out@ == extract_text(s@),
{
    match strip_quotes_chars(s) {
        Some(inner) => unescape_chars(inner),
        None => string_of(s),
    }
}

/// The property value that `s` stands for.
pub fn parse_chars(s: &[char]) -> (value: Property)
    ensures
        value@ == parse_property(s@),
{
    if s.len() > 0 && s[0] == '"' {
        Property::String(extract_chars(s))
    } else {
        match parse_integer(s, 10, i64::MIN as i128, i64::MAX as i128) {
            Ok(v) => Property::Integer(v as i64),
            Err(_) => Property::String(string_of(s)),
        }
    }
}

/// What stands between the quotes of `string`, where its trimmed form starts
/// with a quote and ends with another.
pub fn strip_quotes(string: &str) -> (inner: Option<String>)
    ensures
        match inner {
            Some(t) => quoted_part(string@) == Some(t@),
            None => quoted_part(string@) is None,
        },
{
    let chars = chars_of(string);
    match strip_quotes_chars(chars.as_slice()) {
        Some(t) => Some(string_of(t)),
        None => None,
    }
}

/// Extracts the string that `string` stands for: what its quotes hold, with
/// doubled quotes made single, or `string` itself where it is not in quotes.
pub fn extract(string: &str) -> (out: String)
    ensures
        out@ == extract_text(string@),
{
    let chars = chars_of(string);
    extract_chars(chars.as_slice())
}

impl Property {
    /// Parse a property string.
    pub fn parse(string: &str) -> (value: Property)
        ensures
            value@ == parse_property(string@),
    {
        let chars = chars_of(string);
        parse_chars(chars.as_slice())
    }
}

} // verus!
