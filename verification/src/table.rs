//! The tables of a font: its properties by name, its glyphs by codepoint.
//!
//! A table keeps its entries in the order in which their keys came in, and
//! no key twice.

use crate::glyph::{Glyph, GlyphView};
use crate::property::{Property, PropertyView};
use vstd::prelude::*;

verus! {

/// The place of the first entry with the key `k`, or the number of entries
/// where there is none.
pub open spec fn position<K, V>(s: Seq<(K, V)>, k: K) -> int
    decreases s.len(),
{
    if s.len() == 0 || s[0].0 == k {
        0
    } else {
        1 + position(s.drop_first(), k)
    }
}

/// The value that stands under the key `k`.
pub open spec fn lookup<K, V>(s: Seq<(K, V)>, k: K) -> Option<V> {
    let i = position(s, k);
    if 0 <= i < s.len() {
        Some(s[i].1)
    } else {
        None
    }
}

/// The entries with `v` under the key `k`: in the place of the entry that
/// had this key, or behind all where none had it.
pub open spec fn put<K, V>(s: Seq<(K, V)>, k: K, v: V) -> Seq<(K, V)> {
    let i = position(s, k);
    if 0 <= i < s.len() {
        s.update(i, (k, v))
    } else {
        s.push((k, v))
    }
}

/// Whether no key stands twice.
pub open spec fn unique_keys<K, V>(s: Seq<(K, V)>) -> bool {
    forall|i: int, j: int| 0 <= i < j < s.len() ==> (#[trigger] s[i]).0 != (#[trigger] s[j]).0
}

/// What `position` finds: no entry before it has the key, and the entry at
/// it has the key unless it is the end.
pub proof fn lemma_position<K, V>(s: Seq<(K, V)>, k: K)
    ensures
        0 <= position(s, k) <= s.len(),
        forall|j: int| 0 <= j < position(s, k) ==> (#[trigger] s[j]).0 != k,
        position(s, k) < s.len() ==> s[position(s, k)].0 == k,
    decreases s.len(),
{
    if s.len() == 0 || s[0].0 == k {
    } else {
        let t = s.drop_first();
        lemma_position(t, k);
        assert forall|j: int| 0 <= j < position(s, k) implies (#[trigger] s[j]).0 != k by {
            if j > 0 {
                assert(s[j] == t[j - 1]);
            }
        }
        assert(position(s, k) == s.len() || s[position(s, k)] == t[position(t, k)]);
    }
}

/// `position` is the only place with the properties of `lemma_position`.
pub proof fn lemma_position_is<K, V>(s: Seq<(K, V)>, k: K, i: int)
    requires
        0 <= i <= s.len(),
        forall|j: int| 0 <= j < i ==> (#[trigger] s[j]).0 != k,
        i < s.len() ==> s[i].0 == k,
    ensures
        position(s, k) == i,
    decreases s.len(),
{
    if s.len() == 0 || s[0].0 == k {
        if i > 0 {
            assert(s[0].0 != k);
        }
    } else {
        let t = s.drop_first();
        assert forall|j: int| 0 <= j < i - 1 implies (#[trigger] t[j]).0 != k by {
            assert(t[j] == s[j + 1]);
        }
        lemma_position_is(t, k, i - 1);
    }
}

/// Putting a value under a key keeps the keys apart.
pub proof fn lemma_put_unique<K, V>(s: Seq<(K, V)>, k: K, v: V)
    requires
        unique_keys(s),
    ensures
        unique_keys(put(s, k, v)),
        lookup(put(s, k, v), k) == Some(v),
{
    lemma_position(s, k);
    let i = position(s, k);
    let t = put(s, k, v);
    assert forall|a: int, b: int| 0 <= a < b < t.len() implies (#[trigger] t[a]).0 != (
    #[trigger] t[b]).0 by {
        if i < s.len() {
            assert(t[a].0 == s[a].0);
            assert(t[b].0 == s[b].0);
        } else {
            if b == s.len() {
                assert(t[a] == s[a]);
            } else {
                assert(t[a] == s[a]);
                assert(t[b] == s[b]);
            }
        }
    }
    assert forall|j: int| 0 <= j < i implies (#[trigger] t[j]).0 != k by {
        assert(t[j] == s[j]);
    }
    lemma_position_is(t, k, i);
}

/// What a table of properties holds.
pub open spec fn properties_view(entries: Seq<(String, Property)>) -> Seq<
    (Seq<char>, PropertyView),
> {
    entries.map_values(|e: (String, Property)| (e.0@, e.1@))
}

/// What a table of glyphs holds.
pub open spec fn glyphs_view(entries: Seq<(char, Glyph)>) -> Seq<(char, GlyphView)> {
    entries.map_values(|e: (char, Glyph)| (e.0, e.1@))
}

/// The properties of a font by name.
#[derive(Debug)]
pub struct Properties {
    entries: Vec<(String, Property)>,
}

impl View for Properties {
    type V = Seq<(Seq<char>, PropertyView)>;

    closed spec fn view(&self) -> Seq<(Seq<char>, PropertyView)> {
        properties_view(self.entries@)
    }
}

impl Properties {
    #[verifier::type_invariant]
    spec fn apart(self) -> bool {
        unique_keys(properties_view(self.entries@))
    }

    /// A table without entries.
    pub fn new() -> (table: Self)
        ensures
            table@ == Seq::<(Seq<char>, PropertyView)>::empty(),
    {
        let table = Properties { entries: Vec::new() };
        assert(table@ =~= Seq::<(Seq<char>, PropertyView)>::empty());
        table
    }

    /// The number of entries.
    pub fn len(&self) -> (n: usize)
        ensures
            n == self@.len(),
            unique_keys(self@),
    {
        proof {
            use_type_invariant(self);
        }
        self.entries.len()
    }

    /// Whether the table has no entry.
    pub fn is_empty(&self) -> (empty: bool)
        ensures
            empty == (self@.len() == 0),
    {
        self.entries.len() == 0
    }

    /// The place of the entry with the given name, or the number of entries.
    fn find(&self, name: &String) -> (i: usize)
        ensures
            i == position(self@, name@),
            i <= self@.len(),
    {
        let mut i: usize = 0;
        while i < self.entries.len() && !(self.entries[i].0 == *name)
            invariant
                i <= self.entries.len(),
                forall|j: int| 0 <= j < i ==> (#[trigger] self@[j]).0 != name@,
            decreases self.entries.len() - i,
        {
            i += 1;
        }
        proof {
            lemma_position_is(self@, name@, i as int);
        }
        i
    }

    /// The value of the property with the given name.
    pub fn get(&self, name: &str) -> (value: Option<&Property>)
        ensures
            match value {
                Some(v) => lookup(self@, name@) == Some(v@),
                None => lookup(self@, name@) is None,
            },
    {
        let key = name.to_owned();
        let i = self.find(&key);
        if i < self.entries.len() {
            Some(&self.entries[i].1)
        } else {
            None
        }
    }

    /// Puts the value under the name, in place of the value that the name
    /// had, if it had one.
    pub fn insert(&mut self, name: String, value: Property)
        ensures
            final(self)@ == put(old(self)@, name@, value@),
    {
        proof {
            use_type_invariant(&*self);
            lemma_put_unique(self@, name@, value@);
        }
        let i = self.find(&name);
        let ghost wanted = put(self@, name@, value@);
        let mut entries: Vec<(String, Property)> = Vec::new();
        core::mem::swap(&mut self.entries, &mut entries);
        if i < entries.len() {
            entries.set(i, (name, value));
        } else {
            entries.push((name, value));
        }
        proof {
            assert(properties_view(entries@) =~= wanted);
        }
        self.entries = entries;
    }

    /// The name of the entry at the given place.
    pub fn name_at(&self, i: usize) -> (name: &str)
        requires
            i < self@.len(),
        ensures
            name@ == self@[i as int].0,
    {
        self.entries[i].0.as_str()
    }

    /// The value of the entry at the given place.
    pub fn value_at(&self, i: usize) -> (value: &Property)
        requires
            i < self@.len(),
        ensures
            value@ == self@[i as int].1,
    {
        &self.entries[i].1
    }
}

/// The glyphs of a font by codepoint.
#[derive(Debug)]
pub struct Glyphs {
    entries: Vec<(char, Glyph)>,
}

impl View for Glyphs {
    type V = Seq<(char, GlyphView)>;

    closed spec fn view(&self) -> Seq<(char, GlyphView)> {
        glyphs_view(self.entries@)
    }
}

impl Glyphs {
    #[verifier::type_invariant]
    spec fn apart(self) -> bool {
        unique_keys(glyphs_view(self.entries@))
    }

    /// A table without entries.
    pub fn new() -> (table: Self)
        ensures
            table@ == Seq::<(char, GlyphView)>::empty(),
    {
        let table = Glyphs { entries: Vec::new() };
        assert(table@ =~= Seq::<(char, GlyphView)>::empty());
        table
    }

    /// The number of entries.
    pub fn len(&self) -> (n: usize)
        ensures
            n == self@.len(),
            unique_keys(self@),
    {
        proof {
            use_type_invariant(self);
        }
        self.entries.len()
    }

    /// Whether the table has no entry.
    pub fn is_empty(&self) -> (empty: bool)
        ensures
            empty == (self@.len() == 0),
    {
        self.entries.len() == 0
    }

    /// The place of the entry with the given codepoint, or the number of
    /// entries.
    fn find(&self, codepoint: char) -> (i: usize)
        ensures
            i == position(self@, codepoint),
            i <= self@.len(),
    {
        let mut i: usize = 0;
        while i < self.entries.len() && self.entries[i].0 != codepoint
            invariant
                i <= self.entries.len(),
                forall|j: int| 0 <= j < i ==> (#[trigger] self@[j]).0 != codepoint,
            decreases self.entries.len() - i,
        {
            i += 1;
        }
        proof {
            lemma_position_is(self@, codepoint, i as int);
        }
        i
    }

    /// The glyph of the given codepoint.
    pub fn get(&self, codepoint: char) -> (glyph: Option<&Glyph>)
        ensures
            match glyph {
                Some(g) => lookup(self@, codepoint) == Some(g@),
                None => lookup(self@, codepoint) is None,
            },
    {
        let i = self.find(codepoint);
        if i < self.entries.len() {
            Some(&self.entries[i].1)
        } else {
            None
        }
    }

    /// Puts the glyph under the codepoint, in place of the glyph that the
    /// codepoint had, if it had one.
    pub fn insert(&mut self, codepoint: char, glyph: Glyph)
        ensures
            final(self)@ == put(old(self)@, codepoint, glyph@),
    {
        proof {
            use_type_invariant(&*self);
            lemma_put_unique(self@, codepoint, glyph@);
        }
        let i = self.find(codepoint);
        let ghost wanted = put(self@, codepoint, glyph@);
        let mut entries: Vec<(char, Glyph)> = Vec::new();
        core::mem::swap(&mut self.entries, &mut entries);
        if i < entries.len() {
            entries.set(i, (codepoint, glyph));
        } else {
            entries.push((codepoint, glyph));
        }
        proof {
            assert(glyphs_view(entries@) =~= wanted);
        }
        self.entries = entries;
    }

    /// The codepoint of the entry at the given place.
    pub fn codepoint_at(&self, i: usize) -> (codepoint: char)
        requires
            i < self@.len(),
        ensures
            codepoint == self@[i as int].0,
    {
        self.entries[i].0
    }

    /// The glyph of the entry at the given place.
    pub fn glyph_at(&self, i: usize) -> (glyph: &Glyph)
        requires
            i < self@.len(),
        ensures
            glyph@ == self@[i as int].1,
    {
        &self.entries[i].1
    }
}

} // verus!
