//! A structured configuration document: an ordered map from field names to
//! values, where a value is a piece of text, a nested map, or an opaque
//! leaf kept in its serialized form.
//!
//! This is the shape the credential lifecycle works on. The unverified shell
//! converts a parsed JSON or TOML document into a `DocMap` (strings become
//! `Text`, objects and tables become `Object`, everything else becomes
//! `Opaque` holding its serialized text) and serializes a `DocMap` back, so
//! a document survives a round trip through this type unchanged modulo
//! formatting.

use vstd::prelude::*;
use crate::text::str_eq;

verus! {

/// One field value of a configuration document.
#[derive(Debug)]
pub enum FieldValue {
    /// A string value.
    Text(String),
    /// A nested object or table.
    Object(DocMap),
    /// Any other value, held as the text it was parsed from.
    Opaque(String),
}

/// An ordered association of field names to values, first occurrence
/// authoritative.
#[derive(Debug)]
pub struct DocMap {
    pub entries: Vec<(String, FieldValue)>,
}

// ---------------------------------------------------------------------------
// Specification-level association-list operations
// ---------------------------------------------------------------------------

/// The position of the first entry named `key`, or `s.len()` if none is.
pub open spec fn key_idx<T>(s: Seq<(String, T)>, key: Seq<char>) -> int
    decreases s.len(),
{
    if s.len() == 0 {
        0
    } else if s[0].0@ == key {
        0
    } else {
        1 + key_idx(s.drop_first(), key)
    }
}

pub proof fn lemma_key_idx<T>(s: Seq<(String, T)>, key: Seq<char>)
    ensures
        0 <= key_idx(s, key) <= s.len(),
        key_idx(s, key) < s.len() ==> s[key_idx(s, key)].0@ == key,
        forall|j: int| 0 <= j < key_idx(s, key) ==> s[j].0@ != key,
    decreases s.len(),
{
    if s.len() > 0 && s[0].0@ != key {
        lemma_key_idx(s.drop_first(), key);
        assert forall|j: int| 0 <= j < key_idx(s, key) implies s[j].0@ != key by {
            if j > 0 {
                assert(s.drop_first()[j - 1] == s[j]);
            }
        }
    }
}

/// The first entry named `key` is at `k` when no earlier entry is.
pub proof fn lemma_key_idx_is<T>(s: Seq<(String, T)>, key: Seq<char>, k: int)
    requires
        0 <= k <= s.len(),
        forall|j: int| 0 <= j < k ==> s[j].0@ != key,
        k < s.len() ==> s[k].0@ == key,
    ensures
        key_idx(s, key) == k,
    decreases k,
{
    if k > 0 {
        assert(s[0].0@ != key);
        assert forall|j: int| 0 <= j < k - 1 implies s.drop_first()[j].0@ != key by {
            assert(s.drop_first()[j] == s[j + 1]);
        }
        if k - 1 < s.drop_first().len() {
            assert(s.drop_first()[k - 1] == s[k]);
        }
        lemma_key_idx_is(s.drop_first(), key, k - 1);
    }
}

/// Whether some entry is named `key`.
pub open spec fn has_key<T>(s: Seq<(String, T)>, key: Seq<char>) -> bool {
    key_idx(s, key) < s.len()
}

/// The value of the first entry named `key`.
pub open spec fn map_get<T>(s: Seq<(String, T)>, key: Seq<char>) -> Option<T> {
    if has_key(s, key) {
        Some(s[key_idx(s, key)].1)
    } else {
        None
    }
}

/// `s` with the first entry named `key` set to `v`, or with `(key, v)`
/// appended when no entry is named `key`.
pub open spec fn seq_set<T>(s: Seq<(String, T)>, key: String, v: T) -> Seq<(String, T)> {
    if has_key(s, key@) {
        s.update(key_idx(s, key@), (key, v))
    } else {
        s.push((key, v))
    }
}

/// `s` without its first entry named `key`.
pub open spec fn seq_remove<T>(s: Seq<(String, T)>, key: Seq<char>) -> Seq<(String, T)> {
    if has_key(s, key) {
        s.remove(key_idx(s, key))
    } else {
        s
    }
}

/// No two entries share a name.
pub open spec fn unique_keys<T>(s: Seq<(String, T)>) -> bool {
    forall|i: int, j: int| 0 <= i < j < s.len() ==> s[i].0@ != s[j].0@
}

/// Two lists with the same names in the same places put every first
/// occurrence at the same position.
pub proof fn lemma_key_idx_same_keys<T>(s0: Seq<(String, T)>, s1: Seq<(String, T)>, key: Seq<char>)
    requires
        s0.len() == s1.len(),
        forall|i: int| 0 <= i < s0.len() ==> (#[trigger] s1[i]).0@ == s0[i].0@,
    ensures
        key_idx(s1, key) == key_idx(s0, key),
    decreases s0.len(),
{
    if s0.len() > 0 && s0[0].0@ != key {
        assert forall|i: int| 0 <= i < s0.drop_first().len() implies (
        #[trigger] s1.drop_first()[i]).0@ == s0.drop_first()[i].0@ by {
            assert(s0.drop_first()[i] == s0[i + 1]);
            assert(s1.drop_first()[i] == s1[i + 1]);
        }
        lemma_key_idx_same_keys(s0.drop_first(), s1.drop_first(), key);
    }
}

/// What `seq_set` does to every lookup: the written name reads back the new
/// value, every other name is untouched.
pub proof fn lemma_seq_set_get<T>(s: Seq<(String, T)>, key: String, v: T, k2: Seq<char>)
    ensures
        map_get(seq_set(s, key, v), k2) == (if k2 == key@ {
            Some(v)
        } else {
            map_get(s, k2)
        }),
{
    lemma_key_idx(s, key@);
    lemma_key_idx(s, k2);
    let s1 = seq_set(s, key, v);
    if has_key(s, key@) {
        let i0 = key_idx(s, key@);
        assert forall|i: int| 0 <= i < s.len() implies (#[trigger] s1[i]).0@ == s[i].0@ by {}
        lemma_key_idx_same_keys(s, s1, k2);
        if k2 == key@ {
            assert(s1[i0].1 == v);
        } else {
            if has_key(s, k2) {
                assert(key_idx(s, k2) != i0);
            }
        }
    } else {
        if k2 == key@ {
            assert forall|j: int| 0 <= j < s.len() implies !((#[trigger] s1[j]).0@ == k2) by {
                assert(s[j].0@ != key@);
            }
            lemma_key_idx_is(s1, k2, s.len() as int);
        } else {
            if has_key(s, k2) {
                let j2 = key_idx(s, k2);
                assert forall|j: int| 0 <= j < j2 implies !((#[trigger] s1[j]).0@ == k2) by {
                    assert(s[j].0@ != k2);
                }
                lemma_key_idx_is(s1, k2, j2);
            } else {
                assert forall|j: int| 0 <= j < s1.len() implies !((#[trigger] s1[j]).0@ == k2) by {
                    if j < s.len() {
                        assert(s[j].0@ != k2);
                    }
                }
                lemma_key_idx_is(s1, k2, s1.len() as int);
            }
        }
    }
}

/// What `seq_remove` does to every other lookup: nothing.
pub proof fn lemma_seq_remove_get<T>(s: Seq<(String, T)>, key: Seq<char>, k2: Seq<char>)
    requires
        k2 != key,
    ensures
        map_get(seq_remove(s, key), k2) == map_get(s, k2),
{
    lemma_key_idx(s, key);
    lemma_key_idx(s, k2);
    if has_key(s, key) {
        let i0 = key_idx(s, key);
        let s1 = s.remove(i0);
        if has_key(s, k2) {
            let j2 = key_idx(s, k2);
            assert(j2 != i0);
            if j2 < i0 {
                assert forall|j: int| 0 <= j < j2 implies !((#[trigger] s1[j]).0@ == k2) by {
                    assert(s1[j] == s[j]);
                }
                assert(s1[j2] == s[j2]);
                lemma_key_idx_is(s1, k2, j2);
            } else {
                assert forall|j: int| 0 <= j < j2 - 1 implies !((#[trigger] s1[j]).0@ == k2) by {
                    if j < i0 {
                        assert(s1[j] == s[j]);
                    } else {
                        assert(s1[j] == s[j + 1]);
                    }
                }
                assert(s1[j2 - 1] == s[j2]);
                lemma_key_idx_is(s1, k2, j2 - 1);
            }
        } else {
            assert forall|j: int| 0 <= j < s1.len() implies !((#[trigger] s1[j]).0@ == k2) by {
                if j < i0 {
                    assert(s1[j] == s[j]);
                } else {
                    assert(s1[j] == s[j + 1]);
                }
            }
            lemma_key_idx_is(s1, k2, s1.len() as int);
        }
    }
}

// ---------------------------------------------------------------------------
// Executable operations
// ---------------------------------------------------------------------------

impl DocMap {
    /// An empty document.
    pub fn new() -> (r: Self)
        ensures
            r.entries@ == Seq::<(String, FieldValue)>::empty(),
    {
        DocMap { entries: Vec::new() }
    }

    /// The value of the first field named `key`, if any.
    pub fn get(&self, key: &str) -> (r: Option<&FieldValue>)
        ensures
            match r {
                Some(v) => map_get(self.entries@, key@) == Some(*v),
                None => map_get(self.entries@, key@) is None,
            },
    {
        let n = self.entries.len();
        let mut i: usize = 0;
        while i < n
            invariant
                n == self.entries@.len(),
                0 <= i <= n,
                forall|j: int| 0 <= j < i ==> self.entries@[j].0@ != key@,
            decreases n - i,
        {
            if str_eq(self.entries[i].0.as_str(), key) {
                proof {
                    lemma_key_idx_is(self.entries@, key@, i as int);
                }
                return Some(&self.entries[i].1);
            }
            i += 1;
        }
        proof {
            lemma_key_idx_is(self.entries@, key@, n as int);
        }
        None
    }

    /// Whether a field named `key` exists.
    pub fn has(&self, key: &str) -> (r: bool)
        ensures
            r == has_key(self.entries@, key@),
    {
        match self.get(key) {
            Some(_) => true,
            None => false,
        }
    }

    /// The text of the first field named `key`, when that field is a string.
    pub fn get_text(&self, key: &str) -> (r: Option<&String>)
        ensures
            match r {
                Some(s) => map_get(self.entries@, key@) == Some(FieldValue::Text(*s)),
                None => !(map_get(self.entries@, key@) matches Some(FieldValue::Text(_))),
            },
    {
        match self.get(key) {
            Some(FieldValue::Text(s)) => Some(s),
            _ => None,
        }
    }

    /// Sets the first field named `key` to `v`, appending the field when it
    /// does not exist.
    pub fn set(&mut self, key: String, v: FieldValue)
        ensures
            final(self).entries@ == seq_set(old(self).entries@, key, v),
    {
        let n = self.entries.len();
        let mut i: usize = 0;
        while i < n
            invariant
                n == self.entries@.len(),
                self.entries@ == old(self).entries@,
                0 <= i <= n,
                forall|j: int| 0 <= j < i ==> self.entries@[j].0@ != key@,
            decreases n - i,
        {
            if str_eq(self.entries[i].0.as_str(), key.as_str()) {
                proof {
                    lemma_key_idx_is(self.entries@, key@, i as int);
                }
                self.entries.set(i, (key, v));
                return;
            }
            i += 1;
        }
        proof {
            lemma_key_idx_is(self.entries@, key@, n as int);
        }
        self.entries.push((key, v));
    }

    /// Removes and returns the first field named `key`, if any.
    pub fn remove(&mut self, key: &str) -> (r: Option<FieldValue>)
        ensures
            final(self).entries@ == seq_remove(old(self).entries@, key@),
            match r {
                Some(v) => map_get(old(self).entries@, key@) == Some(v),
                None => map_get(old(self).entries@, key@) is None,
            },
    {
        let n = self.entries.len();
        let mut i: usize = 0;
        while i < n
            invariant
                n == self.entries@.len(),
                self.entries@ == old(self).entries@,
                0 <= i <= n,
                forall|j: int| 0 <= j < i ==> self.entries@[j].0@ != key@,
            decreases n - i,
        {
            if str_eq(self.entries[i].0.as_str(), key) {
                proof {
                    lemma_key_idx_is(self.entries@, key@, i as int);
                }
                let (_, v) = self.entries.remove(i);
                return Some(v);
            }
            i += 1;
        }
        proof {
            lemma_key_idx_is(self.entries@, key@, n as int);
        }
        None
    }
}

// ---------------------------------------------------------------------------
// Equivalence up to formatting
// ---------------------------------------------------------------------------

/// Equivalence of values one nesting level below `entry_equiv`: leaves agree
/// by their text, nested objects must be the same value.
pub open spec fn leaf_equiv(a: FieldValue, b: FieldValue) -> bool {
    match (a, b) {
        (FieldValue::Text(x), FieldValue::Text(y)) => x@ == y@,
        (FieldValue::Opaque(x), FieldValue::Opaque(y)) => x@ == y@,
        (FieldValue::Object(m), FieldValue::Object(n)) => m == n,
        _ => false,
    }
}

/// Equivalence of two field values: leaves agree by their text; objects
/// agree entry by entry, with `leaf_equiv` one level further down.
pub open spec fn entry_equiv(a: FieldValue, b: FieldValue) -> bool {
    match (a, b) {
        (FieldValue::Text(x), FieldValue::Text(y)) => x@ == y@,
        (FieldValue::Opaque(x), FieldValue::Opaque(y)) => x@ == y@,
        (FieldValue::Object(m), FieldValue::Object(n)) => {
            &&& m.entries.len() == n.entries.len()
            &&& forall|i: int|
                0 <= i < m.entries.len() ==> (#[trigger] m.entries[i]).0@ == n.entries[i].0@
            &&& forall|i: int|
                0 <= i < m.entries.len() ==> leaf_equiv(
                    (#[trigger] m.entries[i]).1,
                    n.entries[i].1,
                )
        },
        _ => false,
    }
}

/// A value one level down is equivalent to itself.
pub proof fn lemma_leaf_equiv_refl(a: FieldValue)
    ensures
        leaf_equiv(a, a),
{
    match a {
        FieldValue::Text(_) => {},
        FieldValue::Object(_) => {},
        FieldValue::Opaque(_) => {},
    }
}

/// A field value is equivalent to itself.
pub proof fn lemma_entry_equiv_refl(a: FieldValue)
    ensures
        entry_equiv(a, a),
{
    match a {
        FieldValue::Text(_) => {},
        FieldValue::Opaque(_) => {},
        FieldValue::Object(m) => {
            assert forall|i: int| 0 <= i < m.entries.len() implies leaf_equiv(
                (#[trigger] m.entries[i]).1,
                m.entries[i].1,
            ) by {
                lemma_leaf_equiv_refl(m.entries[i].1);
            }
        },
    }
}

/// Two documents that serialize identically modulo formatting: the same
/// field names in the same order, with equivalent values.
pub open spec fn doc_equiv(a: DocMap, b: DocMap) -> bool {
    &&& a.entries.len() == b.entries.len()
    &&& forall|i: int| 0 <= i < a.entries.len() ==> (#[trigger] a.entries[i]).0@ == b.entries[i].0@
    &&& forall|i: int|
        0 <= i < a.entries.len() ==> entry_equiv((#[trigger] a.entries[i]).1, b.entries[i].1)
}

} // verus!
