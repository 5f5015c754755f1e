//! The key-value table: one named, byte-oriented table that maps unique
//! string keys to byte values, with point lookup, upsert, and an ordered
//! cursor scan over its entries.

use vstd::prelude::*;
use vstd::slice::slice_to_vec;
use vstd::string::StrSliceExecFns;
use vstd::utf8::encode_utf8;

use crate::text::str_eq;

verus! {

/// Looks a key up in a table model; an absent key reads as the empty byte
/// sequence, which is how the store signals a miss.
pub open spec fn table_lookup(m: Map<Seq<char>, Seq<u8>>, k: Seq<char>) -> Seq<u8> {
    if m.contains_key(k) {
        m[k]
    } else {
        Seq::empty()
    }
}

/// The map that a sequence of entries denotes; a later entry for the same key
/// overrides an earlier one.
pub open spec fn entries_to_map(s: Seq<(Seq<char>, Seq<u8>)>) -> Map<Seq<char>, Seq<u8>>
    decreases s.len(),
{
    if s.len() == 0 {
        Map::empty()
    } else {
        entries_to_map(s.drop_last()).insert(s.last().0, s.last().1)
    }
}

/// Whether the keys of an entry sequence are pairwise distinct.
pub open spec fn keys_unique(s: Seq<(Seq<char>, Seq<u8>)>) -> bool {
    forall|i: int, j: int| 0 <= i < j < s.len() ==> s[i].0 != s[j].0
}

proof fn lemma_entries_contains(s: Seq<(Seq<char>, Seq<u8>)>, k: Seq<char>)
    ensures
        entries_to_map(s).contains_key(k) <==> exists|i: int| 0 <= i < s.len() && s[i].0 == k,
    decreases s.len(),
{
    if s.len() > 0 {
        lemma_entries_contains(s.drop_last(), k);
        if s.last().0 == k {
            assert(s[s.len() - 1].0 == k);
        } else if entries_to_map(s).contains_key(k) {
            let i = choose|i: int| 0 <= i < s.drop_last().len() && s.drop_last()[i].0 == k;
            assert(s[i].0 == k);
        } else if exists|i: int| 0 <= i < s.len() && s[i].0 == k {
            let i = choose|i: int| 0 <= i < s.len() && s[i].0 == k;
            assert(s.drop_last()[i].0 == k);
        }
    }
}

proof fn lemma_entries_found(s: Seq<(Seq<char>, Seq<u8>)>, k: Seq<char>, i: int)
    requires
        keys_unique(s),
        0 <= i < s.len(),
        s[i].0 == k,
    ensures
        entries_to_map(s).contains_key(k),
        entries_to_map(s)[k] == s[i].1,
    decreases s.len(),
{
    if i == s.len() - 1 {
    } else {
        assert(s.last().0 != k);
        assert(s.drop_last()[i] == s[i]);
        lemma_entries_found(s.drop_last(), k, i);
    }
}

proof fn lemma_entries_update(s: Seq<(Seq<char>, Seq<u8>)>, i: int, v: Seq<u8>)
    requires
        keys_unique(s),
        0 <= i < s.len(),
    ensures
        entries_to_map(s.update(i, (s[i].0, v))) == entries_to_map(s).insert(s[i].0, v),
        keys_unique(s.update(i, (s[i].0, v))),
    decreases s.len(),
{
    let k = s[i].0;
    let t = s.update(i, (k, v));
    assert(keys_unique(t));
    if i == s.len() - 1 {
        assert(t.drop_last() =~= s.drop_last());
        assert(entries_to_map(t) == entries_to_map(s.drop_last()).insert(k, v));
        assert(entries_to_map(s.drop_last()).insert(k, s[i].1).insert(k, v) =~= entries_to_map(
            s.drop_last(),
        ).insert(k, v));
    } else {
        assert(t.drop_last() =~= s.drop_last().update(i, (k, v)));
        assert(s.drop_last()[i] == s[i]);
        lemma_entries_update(s.drop_last(), i, v);
        let last = s.last();
        assert(t.last() == last);
        assert(last.0 != k);
        assert(entries_to_map(t) == entries_to_map(s.drop_last()).insert(k, v).insert(
            last.0,
            last.1,
        ));
        assert(entries_to_map(s.drop_last()).insert(k, v).insert(last.0, last.1)
            =~= entries_to_map(s.drop_last()).insert(last.0, last.1).insert(k, v));
    }
}

/// One named table of the store, held in memory: the model of the black-box
/// table provider, with deterministic scan order (insertion order; an upsert
/// keeps the key's position).
pub struct Table {
    entries: Vec<(String, Vec<u8>)>,
}

impl Table {
    /// The table's entries in scan order, as character and byte sequences.
    pub closed spec fn entry_seq(self) -> Seq<(Seq<char>, Seq<u8>)> {
        self.entries@.map_values(|e: (String, Vec<u8>)| (e.0@, e.1@))
    }

    /// The table's entries in scan order as the cursor hands them out: keys
    /// in their UTF-8 encoding.
    pub open spec fn entry_bytes(self) -> Seq<(Seq<u8>, Seq<u8>)> {
        self.entry_seq().map_values(|e: (Seq<char>, Seq<u8>)| (encode_utf8(e.0), e.1))
    }

    /// The mapping the table holds.
    pub open spec fn contents(self) -> Map<Seq<char>, Seq<u8>> {
        entries_to_map(self.entry_seq())
    }

    /// A key maps to at most one value: entry keys are pairwise distinct.
    pub closed spec fn wf(self) -> bool {
        keys_unique(self.entry_seq())
    }

    /// Creates an empty table.
    pub fn new() -> (t: Table)
        ensures
            t.wf(),
            t.contents() == Map::<Seq<char>, Seq<u8>>::empty(),
            t.entry_seq() == Seq::<(Seq<char>, Seq<u8>)>::empty(),
    {
        let t = Table { entries: Vec::new() };
        proof {
            assert(t.entry_seq() =~= Seq::<(Seq<char>, Seq<u8>)>::empty());
        }
        t
    }

    /// Returns the value stored under `key`, or the empty byte sequence when
    /// the key is absent.
    pub fn get(&self, key: &str) -> (r: Vec<u8>)
        requires
            self.wf(),
        ensures
            r@ == table_lookup(self.contents(), key@),
    {
        let n = self.entries.len();
        let mut i: usize = 0;
        while i < n
            invariant
                self.wf(),
                n == self.entries.len(),
                0 <= i <= n,
                forall|j: int| 0 <= j < i ==> self.entry_seq()[j].0 != key@,
            decreases n - i,
        {
            if str_eq(self.entries[i].0.as_str(), key) {
                proof {
                    lemma_entries_found(self.entry_seq(), key@, i as int);
                }
                return slice_to_vec(self.entries[i].1.as_slice());
            }
            i += 1;
        }
        proof {
            lemma_entries_contains(self.entry_seq(), key@);
        }
        Vec::new()
    }

    /// Upserts `value` under `key`. Only the transaction context calls this:
    /// every mutation of a table passes through a transaction.
    pub(crate) fn put(&mut self, key: &str, value: Vec<u8>)
        requires
            old(self).wf(),
        ensures
            final(self).wf(),
            final(self).contents() == old(self).contents().insert(key@, value@),
    {
        let n = self.entries.len();
        let mut i: usize = 0;
        while i < n
            invariant
                self.wf(),
                *self == *old(self),
                n == self.entries.len(),
                0 <= i <= n,
                forall|j: int| 0 <= j < i ==> self.entry_seq()[j].0 != key@,
            decreases n - i,
        {
            if str_eq(self.entries[i].0.as_str(), key) {
                let ghost s = self.entry_seq();
                let ghost vv = value@;
                let m = self.entries.as_mut_slice();
                m[i] = (key.to_owned(), value);
                proof {
                    assert(self.entry_seq() =~= s.update(i as int, (key@, vv)));
                    assert((key@, vv) == (s[i as int].0, vv));
                    lemma_entries_update(s, i as int, vv);
                }
                return ;
            }
            i += 1;
        }
        self.entries.push((key.to_owned(), value));
        proof {
            let s = old(self).entry_seq();
            assert(self.entry_seq() =~= s.push((key@, value@)));
            assert(self.entry_seq().drop_last() =~= s);
            assert(forall|j: int| 0 <= j < s.len() ==> s[j].0 != key@);
            assert(keys_unique(self.entry_seq()));
        }
    }

    /// Opens a scan over the table's current entries.
    pub fn cursor<'a>(&'a self) -> (c: Cursor<'a>)
        ensures
            c.src() == *self,
            c.pos() == 0,
    {
        Cursor { table: self, pos: 0 }
    }
}

/// A one-pass enumerator over a table's entries, in scan order. Each call to
/// `next` yields one entry or reports exhaustion; a new scan needs a new
/// cursor.
pub struct Cursor<'a> {
    table: &'a Table,
    pos: usize,
}

impl<'a> Cursor<'a> {
    /// The table being scanned.
    pub closed spec fn src(self) -> Table {
        *self.table
    }

    /// How many entries have been yielded so far.
    pub closed spec fn pos(self) -> int {
        self.pos as int
    }

    /// Yields the next entry as a (key bytes, value bytes) pair, or `None`
    /// once the scan is exhausted.
    pub fn next(&mut self) -> (e: Option<(Vec<u8>, Vec<u8>)>)
        ensures
            final(self).src() == old(self).src(),
            old(self).pos() < old(self).src().entry_bytes().len() ==> {
                &&& final(self).pos() == old(self).pos() + 1
                &&& e matches Some(p) && (p.0@, p.1@) == old(self).src().entry_bytes()[old(
                    self,
                ).pos()]
            },
            old(self).pos() >= old(self).src().entry_bytes().len() ==> {
                &&& final(self).pos() == old(self).pos()
                &&& e is None
            },
    {
        if self.pos < self.table.entries.len() {
            let k = self.table.entries[self.pos].0.as_str().as_bytes_vec();
            let v = slice_to_vec(self.table.entries[self.pos].1.as_slice());
            self.pos = self.pos + 1;
            Some((k, v))
        } else {
            None
        }
    }
}

} // verus!
