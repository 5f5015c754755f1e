//! The transaction context: the sole mutation gate of a table. Writes are
//! buffered while the context is open; `commit` makes them all visible,
//! `cancel` discards them all, leaving the table exactly as it was opened.

use vstd::prelude::*;
use vstd::slice::slice_to_vec;

use crate::store::table_lookup;
use crate::store::Table;

verus! {

/// The map reached from `m` after the buffered writes `ws`, applied in
/// order; a later write to the same key overrides an earlier one.
pub open spec fn apply_writes(
    m: Map<Seq<char>, Seq<u8>>,
    ws: Seq<(Seq<char>, Seq<u8>)>,
) -> Map<Seq<char>, Seq<u8>>
    decreases ws.len(),
{
    if ws.len() == 0 {
        m
    } else {
        apply_writes(m, ws.drop_last()).insert(ws.last().0, ws.last().1)
    }
}

proof fn lemma_apply_absent(m: Map<Seq<char>, Seq<u8>>, ws: Seq<(Seq<char>, Seq<u8>)>, k: Seq<char>)
    requires
        forall|j: int| 0 <= j < ws.len() ==> ws[j].0 != k,
    ensures
        table_lookup(apply_writes(m, ws), k) == table_lookup(m, k),
    decreases ws.len(),
{
    if ws.len() > 0 {
        assert(ws.last().0 != k);
        lemma_apply_absent(m, ws.drop_last(), k);
    }
}

proof fn lemma_apply_found(
    m: Map<Seq<char>, Seq<u8>>,
    ws: Seq<(Seq<char>, Seq<u8>)>,
    k: Seq<char>,
    i: int,
)
    requires
        0 <= i < ws.len(),
        ws[i].0 == k,
        forall|j: int| i < j < ws.len() ==> ws[j].0 != k,
    ensures
        apply_writes(m, ws).contains_key(k),
        apply_writes(m, ws)[k] == ws[i].1,
    decreases ws.len(),
{
    if i == ws.len() - 1 {
    } else {
        assert(ws.last().0 != k);
        assert(ws.drop_last()[i] == ws[i]);
        lemma_apply_found(m, ws.drop_last(), k, i);
    }
}

/// One open transaction over one table. Its lifecycle is
/// `open -> (commit | cancel)`, both terminal: the context is consumed.
/// Cancel atomicity holds by contract: whatever `set` calls were made, the
/// table that `cancel` returns has the contents and the scan order that the
/// table handed to `open` had.
pub struct Transaction {
    base: Table,
    writes: Vec<(String, Vec<u8>)>,
}

impl Transaction {
    /// The table contents when the transaction was opened.
    pub closed spec fn pre_contents(self) -> Map<Seq<char>, Seq<u8>> {
        self.base.contents()
    }

    /// The entry scan order when the transaction was opened.
    pub closed spec fn pre_entries(self) -> Seq<(Seq<u8>, Seq<u8>)> {
        self.base.entry_bytes()
    }

    /// The contents that a commit at this point would make visible.
    pub closed spec fn cur_contents(self) -> Map<Seq<char>, Seq<u8>> {
        apply_writes(
            self.base.contents(),
            self.writes@.map_values(|e: (String, Vec<u8>)| (e.0@, e.1@)),
        )
    }

    pub closed spec fn wf(self) -> bool {
        self.base.wf()
    }

    /// Opens a transaction over `t`. No mutation has happened yet: the
    /// current contents are the pre-state.
    pub fn open(t: Table) -> (tx: Transaction)
        requires
            t.wf(),
        ensures
            tx.wf(),
            tx.pre_contents() == t.contents(),
            tx.pre_entries() == t.entry_bytes(),
            tx.cur_contents() == t.contents(),
    {
        let tx = Transaction { base: t, writes: Vec::new() };
        proof {
            assert(tx.writes@.map_values(|e: (String, Vec<u8>)| (e.0@, e.1@)) =~= Seq::<
                (Seq<char>, Seq<u8>),
            >::empty());
        }
        tx
    }

    /// Buffers an upsert of `value` under `key`. The pre-state is untouched:
    /// only `commit` publishes the write.
    pub fn set(&mut self, key: &str, value: &[u8])
        requires
            old(self).wf(),
        ensures
            final(self).wf(),
            final(self).pre_contents() == old(self).pre_contents(),
            final(self).pre_entries() == old(self).pre_entries(),
            final(self).cur_contents() == old(self).cur_contents().insert(key@, value@),
    {
        let ghost ws0 = self.writes@.map_values(|e: (String, Vec<u8>)| (e.0@, e.1@));
        self.writes.push((key.to_owned(), slice_to_vec(value)));
        proof {
            let ws1 = self.writes@.map_values(|e: (String, Vec<u8>)| (e.0@, e.1@));
            assert(ws1 =~= ws0.push((key@, value@)));
            assert(ws1.drop_last() =~= ws0);
        }
    }

    /// Reads through the open transaction: the latest buffered write for the
    /// key wins; a key never written reads from the pre-state.
    pub fn get(&self, key: &str) -> (r: Vec<u8>)
        requires
            self.wf(),
        ensures
            r@ == table_lookup(self.cur_contents(), key@),
    {
        let ghost ws = self.writes@.map_values(|e: (String, Vec<u8>)| (e.0@, e.1@));
        let n = self.writes.len();
        let mut i: usize = 0;
        let mut found: Option<usize> = None;
        while i < n
            invariant
                self.wf(),
                n == self.writes.len(),
                ws == self.writes@.map_values(|e: (String, Vec<u8>)| (e.0@, e.1@)),
                0 <= i <= n,
                match found {
                    Some(fi) => fi < i && ws[fi as int].0 == key@ && forall|j: int|
                        fi < j < i ==> ws[j].0 != key@,
                    None => forall|j: int| 0 <= j < i ==> ws[j].0 != key@,
                },
            decreases n - i,
        {
            if crate::text::str_eq(self.writes[i].0.as_str(), key) {
                found = Some(i);
            }
            i += 1;
        }
        match found {
            Some(fi) => {
                proof {
                    lemma_apply_found(self.base.contents(), ws, key@, fi as int);
                }
                slice_to_vec(self.writes[fi].1.as_slice())
            },
            None => {
                proof {
                    lemma_apply_absent(self.base.contents(), ws, key@);
                }
                self.base.get(key)
            },
        }
    }

    /// Commits: applies every buffered write, in order, and returns the
    /// updated table.
    pub fn commit(self) -> (t: Table)
        requires
            self.wf(),
        ensures
            t.wf(),
            t.contents() == self.cur_contents(),
    {
        let Transaction { base, writes } = self;
        let ghost m0 = base.contents();
        let ghost ws = writes@.map_values(|e: (String, Vec<u8>)| (e.0@, e.1@));
        let mut t = base;
        let n = writes.len();
        let mut i: usize = 0;
        while i < n
            invariant
                t.wf(),
                n == writes.len(),
                ws == writes@.map_values(|e: (String, Vec<u8>)| (e.0@, e.1@)),
                0 <= i <= n,
                t.contents() == apply_writes(m0, ws.take(i as int)),
            decreases n - i,
        {
            let v = slice_to_vec(writes[i].1.as_slice());
            t.put(writes[i].0.as_str(), v);
            proof {
                assert(ws.take(i + 1).drop_last() =~= ws.take(i as int));
                assert(ws.take(i + 1).last() == ws[i as int]);
            }
            i += 1;
        }
        proof {
            assert(ws.take(n as int) =~= ws);
        }
        t
    }

    /// Cancels: every buffered write is discarded, and the table is returned
    /// byte for byte as it was when the transaction was opened.
    pub fn cancel(self) -> (t: Table)
        requires
            self.wf(),
        ensures
            t.wf(),
            t.contents() == self.pre_contents(),
            t.entry_bytes() == self.pre_entries(),
    {
        self.base
    }
}

} // verus!
