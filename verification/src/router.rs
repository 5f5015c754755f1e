//! The route registry and dispatcher: maps a route name to a handler and its
//! kind, and runs an incoming (route, payload) pair. A transaction-kind
//! handler runs inside a transaction context that the dispatcher opens and,
//! depending on the handler's outcome, commits or cancels. Every dispatched
//! request yields exactly one notification string.

use vstd::prelude::*;

use crate::leaderboard::entries_view;
use crate::leaderboard::scores_message;
use crate::leaderboard::scores_note;
use crate::protocol::decode_key_payload;
use crate::protocol::decode_kv_payload;
use crate::protocol::insert_outcome;
use crate::protocol::inserted_message;
use crate::protocol::load_hit_message;
use crate::protocol::load_note;
use crate::protocol::payload_error_message;
use crate::store::Table;
use crate::text::str_eq;
use crate::txn::Transaction;

verus! {

/// The read-only routes.
#[derive(Clone, Copy, PartialEq, Eq, Structural, Debug)]
pub enum QueryOp {
    LoadFromLedger,
    FetchAllScores,
}

/// The mutating routes, each run under a transaction context.
#[derive(Clone, Copy, PartialEq, Eq, Structural, Debug)]
pub enum TransactionOp {
    InsertInLedger,
}

/// A handler together with its kind, as held in the route table: the
/// dispatcher branches on this tag to decide whether to open a transaction.
#[derive(Clone, Copy, PartialEq, Eq, Structural, Debug)]
pub enum Handler {
    Query(QueryOp),
    Transaction(TransactionOp),
}

/// The error of registering a route name twice.
#[derive(Clone, Copy, PartialEq, Eq, Structural, Debug)]
pub struct DuplicateRoute;

/// One registered route.
pub struct Route {
    pub name: String,
    pub handler: Handler,
}

/// The handler registered under a name, searching the latest registration
/// first; names are unique, so at most one registration matches.
pub open spec fn find_route(rs: Seq<Route>, name: Seq<char>) -> Option<Handler>
    decreases rs.len(),
{
    if rs.len() == 0 {
        Option::None
    } else if rs.last().name@ == name {
        Option::Some(rs.last().handler)
    } else {
        find_route(rs.drop_last(), name)
    }
}

proof fn lemma_find_route_absent(rs: Seq<Route>, name: Seq<char>)
    requires
        forall|i: int| 0 <= i < rs.len() ==> rs[i].name@ != name,
    ensures
        find_route(rs, name) is None,
    decreases rs.len(),
{
    if rs.len() > 0 {
        lemma_find_route_absent(rs.drop_last(), name);
    }
}

proof fn lemma_find_route_found(rs: Seq<Route>, name: Seq<char>, i: int)
    requires
        0 <= i < rs.len(),
        rs[i].name@ == name,
        forall|a: int, b: int| 0 <= a < b < rs.len() ==> rs[a].name@ != rs[b].name@,
    ensures
        find_route(rs, name) == Option::Some(rs[i].handler),
    decreases rs.len(),
{
    if i < rs.len() - 1 {
        assert(rs.last().name@ != name);
        assert(rs.drop_last()[i] == rs[i]);
        lemma_find_route_found(rs.drop_last(), name, i);
    }
}

/// The route registry: write-once at start-up, read-only afterwards.
pub struct Router {
    routes: Vec<Route>,
}

impl Router {
    /// The handler registered under a name.
    pub closed spec fn spec_route(self, name: Seq<char>) -> Option<Handler> {
        find_route(self.routes@, name)
    }

    /// Route names are unique in the registry.
    pub closed spec fn wf(self) -> bool {
        forall|a: int, b: int|
            0 <= a < b < self.routes@.len() ==> self.routes@[a].name@ != self.routes@[b].name@
    }

    /// Creates an empty registry.
    pub fn new() -> (r: Router)
        ensures
            r.wf(),
            forall|n: Seq<char>| r.spec_route(n) is None,
    {
        Router { routes: Vec::new() }
    }

    /// Registers a handler under a name; a name already registered is
    /// refused and the registry is left unchanged.
    pub fn register(&mut self, name: String, handler: Handler) -> (r: Result<(), DuplicateRoute>)
        requires
            old(self).wf(),
        ensures
            final(self).wf(),
            old(self).spec_route(name@) is Some ==> r is Err && *final(self) == *old(self),
            old(self).spec_route(name@) is None ==> r is Ok && forall|n: Seq<char>|
                #[trigger] final(self).spec_route(n) == if n == name@ {
                    Option::Some(handler)
                } else {
                    old(self).spec_route(n)
                },
    {
        let n = self.routes.len();
        let mut i: usize = 0;
        while i < n
            invariant
                self.wf(),
                *self == *old(self),
                n == self.routes.len(),
                0 <= i <= n,
                forall|j: int| 0 <= j < i ==> self.routes@[j].name@ != name@,
            decreases n - i,
        {
            if str_eq(self.routes[i].name.as_str(), name.as_str()) {
                proof {
                    lemma_find_route_found(self.routes@, name@, i as int);
                }
                return Err(DuplicateRoute);
            }
            i += 1;
        }
        proof {
            lemma_find_route_absent(self.routes@, name@);
        }
        let ghost rs0 = self.routes@;
        self.routes.push(Route { name, handler });
        proof {
            assert(self.routes@.drop_last() =~= rs0);
            assert forall|n2: Seq<char>| #[trigger] self.spec_route(n2) == if n2
                == self.routes@.last().name@ {
                Option::Some(handler)
            } else {
                find_route(rs0, n2)
            } by {}
        }
        Ok(())
    }

    /// Looks a route name up.
    pub fn lookup(&self, name: &str) -> (h: Option<Handler>)
        requires
            self.wf(),
        ensures
            h == self.spec_route(name@),
    {
        let n = self.routes.len();
        let mut i: usize = 0;
        while i < n
            invariant
                self.wf(),
                n == self.routes.len(),
                0 <= i <= n,
                forall|j: int| 0 <= j < i ==> self.routes@[j].name@ != name@,
            decreases n - i,
        {
            if str_eq(self.routes[i].name.as_str(), name) {
                proof {
                    lemma_find_route_found(self.routes@, name@, i as int);
                }
                return Some(self.routes[i].handler);
            }
            i += 1;
        }
        proof {
            lemma_find_route_absent(self.routes@, name@);
        }
        None
    }

    /// Dispatches one request: looks the route up, runs its handler — a
    /// transaction-kind handler inside a transaction context that is
    /// committed on success and cancelled on any failure — and returns the
    /// table and the single notification. An unregistered name returns the
    /// table untouched and no notification: registration is static and the
    /// surrounding transport is expected to have validated the name.
    pub fn dispatch(&self, table: Table, name: &str, payload: &str) -> (r: (Table, Option<String>))
        requires
            self.wf(),
            table.wf(),
        ensures
            r.0.wf(),
            match self.spec_route(name@) {
                Option::None => r.1 is None && r.0 == table,
                Option::Some(h) => match h {
                    Handler::Query(QueryOp::LoadFromLedger) => {
                        &&& r.0 == table
                        &&& r.1 matches Some(msg) && msg@ == load_note(table.contents(), payload@)
                    },
                    Handler::Query(QueryOp::FetchAllScores) => {
                        &&& r.0 == table
                        &&& r.1 matches Some(msg) && msg@ == scores_note(table.entry_bytes())
                    },
                    Handler::Transaction(TransactionOp::InsertInLedger) => {
                        let (m2, note, committed) = insert_outcome(table.contents(), payload@);
                        &&& r.0.contents() == m2
                        &&& r.1 matches Some(msg) && msg@ == note
                        &&& !committed ==> r.0.entry_bytes() == table.entry_bytes()
                    },
                },
            },
    {
        match self.lookup(name) {
            None => (table, None),
            Some(Handler::Query(QueryOp::LoadFromLedger)) => {
                let msg = handle_load(&table, payload);
                (table, Some(msg))
            },
            Some(Handler::Query(QueryOp::FetchAllScores)) => {
                let msg = handle_fetch_scores(&table, payload);
                (table, Some(msg))
            },
            Some(Handler::Transaction(TransactionOp::InsertInLedger)) => {
                let mut tx = Transaction::open(table);
                let (msg, committed) = handle_insert(&mut tx, payload);
                let t2 = if committed {
                    tx.commit()
                } else {
                    tx.cancel()
                };
                (t2, Some(msg))
            },
        }
    }
}

/// Registers the three routes of the service.
pub fn register_routes() -> (r: Router)
    ensures
        r.wf(),
        r.spec_route("load-from-ledger"@) == Option::Some(Handler::Query(QueryOp::LoadFromLedger)),
        r.spec_route("fetch-all-scores"@) == Option::Some(Handler::Query(QueryOp::FetchAllScores)),
        r.spec_route("insert-in-ledger"@) == Option::Some(
            Handler::Transaction(TransactionOp::InsertInLedger),
        ),
        forall|n: Seq<char>|
            n != "load-from-ledger"@ && n != "fetch-all-scores"@ && n != "insert-in-ledger"@
                ==> #[trigger] r.spec_route(n) is None,
{
    proof {
        reveal_strlit("load-from-ledger");
        reveal_strlit("fetch-all-scores");
        reveal_strlit("insert-in-ledger");
        assert("load-from-ledger"@[0] == 'l');
        assert("fetch-all-scores"@[0] == 'f');
        assert("insert-in-ledger"@[0] == 'i');
    }
    let mut router = Router::new();
    let _ = router.register("load-from-ledger".to_owned(), Handler::Query(QueryOp::LoadFromLedger));
    let _ = router.register(
        "fetch-all-scores".to_owned(),
        Handler::Query(QueryOp::FetchAllScores),
    );
    let _ = router.register(
        "insert-in-ledger".to_owned(),
        Handler::Transaction(TransactionOp::InsertInLedger),
    );
    router
}

/// Runs a load query: decodes the payload, reads the table, and reports.
pub fn handle_load(table: &Table, payload: &str) -> (msg: String)
    requires
        table.wf(),
    ensures
        msg@ == load_note(table.contents(), payload@),
{
    match decode_key_payload(payload) {
        Err(e) => payload_error_message(payload, &e),
        Ok(key) => {
            let bytes = table.get(key.as_str());
            load_hit_message(bytes, payload)
        },
    }
}

/// Runs the leaderboard query: scans the whole table through a cursor and
/// aggregates the score entries.
pub fn handle_fetch_scores(table: &Table, _payload: &str) -> (msg: String)
    ensures
        msg@ == scores_note(table.entry_bytes()),
{
    let mut entries: Vec<(Vec<u8>, Vec<u8>)> = Vec::new();
    let mut cur = table.cursor();
    loop
        invariant
            cur.src() == *table,
            0 <= cur.pos() <= table.entry_bytes().len(),
            entries_view(entries@) == table.entry_bytes().take(cur.pos()),
        ensures
            entries_view(entries@) == table.entry_bytes(),
        decreases table.entry_bytes().len() - cur.pos(),
    {
        let ghost pos0 = cur.pos();
        match cur.next() {
            Some(e) => {
                entries.push(e);
                proof {
                    assert(table.entry_bytes().take(pos0 + 1).drop_last() =~= table.entry_bytes()
                        .take(pos0));
                    assert(entries_view(entries@) =~= table.entry_bytes().take(pos0 + 1));
                }
            },
            None => {
                proof {
                    assert(table.entry_bytes().take(pos0) =~= table.entry_bytes());
                }
                break ;
            },
        }
    }
    scores_message(&entries)
}

/// Runs the insert transaction against an open transaction context: decodes
/// the payload, buffers the write, and reports. The second component of the
/// result says whether the caller is to commit (`true`) or the handler
/// signalled cancellation (`false`).
pub fn handle_insert(tx: &mut Transaction, payload: &str) -> (r: (String, bool))
    requires
        old(tx).wf(),
    ensures
        final(tx).wf(),
        final(tx).pre_contents() == old(tx).pre_contents(),
        final(tx).pre_entries() == old(tx).pre_entries(),
        ({
            let (m2, note, committed) = insert_outcome(old(tx).cur_contents(), payload@);
            &&& r.0@ == note
            &&& r.1 == committed
            &&& final(tx).cur_contents() == if committed {
                m2
            } else {
                old(tx).cur_contents()
            }
        }),
{
    match decode_kv_payload(payload) {
        Err(e) => (payload_error_message(payload, &e), false),
        Ok((key, value)) => {
            tx.set(key.as_str(), value.as_str().as_bytes());
            let msg = inserted_message(key.as_str(), value.as_str());
            (msg, true)
        },
    }
}

} // verus!
