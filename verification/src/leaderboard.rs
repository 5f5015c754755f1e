//! The leaderboard aggregation: scan the table, keep the entries whose key
//! carries the score prefix, decode each value into a (name, score) record,
//! and rank the records by score, descending, ties keeping scan order.

use vstd::prelude::*;
use vstd::seq_lib::group_to_multiset_ensures;
use vstd::seq_lib::to_multiset_insert;
use vstd::string::StringExecFns;
use vstd::utf8::encode_utf8;
use vstd::utf8::valid_utf8;

use crate::jsonio::json_get_str_field;
use crate::jsonio::json_get_u64_field;
use crate::jsonio::json_ok;
use crate::jsonio::json_quote;
use crate::jsonio::json_quoted;
use crate::jsonio::json_str_field;
use crate::jsonio::json_u64_field;
use crate::jsonio::json_well_formed;
use crate::jsonio::utf8_check;
use crate::protocol::concat3;
use crate::protocol::concat5;
use crate::text::bytes_has_prefix;
use crate::text::spec_udec;
use crate::text::u64_to_string;

verus! {

/// One ranked entry of the leaderboard.
pub struct ScoreRecord {
    pub name: String,
    pub score: u64,
}

impl View for ScoreRecord {
    type V = (Seq<char>, u64);

    open spec fn view(&self) -> (Seq<char>, u64) {
        (self.name@, self.score)
    }
}

/// The key prefix that marks a score entry, as stored key bytes.
pub open spec fn score_prefix() -> Seq<u8> {
    encode_utf8("score:"@)
}

/// Whether a stored key belongs to the leaderboard: it decodes as text and
/// starts with the score prefix.
pub open spec fn is_score_key(k: Seq<u8>) -> bool {
    &&& valid_utf8(k)
    &&& k.len() >= score_prefix().len()
    &&& k.subrange(0, score_prefix().len() as int) == score_prefix()
}

/// The record a stored value denotes: skipped entirely when the value is not
/// JSON; otherwise the `name` and `score` fields with their defaults.
pub open spec fn record_of(v: Seq<u8>) -> Option<(Seq<char>, u64)> {
    if json_ok(v) {
        Option::Some(
            (
                match json_str_field(v, "name"@) {
                    Option::Some(n) => n,
                    Option::None => "???"@,
                },
                match json_u64_field(v, "score"@) {
                    Option::Some(s) => s,
                    Option::None => 0u64,
                },
            ),
        )
    } else {
        Option::None
    }
}

/// The records of an entry scan, in scan order.
pub open spec fn records_of(entries: Seq<(Seq<u8>, Seq<u8>)>) -> Seq<(Seq<char>, u64)>
    decreases entries.len(),
{
    if entries.len() == 0 {
        Seq::empty()
    } else {
        let rest = records_of(entries.drop_last());
        let e = entries.last();
        if is_score_key(e.0) {
            match record_of(e.1) {
                Option::Some(r) => rest.push(r),
                Option::None => rest,
            }
        } else {
            rest
        }
    }
}

/// Where a record lands in a ranking: after every record whose score is at
/// least as large, so ties keep their existing order.
pub open spec fn insert_point(s: Seq<(Seq<char>, u64)>, x: (Seq<char>, u64)) -> int
    decreases s.len(),
{
    if s.len() == 0 {
        0
    } else if s[0].1 >= x.1 {
        1 + insert_point(s.drop_first(), x)
    } else {
        0
    }
}

/// Inserts a record into a ranking at its insert point.
pub open spec fn insert_desc(
    s: Seq<(Seq<char>, u64)>,
    x: (Seq<char>, u64),
) -> Seq<(Seq<char>, u64)>
    decreases s.len(),
{
    if s.len() == 0 {
        seq![x]
    } else if s[0].1 >= x.1 {
        seq![s[0]] + insert_desc(s.drop_first(), x)
    } else {
        seq![x] + s
    }
}

/// The stable descending sort of a record sequence: each record, in order,
/// inserted at its insert point.
pub open spec fn sort_desc(s: Seq<(Seq<char>, u64)>) -> Seq<(Seq<char>, u64)>
    decreases s.len(),
{
    if s.len() == 0 {
        Seq::empty()
    } else {
        insert_desc(sort_desc(s.drop_last()), s.last())
    }
}

/// Whether a record sequence is sorted by score, descending.
pub open spec fn sorted_desc(s: Seq<(Seq<char>, u64)>) -> bool {
    forall|i: int, j: int| 0 <= i <= j < s.len() ==> s[i].1 >= s[j].1
}

proof fn lemma_insert_point(s: Seq<(Seq<char>, u64)>, x: (Seq<char>, u64))
    ensures
        0 <= insert_point(s, x) <= s.len(),
        forall|i: int| 0 <= i < insert_point(s, x) ==> s[i].1 >= x.1,
        insert_point(s, x) < s.len() ==> s[insert_point(s, x)].1 < x.1,
    decreases s.len(),
{
    if s.len() > 0 && s[0].1 >= x.1 {
        lemma_insert_point(s.drop_first(), x);
        let ip = insert_point(s, x);
        assert forall|i: int| 0 <= i < ip implies s[i].1 >= x.1 by {
            if i > 0 {
                assert(s.drop_first()[i - 1].1 >= x.1);
            }
        }
        if ip < s.len() {
            assert(s.drop_first()[ip - 1].1 < x.1);
        }
    }
}

proof fn lemma_insert_desc_split(s: Seq<(Seq<char>, u64)>, x: (Seq<char>, u64), j: int)
    requires
        0 <= j <= s.len(),
        forall|i: int| 0 <= i < j ==> s[i].1 >= x.1,
        j < s.len() ==> s[j].1 < x.1,
    ensures
        insert_desc(s, x) == s.insert(j, x),
    decreases s.len(),
{
    if j == 0 {
        if s.len() == 0 {
            assert(insert_desc(s, x) =~= s.insert(0, x));
        } else {
            assert(s[0].1 < x.1);
            assert(seq![x] + s =~= s.insert(0, x));
        }
    } else {
        assert(s[0].1 >= x.1);
        let df = s.drop_first();
        assert forall|i: int| 0 <= i < j - 1 implies df[i].1 >= x.1 by {
            assert(s[i + 1].1 >= x.1);
        }
        assert(j - 1 < df.len() ==> df[j - 1].1 < x.1);
        lemma_insert_desc_split(df, x, j - 1);
        assert(seq![s[0]] + df.insert(j - 1, x) =~= s.insert(j, x));
    }
}

/// Law: a ranking is sorted by score, descending.
pub proof fn lemma_sort_desc_sorted(s: Seq<(Seq<char>, u64)>)
    ensures
        sorted_desc(sort_desc(s)),
    decreases s.len(),
{
    if s.len() > 0 {
        lemma_sort_desc_sorted(s.drop_last());
        let t = sort_desc(s.drop_last());
        let x = s.last();
        lemma_insert_point(t, x);
        let ip = insert_point(t, x);
        lemma_insert_desc_split(t, x, ip);
        let r = sort_desc(s);
        assert(r == t.insert(ip, x));
        assert forall|i: int, j: int| 0 <= i <= j < r.len() implies r[i].1 >= r[j].1 by {
            assert(r[i] == if i < ip {
                t[i]
            } else if i == ip {
                x
            } else {
                t[i - 1]
            });
            assert(r[j] == if j < ip {
                t[j]
            } else if j == ip {
                x
            } else {
                t[j - 1]
            });
        }
    }
}

/// Law: ranking neither loses, invents nor merges records: the sorted
/// sequence holds exactly the records of the scan, score ties and all.
pub proof fn lemma_sort_desc_permutes(s: Seq<(Seq<char>, u64)>)
    ensures
        sort_desc(s).to_multiset() == s.to_multiset(),
        sort_desc(s).len() == s.len(),
    decreases s.len(),
{
    broadcast use group_to_multiset_ensures;

    if s.len() > 0 {
        lemma_sort_desc_permutes(s.drop_last());
        let t = sort_desc(s.drop_last());
        let x = s.last();
        lemma_insert_point(t, x);
        let ip = insert_point(t, x);
        lemma_insert_desc_split(t, x, ip);
        to_multiset_insert(t, ip, x);
        assert(s =~= s.drop_last().push(x));
        assert(s.drop_last().push(x).to_multiset() =~= s.drop_last().to_multiset().insert(x));
    }
}

/// Law: an entry whose key does not carry the score prefix never enters the
/// leaderboard.
pub proof fn lemma_prefix_filter(entries: Seq<(Seq<u8>, Seq<u8>)>, k: Seq<u8>, v: Seq<u8>)
    requires
        !is_score_key(k),
    ensures
        records_of(entries.push((k, v))) == records_of(entries),
    decreases entries.len(),
{
    assert(entries.push((k, v)).drop_last() =~= entries);
    assert(entries.push((k, v)).last() == (k, v));
}

/// One record as a JSON object.
pub open spec fn record_json(r: (Seq<char>, u64)) -> Seq<char> {
    "{\"name\":"@ + json_quoted(r.0) + ",\"score\":"@ + spec_udec(r.1 as nat) + "}"@
}

/// A record sequence as a comma-separated JSON list body.
pub open spec fn records_json(rs: Seq<(Seq<char>, u64)>) -> Seq<char>
    decreases rs.len(),
{
    if rs.len() == 0 {
        Seq::empty()
    } else if rs.len() == 1 {
        record_json(rs[0])
    } else {
        records_json(rs.drop_last()) + ","@ + record_json(rs.last())
    }
}

/// The views of a scanned entry vector.
pub open spec fn entries_view(entries: Seq<(Vec<u8>, Vec<u8>)>) -> Seq<(Seq<u8>, Seq<u8>)> {
    entries.map_values(|e: (Vec<u8>, Vec<u8>)| (e.0@, e.1@))
}

/// The notification of a whole leaderboard query over a scan: the ranked
/// records; an empty ranking is a success, not an error.
pub open spec fn scores_note(entries: Seq<(Seq<u8>, Seq<u8>)>) -> Seq<char> {
    "{\"success\":true,\"value\":["@ + records_json(sort_desc(records_of(entries))) + "]}"@
}

/// Collects the score records of a scan, in scan order, skipping entries
/// with foreign keys, undecodable keys, or non-JSON values.
pub fn collect_records(entries: &Vec<(Vec<u8>, Vec<u8>)>) -> (rs: Vec<ScoreRecord>)
    ensures
        rs@.map_values(|r: ScoreRecord| r@) == records_of(entries_view(entries@)),
{
    let ghost ev = entries_view(entries@);
    let mut rs: Vec<ScoreRecord> = Vec::new();
    let n = entries.len();
    let mut i: usize = 0;
    while i < n
        invariant
            n == entries.len(),
            0 <= i <= n,
            ev == entries_view(entries@),
            rs@.map_values(|r: ScoreRecord| r@) == records_of(ev.take(i as int)),
        decreases n - i,
    {
        let ghost rs0 = rs@.map_values(|r: ScoreRecord| r@);
        let key = entries[i].0.as_slice();
        if utf8_check(key) && bytes_has_prefix(key, "score:".as_bytes()) {
            let value = entries[i].1.as_slice();
            if json_well_formed(value) {
                let name = match json_get_str_field(value, "name") {
                    Some(nm) => nm,
                    None => "???".to_owned(),
                };
                let score = match json_get_u64_field(value, "score") {
                    Some(sc) => sc,
                    None => 0u64,
                };
                rs.push(ScoreRecord { name, score });
            }
        }
        proof {
            assert(ev.take(i + 1).drop_last() =~= ev.take(i as int));
            assert(ev.take(i + 1).last() == ev[i as int]);
            assert(rs@.map_values(|r: ScoreRecord| r@) =~= records_of(ev.take(i + 1)));
        }
        i += 1;
    }
    proof {
        assert(ev.take(n as int) =~= ev);
    }
    rs
}

/// Sorts records by score, descending; records of equal score keep their
/// relative order.
pub fn sort_records(rs: Vec<ScoreRecord>) -> (out: Vec<ScoreRecord>)
    ensures
        out@.map_values(|r: ScoreRecord| r@) == sort_desc(rs@.map_values(|r: ScoreRecord| r@)),
{
    broadcast use vstd::seq_lib::group_seq_properties;

    let ghost input = rs@.map_values(|r: ScoreRecord| r@);
    let mut rest = rs;
    let mut out: Vec<ScoreRecord> = Vec::new();
    let ghost n = input.len();
    while rest.len() > 0
        invariant
            n == input.len(),
            rest@.map_values(|r: ScoreRecord| r@) == input.skip(n - rest@.len() as int),
            rest@.len() <= n,
            out@.map_values(|r: ScoreRecord| r@) == sort_desc(input.take(n - rest@.len() as int)),
        decreases rest.len(),
    {
        let ghost i = n - rest@.len() as int;
        let ghost or = rest@;
        let x = rest.remove(0);
        proof {
            assert(input.skip(i)[0] == input[i]);
            assert(x@ == input[i]);
            assert(rest@ == or.remove(0));
            assert forall|t: int| 0 <= t < rest@.len() implies rest@.map_values(
                |r: ScoreRecord| r@,
            )[t] == #[trigger] (input.skip(i + 1)[t]) by {
                assert(rest@[t] == or[t + 1]);
                assert(or.map_values(|r: ScoreRecord| r@)[t + 1] == input.skip(i)[t + 1]);
                assert(input.skip(i)[t + 1] == input[i + 1 + t]);
            }
            assert(rest@.map_values(|r: ScoreRecord| r@) =~= input.skip(i + 1));
        }
        let ghost ov = out@.map_values(|r: ScoreRecord| r@);
        let mut j: usize = 0;
        while j < out.len() && out[j].score >= x.score
            invariant
                ov == out@.map_values(|r: ScoreRecord| r@),
                0 <= j <= out.len(),
                forall|t: int| 0 <= t < j ==> ov[t].1 >= x@.1,
            decreases out.len() - j,
        {
            j += 1;
        }
        proof {
            lemma_insert_desc_split(ov, x@, j as int);
        }
        out.insert(j, x);
        proof {
            assert(out@.map_values(|r: ScoreRecord| r@) =~= ov.insert(j as int, x@));
            assert(input.take(i + 1).drop_last() =~= input.take(i));
            assert(input.take(i + 1).last() == input[i]);
            assert(out@.map_values(|r: ScoreRecord| r@) == sort_desc(input.take(i + 1)));
        }
    }
    proof {
        assert(input.take(n - rest@.len() as int) =~= input);
    }
    out
}

/// The JSON text of one ranked record.
pub fn record_message(r: &ScoreRecord) -> (m: String)
    ensures
        m@ == record_json(r@),
{
    let q = json_quote(r.name.as_str());
    let d = u64_to_string(r.score);
    concat5("{\"name\":", q.as_str(), ",\"score\":", d.as_str(), "}")
}

/// The notification of a whole leaderboard query over a scan.
pub fn scores_message(entries: &Vec<(Vec<u8>, Vec<u8>)>) -> (msg: String)
    ensures
        msg@ == scores_note(entries_view(entries@)),
{
    let recs = collect_records(entries);
    let sorted = sort_records(recs);
    let ghost sv = sorted@.map_values(|r: ScoreRecord| r@);
    let mut body = String::new();
    let n = sorted.len();
    let mut i: usize = 0;
    while i < n
        invariant
            n == sorted.len(),
            0 <= i <= n,
            sv == sorted@.map_values(|r: ScoreRecord| r@),
            body@ == records_json(sv.take(i as int)),
        decreases n - i,
    {
        if i > 0 {
            body.append(",");
        }
        let rj = record_message(&sorted[i]);
        body.append(rj.as_str());
        proof {
            assert(sv.take(i + 1).drop_last() =~= sv.take(i as int));
            assert(sv.take(i + 1).last() == sv[i as int]);
            if i == 0 {
                assert(body@ =~= records_json(sv.take(1)));
            } else {
                assert(body@ =~= records_json(sv.take(i + 1)));
            }
        }
        i += 1;
    }
    proof {
        assert(sv.take(n as int) =~= sv);
    }
    concat3("{\"success\":true,\"value\":[", body.as_str(), "]}")
}

} // verus!
