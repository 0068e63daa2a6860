//! What the operations do to the engine and to a transaction, in terms of its parts alone.

use vstd::prelude::*;

use crate::chain::{
    chain_push, chain_within, law_gc_keeps_what_is_read, law_read_is_newest, lemma_lte_index,
    lte_index, ChainModel,
};
use crate::error::Error;
use crate::model::{
    active, counted_down, counted_up, earliest, is_earliest, pending, verdict_from, EngineState,
    Footprint, FormerModel, Outcome, TxState, Verdict, WritesModel,
};
use crate::tx::write_result;

verus! {

/// A transaction that begins reads at the highest version handed out, and starts with no reads and
/// no writes. It is counted once at its commit number and once at its version, and nothing else
/// changes.
pub proof fn law_beginning_counts_one(s: EngineState, write: bool)
    requires
        s.can_begin(),
    ensures
        ({
            let tx = TxState::opened(s, write);
            &&& tx.version == s.timestamp
            &&& tx.commit == s.commit_id
            &&& tx.write == write
            &&& !tx.done
            &&& !tx.ssi
            &&& forall|k: Seq<u8>| !tx.writes.contains_key(k) && !tx.reads.contains(k)
        }),
        ({
            let a = s.begun();
            &&& a == (EngineState { by_commit: a.by_commit, by_oracle: a.by_oracle, ..s })
            &&& a.by_commit.contains_key(s.commit_id)
            &&& a.by_commit[s.commit_id] == (if s.by_commit.contains_key(s.commit_id) {
                s.by_commit[s.commit_id] + 1
            } else {
                1
            })
            &&& a.by_oracle.contains_key(s.timestamp)
            &&& a.by_oracle[s.timestamp] == (if s.by_oracle.contains_key(s.timestamp) {
                s.by_oracle[s.timestamp] + 1
            } else {
                1
            })
            &&& forall|k: u64|
                k != s.commit_id ==> #[trigger] a.by_commit.contains_key(k)
                    == s.by_commit.contains_key(k) && a.by_commit[k] == s.by_commit[k]
            &&& forall|k: u64|
                k != s.timestamp ==> #[trigger] a.by_oracle.contains_key(k)
                    == s.by_oracle.contains_key(k) && a.by_oracle[k] == s.by_oracle[k]
        }),
{
}

/// A transaction that goes back is counted no more at its commit number and at its version; where
/// it was the last one there, the counter goes. Nothing else changes.
pub proof fn law_going_back_counts_one_less(s: EngineState, tx: TxState)
    requires
        s.wf(),
        s.by_commit.contains_key(tx.commit),
        s.by_oracle.contains_key(tx.version),
    ensures
        ({
            let a = s.released(tx);
            &&& a == (EngineState { by_commit: a.by_commit, by_oracle: a.by_oracle, ..s })
            &&& a.by_commit.contains_key(tx.commit) == (s.by_commit[tx.commit] > 1)
            &&& s.by_commit[tx.commit] > 1 ==> a.by_commit[tx.commit] == s.by_commit[tx.commit] - 1
            &&& a.by_oracle.contains_key(tx.version) == (s.by_oracle[tx.version] > 1)
            &&& s.by_oracle[tx.version] > 1 ==> a.by_oracle[tx.version] == s.by_oracle[tx.version]
                - 1
            &&& forall|k: u64|
                k != tx.commit ==> #[trigger] a.by_commit.contains_key(k)
                    == s.by_commit.contains_key(k) && a.by_commit[k] == s.by_commit[k]
            &&& forall|k: u64|
                k != tx.version ==> #[trigger] a.by_oracle.contains_key(k)
                    == s.by_oracle.contains_key(k) && a.by_oracle[k] == s.by_oracle[k]
        }),
{
}

/// There is room for a transaction as long as its two counters are below their limits, and for a
/// commit as long as there are numbers left. A transaction is registered where both of its
/// counters are there.
pub proof fn law_limits(s: EngineState, tx: TxState)
    ensures
        s.can_begin() <==> (s.by_commit.contains_key(s.commit_id) ==> s.by_commit[s.commit_id]
            < u64::MAX - 1) && (s.by_oracle.contains_key(s.timestamp) ==> s.by_oracle[s.timestamp]
            < u64::MAX - 1),
        s.can_commit() <==> s.commit_id < u64::MAX - 1 && s.queue_id < u64::MAX && s.merge_id
            < u64::MAX && s.timestamp < u64::MAX,
        s.registered(tx) <==> s.by_commit.contains_key(tx.commit) && s.by_oracle.contains_key(
            tx.version,
        ),
{
}

/// An empty engine holds nothing, and starts at the version that it is given.
pub proof fn law_fresh_is_empty(timestamp: u64)
    ensures
        ({
            let s = EngineState::fresh(timestamp);
            &&& s.timestamp == timestamp
            &&& s.commit_id == 0
            &&& s.queue_id == 0
            &&& s.merge_id == 0
            &&& s.gc_floor == 0
            &&& s.dirty.len() == 0
            &&& forall|k: u64|
                #![trigger s.commits.contains_key(k)]
                !s.commits.contains_key(k) && !s.merges.contains_key(k)
                    && !s.by_commit.contains_key(k) && !s.by_oracle.contains_key(k)
            &&& forall|k: Seq<u8>| !#[trigger] s.store.contains_key(k)
        }),
{
}

/// A lookup of a key that the transaction has not written itself is noted, where it may write and
/// its reads are checked: whatever else it has read or written, the key is among its reads then.
/// Nothing else about the transaction changes, and no other lookup changes anything.
pub proof fn law_lookup_is_noted(tx: TxState, key: Seq<u8>)
    ensures
        tx.write && tx.ssi && !tx.writes.contains_key(key) ==> tx.noted(key).reads
            == tx.reads.insert(key),
        !(tx.write && tx.ssi && !tx.writes.contains_key(key)) ==> tx.noted(key).reads == tx.reads,
        tx.noted(key).writes == tx.writes,
        tx.noted(key).ssi == tx.ssi,
        tx.noted(key).done == tx.done,
        tx.noted(key).write == tx.write,
        tx.noted(key).commit == tx.commit,
        tx.noted(key).version == tx.version,
{
}

/// A transaction whose reads are checked looks up a key that it has not written, and then another
/// one commits a write to that key: whatever the first one reads and writes besides, before and
/// after, it is refused when it commits its writes.
pub proof fn law_lookup_is_checked(
    s: EngineState,
    mine: TxState,
    later: TxState,
    other: TxState,
    keys: Seq<Seq<u8>>,
    now: u64,
    key: Seq<u8>,
)
    requires
        s.wf(),
        s.can_commit(),
        s.by_commit.contains_key(mine.commit),
        mine.write,
        mine.ssi,
        !mine.done,
        !mine.writes.contains_key(key),
        s.outcome(other) == Outcome::Applied,
        other.writes.contains_key(key),
        later.ssi,
        !later.done,
        later.commit == mine.commit,
        exists|k: Seq<u8>| later.writes.contains_key(k),
        forall|k: Seq<u8>| #[trigger]
            mine.noted(key).reads.contains(k) ==> later.reads.contains(k),
    ensures
        later.reads.contains(key),
        s.committed(other, keys, now).outcome(later) == Outcome::WriteConflict || s.committed(
            other,
            keys,
            now,
        ).outcome(later) == Outcome::ReadConflict,
{
    law_lookup_is_noted(mine, key);
    assert(mine.noted(key).reads.contains(key));
    let after = s.committed(other, keys, now);
    let n = (s.commit_id + 1) as u64;
    assert(after.commits.contains_key(n));
    assert(after.commits[n].1.contains_key(key));
    assert forall|v: u64| #[trigger] after.commits.contains_key(v) implies v <= after.commit_id by {
        assert(v == n || s.commits.contains_key(v));
    }
    lemma_commit_outcome(after, later);
}

/// A write is among the writes of the transaction then, in place of an older one of the key, and
/// nothing else about the transaction changes.
pub proof fn law_write_is_kept(tx: TxState, key: Seq<u8>, value: Option<Seq<u8>>)
    ensures
        tx.wrote(key, value).writes == tx.writes.insert(key, value),
        tx.wrote(key, value).reads == tx.reads,
        tx.wrote(key, value).ssi == tx.ssi,
        tx.wrote(key, value).done == tx.done,
        tx.wrote(key, value).write == tx.write,
        tx.wrote(key, value).commit == tx.commit,
        tx.wrote(key, value).version == tx.version,
{
}

/// A write works on every open transaction that may write, and on no other: a closed one says that
/// it is closed, and one that may only read says so; neither changes.
pub proof fn law_write_works_or_says_why(
    before: TxState,
    after: TxState,
    r: Result<(), Error>,
    key: Seq<u8>,
    value: Option<Seq<u8>>,
)
    requires
        write_result(before, after, r, key, value),
    ensures
        before.done ==> r == Err::<(), Error>(Error::TxClosed) && after == before,
        !before.done && !before.write ==> r == Err::<(), Error>(Error::TxNotWritable) && after
            == before,
        !before.done && before.write ==> {
            &&& r is Ok
            &&& after.writes == before.writes.insert(key, value)
            &&& after == (TxState { writes: after.writes, ..before })
        },
{
}

/// A transaction that is closed has no writes left, and none of the reads that were checked; what
/// else it is stays.
pub proof fn law_closing_empties(tx: TxState, outcome: Outcome)
    ensures
        tx.closed().done,
        forall|k: Seq<u8>| !tx.closed().writes.contains_key(k),
        tx.ssi ==> forall|k: Seq<u8>| !tx.closed().reads.contains(k),
        !tx.ssi ==> tx.closed().reads == tx.reads,
        tx.closed().ssi == tx.ssi,
        tx.closed().write == tx.write,
        tx.closed().commit == tx.commit,
        tx.closed().version == tx.version,
        outcome == Outcome::Closed ==> tx.after_commit(outcome) == tx,
        outcome == Outcome::Empty ==> tx.after_commit(outcome) == (TxState { done: true, ..tx }),
        outcome != Outcome::Closed && outcome != Outcome::Empty ==> tx.after_commit(outcome)
            == tx.closed(),
{
}

/// A transaction that may write reads its own write where it has one. Every other read is what is
/// visible at its version.
pub proof fn law_read_is_own_or_visible(s: EngineState, tx: TxState, key: Seq<u8>)
    ensures
        tx.write && tx.writes.contains_key(key) ==> s.read(tx, key) == tx.writes[key],
        !(tx.write && tx.writes.contains_key(key)) ==> s.read(tx, key) == s.visible(
            key,
            tx.version,
        ),
{
}

/// What is visible under a key at `t` is the newest write to it at `t` or before: of those on their
/// way to the store, or else, where there are none, of those in the store. Where there is no write
/// at all, nothing is visible.
pub proof fn law_visible_is_newest(s: EngineState, key: Seq<u8>, t: u64)
    requires
        s.wf(),
    ensures
        forall|v: u64|
            #![trigger s.merges[v]]
            v <= t && s.merges.contains_key(v) && s.merges[v].1.contains_key(key) && (forall|w: u64|
                v < w <= t && #[trigger] s.merges.contains_key(w) ==> !s.merges[w].1.contains_key(
                    key,
                )) ==> s.visible(key, t) == s.merges[v].1[key],
        (forall|v: u64|
            v <= t && #[trigger] s.merges.contains_key(v) ==> !s.merges[v].1.contains_key(key))
            ==> {
            &&& !s.store.contains_key(key) ==> s.visible(key, t) is None
            &&& s.store.contains_key(key) ==> forall|i: int|
                #![trigger s.store[key][i]]
                0 <= i < s.store[key].len() && s.store[key][i].0 <= t && (i + 1
                    == s.store[key].len() || s.store[key][i + 1].0 > t) ==> s.visible(key, t)
                    == s.store[key][i].1
            &&& s.store.contains_key(key) && (forall|i: int|
                0 <= i < s.store[key].len() ==> (#[trigger] s.store[key][i]).0 > t) ==> s.visible(
                key,
                t,
            ) is None
        },
{
    assert forall|v: u64|
        #![trigger s.merges[v]]
        v <= t && s.merges.contains_key(v) && s.merges[v].1.contains_key(key) && (forall|w: u64|
            v < w <= t && #[trigger] s.merges.contains_key(w) ==> !s.merges[w].1.contains_key(
                key,
            )) implies s.visible(key, t) == s.merges[v].1[key] by {
        lemma_pending_at(s.merges, key, v as int, t as int);
    }
    if forall|v: u64|
        v <= t && #[trigger] s.merges.contains_key(v) ==> !s.merges[v].1.contains_key(key) {
        lemma_pending_at(s.merges, key, -1, t as int);
        if s.store.contains_key(key) {
            law_read_is_newest(s.store[key], t as int);
        }
    }
}

/// Between `v` and `t` no record of a merge queue writes a key.
proof fn lemma_pending_at(m: Map<u64, (u64, WritesModel)>, key: Seq<u8>, v: int, t: int)
    requires
        -1 <= v <= t <= u64::MAX,
        forall|w: u64|
            v < w <= t && #[trigger] m.contains_key(w) ==> !m[w].1.contains_key(key),
    ensures
        pending(m, key, t) == pending(m, key, v),
    decreases t - v,
{
    if v < t {
        assert(m.contains_key(t as u64) ==> !m[t as u64].1.contains_key(key));
        lemma_pending_at(m, key, v, t - 1);
    }
}

/// The first record from `lo` on that has a key in common decides, and of that one the writes
/// before the reads.
proof fn lemma_verdict_decides(
    m: Map<u64, (u64, WritesModel)>,
    lo: int,
    hi: int,
    f: Footprint,
    n: u64,
)
    requires
        0 <= lo <= n < hi <= u64::MAX + 1,
        m.contains_key(n),
        forall|k: u64, key: Seq<u8>|
            #![trigger m[k].1.contains_key(key)]
            lo <= k < n && m.contains_key(k) && m[k].1.contains_key(key) ==> !f.writes.contains_key(
                key,
            ) && !(f.ssi && f.reads.contains(key)),
        exists|key: Seq<u8>|
            #[trigger] m[n].1.contains_key(key) && (f.writes.contains_key(key) || (f.ssi
                && f.reads.contains(key))),
    ensures
        (exists|key: Seq<u8>| #[trigger] m[n].1.contains_key(key) && f.writes.contains_key(key))
            ==> verdict_from(m, lo, hi, f) == Verdict::WriteConflict,
        !(exists|key: Seq<u8>| #[trigger] m[n].1.contains_key(key) && f.writes.contains_key(key))
            ==> verdict_from(m, lo, hi, f) == Verdict::ReadConflict,
    decreases n - lo,
{
    if lo < n {
        let k = lo as u64;
        if m.contains_key(k) {
            assert(m[k].1.dom().disjoint(f.writes.dom())) by {
                assert forall|key: Seq<u8>|
                    m[k].1.dom().contains(key) implies !f.writes.dom().contains(key) by {
                    assert(m[k].1.contains_key(key));
                }
            }
            if f.ssi {
                assert forall|key: Seq<u8>| m[k].1.dom().contains(key) implies !f.reads.contains(
                    key,
                ) by {
                    assert(m[k].1.contains_key(key));
                }
                assert(m[k].1.dom().disjoint(f.reads));
            }
        }
        lemma_verdict_decides(m, lo + 1, hi, f, n);
    } else {
        let w = m[n].1;
        if exists|key: Seq<u8>| #[trigger] w.contains_key(key) && f.writes.contains_key(key) {
            let key = choose|key: Seq<u8>|
                #[trigger] w.contains_key(key) && f.writes.contains_key(key);
            assert(w.dom().contains(key) && f.writes.dom().contains(key));
        } else {
            assert forall|key: Seq<u8>| w.dom().contains(key) implies !f.writes.dom().contains(
                key,
            ) by {
                assert(w.contains_key(key));
            }
            assert(w.dom().disjoint(f.writes.dom()));
            let key = choose|key: Seq<u8>|
                #[trigger] w.contains_key(key) && (f.writes.contains_key(key) || (f.ssi
                    && f.reads.contains(key)));
            assert(w.dom().contains(key) && f.reads.contains(key));
        }
    }
}

/// Where no record from `lo` on has a key in common, a commit passes.
proof fn lemma_verdict_passes(m: Map<u64, (u64, WritesModel)>, lo: int, hi: int, f: Footprint)
    requires
        0 <= lo,
        hi <= u64::MAX + 1,
        forall|k: u64, key: Seq<u8>|
            #![trigger m[k].1.contains_key(key)]
            lo <= k < hi && m.contains_key(k) && m[k].1.contains_key(key)
                ==> !f.writes.contains_key(key) && !(f.ssi && f.reads.contains(key)),
    ensures
        verdict_from(m, lo, hi, f) == Verdict::Clear,
    decreases hi - lo,
{
    if lo < hi {
        let k = lo as u64;
        if m.contains_key(k) {
            assert forall|key: Seq<u8>| m[k].1.dom().contains(key) implies !f.writes.dom().contains(
                key,
            ) && !(f.ssi && f.reads.contains(key)) by {
                assert(m[k].1.contains_key(key));
            }
            assert(m[k].1.dom().disjoint(f.writes.dom()));
            assert(f.ssi ==> m[k].1.dom().disjoint(f.reads));
        }
        lemma_verdict_passes(m, lo + 1, hi, f);
    }
}

/// What committing comes to, in terms of keys. A closed transaction is told so, and one without
/// writes just closes. Every other one is refused if and only if a commit since it began wrote a
/// key that it wrote itself, or one that it read, where its reads are checked. The first such
/// commit decides which refusal it is, and of that one the writes before the reads.
pub proof fn law_commit_outcome(s: EngineState, tx: TxState)
    requires
        s.wf(),
        tx.commit <= s.commit_id,
    ensures
        tx.done ==> s.outcome(tx) == Outcome::Closed,
        !tx.done && (forall|k: Seq<u8>| !tx.writes.contains_key(k)) ==> s.outcome(tx)
            == Outcome::Empty,
        !tx.done && (exists|k: Seq<u8>| tx.writes.contains_key(k)) ==> {
            &&& s.outcome(tx) == Outcome::Applied <==> forall|n: u64, key: Seq<u8>|
                #![trigger s.commits[n].1.contains_key(key)]
                tx.commit < n && s.commits.contains_key(n) && s.commits[n].1.contains_key(key)
                    ==> !tx.writes.contains_key(key) && !(tx.ssi && tx.reads.contains(key))
            &&& forall|n: u64|
                #![trigger s.commits[n]]
                tx.commit < n && s.commits.contains_key(n) && (exists|key: Seq<u8>|
                    #[trigger] s.commits[n].1.contains_key(key) && (tx.writes.contains_key(key) || (
                    tx.ssi && tx.reads.contains(key)))) && (forall|k: u64, key: Seq<u8>|
                    #![trigger s.commits[k].1.contains_key(key)]
                    tx.commit < k < n && s.commits.contains_key(k)
                        && s.commits[k].1.contains_key(key) ==> !tx.writes.contains_key(key) && !(
                    tx.ssi && tx.reads.contains(key))) ==> s.outcome(tx) == (if exists|
                    key: Seq<u8>,
                | #[trigger] s.commits[n].1.contains_key(key) && tx.writes.contains_key(key) {
                    Outcome::WriteConflict
                } else {
                    Outcome::ReadConflict
                })
        },
{
    lemma_commit_outcome(s, tx);
}

/// The same of every state whose records have numbers that were handed out.
proof fn lemma_commit_outcome(s: EngineState, tx: TxState)
    requires
        s.commit_id < u64::MAX,
        forall|k: u64| #[trigger] s.commits.contains_key(k) ==> k <= s.commit_id,
        tx.commit <= s.commit_id,
    ensures
        tx.done ==> s.outcome(tx) == Outcome::Closed,
        !tx.done && (forall|k: Seq<u8>| !tx.writes.contains_key(k)) ==> s.outcome(tx)
            == Outcome::Empty,
        !tx.done && (exists|k: Seq<u8>| tx.writes.contains_key(k)) ==> {
            &&& s.outcome(tx) == Outcome::Applied <==> forall|n: u64, key: Seq<u8>|
                #![trigger s.commits[n].1.contains_key(key)]
                tx.commit < n && s.commits.contains_key(n) && s.commits[n].1.contains_key(key)
                    ==> !tx.writes.contains_key(key) && !(tx.ssi && tx.reads.contains(key))
            &&& forall|n: u64|
                #![trigger s.commits[n]]
                tx.commit < n && s.commits.contains_key(n) && (exists|key: Seq<u8>|
                    #[trigger] s.commits[n].1.contains_key(key) && (tx.writes.contains_key(key) || (
                    tx.ssi && tx.reads.contains(key)))) && (forall|k: u64, key: Seq<u8>|
                    #![trigger s.commits[k].1.contains_key(key)]
                    tx.commit < k < n && s.commits.contains_key(k)
                        && s.commits[k].1.contains_key(key) ==> !tx.writes.contains_key(key) && !(
                    tx.ssi && tx.reads.contains(key))) ==> s.outcome(tx) == (if exists|
                    key: Seq<u8>,
                | #[trigger] s.commits[n].1.contains_key(key) && tx.writes.contains_key(key) {
                    Outcome::WriteConflict
                } else {
                    Outcome::ReadConflict
                })
        },
{
    let f = tx.footprint();
    let lo = tx.commit + 1;
    let hi = s.commit_id + 1;
    if forall|k: Seq<u8>| !tx.writes.contains_key(k) {
        assert(tx.writes.dom() =~= Set::<Seq<u8>>::empty());
    }
    if !tx.done && exists|k: Seq<u8>| tx.writes.contains_key(k) {
        let some = choose|k: Seq<u8>| tx.writes.contains_key(k);
        assert(tx.writes.dom().contains(some));
        assert(tx.writes.dom() != Set::<Seq<u8>>::empty());
        assert forall|n: u64|
            #![trigger s.commits[n]]
            tx.commit < n && s.commits.contains_key(n) && (exists|key: Seq<u8>|
                #[trigger] s.commits[n].1.contains_key(key) && (tx.writes.contains_key(key) || (
                tx.ssi && tx.reads.contains(key)))) && (forall|k: u64, key: Seq<u8>|
                #![trigger s.commits[k].1.contains_key(key)]
                tx.commit < k < n && s.commits.contains_key(k) && s.commits[k].1.contains_key(key)
                    ==> !tx.writes.contains_key(key) && !(tx.ssi && tx.reads.contains(
                    key,
                ))) implies s.outcome(tx) == (if exists|key: Seq<u8>|
            #[trigger] s.commits[n].1.contains_key(key) && tx.writes.contains_key(key) {
            Outcome::WriteConflict
        } else {
            Outcome::ReadConflict
        }) by {
            lemma_verdict_decides(s.commits, lo, hi, f, n);
        }
        if forall|n: u64, key: Seq<u8>|
            #![trigger s.commits[n].1.contains_key(key)]
            tx.commit < n && s.commits.contains_key(n) && s.commits[n].1.contains_key(key)
                ==> !tx.writes.contains_key(key) && !(tx.ssi && tx.reads.contains(key)) {
            lemma_verdict_passes(s.commits, lo, hi, f);
        } else {
            let (n, key) = choose|n: u64, key: Seq<u8>|
                #![trigger s.commits[n].1.contains_key(key)]
                tx.commit < n && s.commits.contains_key(n) && s.commits[n].1.contains_key(key) && !(
                !tx.writes.contains_key(key) && !(tx.ssi && tx.reads.contains(key)));
            lemma_first_clash(s, tx, n);
        }
    }
}

/// Where a record clashes, there is a first one that does, and the commit is refused.
proof fn lemma_first_clash(s: EngineState, tx: TxState, n: u64)
    requires
        s.commit_id < u64::MAX,
        forall|k: u64| #[trigger] s.commits.contains_key(k) ==> k <= s.commit_id,
        !tx.done,
        tx.writes.dom() != Set::<Seq<u8>>::empty(),
        tx.commit < n,
        s.commits.contains_key(n),
        exists|key: Seq<u8>|
            #[trigger] s.commits[n].1.contains_key(key) && (tx.writes.contains_key(key) || (tx.ssi
                && tx.reads.contains(key))),
    ensures
        s.outcome(tx) == Outcome::WriteConflict || s.outcome(tx) == Outcome::ReadConflict,
    decreases n,
{
    if exists|k: u64, key: Seq<u8>|
        #![trigger s.commits[k].1.contains_key(key)]
        tx.commit < k < n && s.commits.contains_key(k) && s.commits[k].1.contains_key(key) && (
        tx.writes.contains_key(key) || (tx.ssi && tx.reads.contains(key))) {
        let (k, key) = choose|k: u64, key: Seq<u8>|
            #![trigger s.commits[k].1.contains_key(key)]
            tx.commit < k < n && s.commits.contains_key(k) && s.commits[k].1.contains_key(key) && (
            tx.writes.contains_key(key) || (tx.ssi && tx.reads.contains(key)));
        lemma_first_clash(s, tx, k);
    } else {
        lemma_verdict_decides(s.commits, tx.commit + 1, s.commit_id + 1, tx.footprint(), n);
    }
}

/// What a commit that passes does. It gets the next commit number, and a version above all that
/// were handed out: the time, or the next number where the clock lags behind. A record of all its
/// writes joins the commit queue, and, until the commit ends, the merge queue. Every key that it
/// wrote is noted for collection and has the write at the end of its chain, unless that repeats
/// what is there; every other key keeps its chain. Nothing else changes.
pub proof fn law_commit_writes_all(s: EngineState, tx: TxState, keys: Seq<Seq<u8>>, now: u64)
    requires
        s.wf(),
        s.can_commit(),
        s.outcome(tx) == Outcome::Applied,
    ensures
        ({
            let a = s.committed(tx, keys, now);
            let v = a.timestamp;
            &&& now > s.timestamp ==> v == now
            &&& now <= s.timestamp ==> v == s.timestamp + 1
            &&& a.commit_id == s.commit_id + 1
            &&& a.queue_id == s.queue_id + 1
            &&& a.merge_id == s.merge_id + 1
            &&& a.commits == s.commits.insert(a.commit_id, (a.queue_id, tx.writes))
            &&& a.merges == s.merges
            &&& a.by_commit == s.by_commit
            &&& a.by_oracle == s.by_oracle
            &&& a.gc_floor == s.gc_floor
            &&& a.dirty == s.dirty + keys
            &&& forall|k: Seq<u8>|
                !tx.writes.contains_key(k) ==> #[trigger] a.store.contains_key(k)
                    == s.store.contains_key(k) && (s.store.contains_key(k) ==> a.store[k]
                    == s.store[k])
            &&& forall|k: Seq<u8>| #[trigger]
                tx.writes.contains_key(k) ==> {
                    let value = tx.writes[k];
                    let before = s.store[k];
                    &&& a.store.contains_key(k)
                    &&& !s.store.contains_key(k) ==> a.store[k] == seq![(v, value)]
                    &&& s.store.contains_key(k) ==> a.store[k] == chain_push(before, v, value)
                    &&& s.store.contains_key(k) && chain_within(before, s.timestamp) ==> a.store[k]
                        == (if before.len() == 0 && value is None || before.len() > 0
                        && before.last().1 == value {
                        before
                    } else {
                        before.push((v, value))
                    })
                }
        }),
        ({
            let a = s.committed(tx, keys, now);
            let mid = s.commit_started(tx, keys, now);
            &&& mid.merges == s.merges.insert(a.timestamp, (a.merge_id, tx.writes))
            &&& mid == (EngineState { merges: mid.merges, ..a })
            &&& mid.merged(a.timestamp) == a
        }),
{
    let a = s.committed(tx, keys, now);
    let mid = s.commit_started(tx, keys, now);
    let v = s.next_version(now);
    assert(!s.merges.contains_key(v));
    assert(a.merges =~= s.merges);
    assert forall|k: Seq<u8>| #[trigger] tx.writes.contains_key(k) && s.store.contains_key(k)
        && chain_within(s.store[k], s.timestamp) implies a.store[k] == (if s.store[k].len() == 0
        && tx.writes[k] is None || s.store[k].len() > 0 && s.store[k].last().1 == tx.writes[k] {
        s.store[k]
    } else {
        s.store[k].push((v, tx.writes[k]))
    }) by {
        let c = s.store[k];
        assert(lte_index(c, v as int) == c.len()) by {
            if c.len() > 0 {
                assert(c[c.len() - 1].0 <= s.timestamp);
            }
        }
        assert(c.insert(c.len() as int, (v, tx.writes[k])) =~= c.push((v, tx.writes[k])));
    }
}

/// What a commit that does not pass does: one that is refused uses up a commit number and a record
/// number, and one of a closed transaction or without writes nothing at all.
pub proof fn law_refused_commit_uses_numbers(
    s: EngineState,
    tx: TxState,
    keys: Seq<Seq<u8>>,
    now: u64,
)
    requires
        s.can_commit(),
        s.outcome(tx) != Outcome::Applied,
    ensures
        s.commit_started(tx, keys, now) == s.committed(tx, keys, now),
        s.outcome(tx) == Outcome::Closed || s.outcome(tx) == Outcome::Empty ==> s.committed(
            tx,
            keys,
            now,
        ) == s,
        s.outcome(tx) == Outcome::WriteConflict || s.outcome(tx) == Outcome::ReadConflict
            ==> s.committed(tx, keys, now) == (EngineState {
            commit_id: (s.commit_id + 1) as u64,
            queue_id: (s.queue_id + 1) as u64,
            ..s
        }),
{
}

/// Ending a commit takes its record out of the merge queue, and does nothing else.
pub proof fn law_ending_takes_one_record(s: EngineState, version: u64)
    ensures
        s.merged(version) == (EngineState { merges: s.merges.remove(version), ..s }),
{
}

/// Taking a commit back takes its two records out and gives every key in `former` its chain back,
/// or takes it out where it had none. A key that a later commit wrote stays as it is, and so does
/// every key that is not in `former`. Nothing else changes.
pub proof fn law_taking_back_restores(
    s: EngineState,
    number: u64,
    version: u64,
    former: FormerModel,
    key: Seq<u8>,
)
    ensures
        ({
            let a = s.rolled_back(number, version, former);
            let overwritten = exists|n: u64|
                n > number && #[trigger] s.commits.contains_key(n) && s.commits[n].1.contains_key(
                    key,
                );
            &&& a == (EngineState {
                commits: s.commits.remove(number),
                merges: s.merges.remove(version),
                store: a.store,
                ..s
            })
            &&& former.contains_key(key) && !overwritten ==> {
                &&& former[key] is None ==> !a.store.contains_key(key)
                &&& former[key] is Some ==> a.store.contains_key(key) && a.store[key]
                    == former[key]->0
            }
            &&& !former.contains_key(key) || overwritten ==> {
                &&& a.store.contains_key(key) == s.store.contains_key(key)
                &&& s.store.contains_key(key) ==> a.store[key] == s.store[key]
            }
        }),
{
}

/// The version at which a collection is made is the greatest one that is not above the time, nor
/// above the highest version handed out, nor above the version of an open transaction.
pub proof fn law_watermark(s: EngineState, now: u64)
    requires
        s.wf(),
    ensures
        s.cleanup_ts(now) <= now,
        s.cleanup_ts(now) <= s.timestamp,
        forall|v: u64| #[trigger] s.by_oracle.contains_key(v) ==> s.cleanup_ts(now) <= v,
        s.cleanup_ts(now) == now || s.cleanup_ts(now) == s.timestamp || s.by_oracle.contains_key(
            s.cleanup_ts(now),
        ),
{
    law_earliest(s.by_oracle, now);
    assert forall|v: u64| #[trigger] s.by_oracle.contains_key(v) implies s.cleanup_ts(now) <= v by {
        assert(s.by_oracle[v] != 0 && s.by_oracle[v] != u64::MAX);
    }
}

/// The least number in a table of counters is that of a counter that counts, and none that counts
/// lies below it; where none counts, it is what is asked for in that case.
pub proof fn law_earliest(m: Map<u64, u64>, fallback: u64)
    ensures
        forall|k: u64| #[trigger]
            m.contains_key(k) && m[k] != 0 && m[k] != u64::MAX ==> earliest(m, fallback) <= k,
        (exists|k: u64| #[trigger] m.contains_key(k) && m[k] != 0 && m[k] != u64::MAX) ==> {
            &&& m.contains_key(earliest(m, fallback))
            &&& m[earliest(m, fallback)] != 0
            &&& m[earliest(m, fallback)] != u64::MAX
        },
        !(exists|k: u64| #[trigger] m.contains_key(k) && m[k] != 0 && m[k] != u64::MAX) ==> earliest(
            m,
            fallback,
        ) == fallback,
{
    if exists|k: u64| #[trigger] m.contains_key(k) && m[k] != 0 && m[k] != u64::MAX {
        let k = choose|k: u64| #[trigger] m.contains_key(k) && m[k] != 0 && m[k] != u64::MAX;
        assert(active(m, k));
        crate::inner::lemma_earliest_exists(m, k);
        let e = choose|e: u64| is_earliest(m, e);
        assert(is_earliest(m, e));
        assert forall|j: u64| #[trigger]
            m.contains_key(j) && m[j] != 0 && m[j] != u64::MAX implies earliest(m, fallback) <= j by {
            assert(active(m, j));
        }
    } else {
        if exists|e: u64| is_earliest(m, e) {
            let e = choose|e: u64| is_earliest(m, e);
            assert(m.contains_key(e));
        }
    }
}

/// A collection at `ts` leaves of every key what can be read at `ts` or later, and nothing else:
/// the entries above `ts`, and the newest one at or below it where that has a value. So no key has
/// more than one version at or below `ts`, and none has a deletion there. A key with nothing left
/// is not in the store. No key waits for collection then.
pub proof fn law_collection_leaves_what_is_read(s: EngineState, ts: u64)
    requires
        s.wf(),
    ensures
        ({
            let a = s.gced(ts);
            &&& a == (EngineState {
                gc_floor: a.gc_floor,
                dirty: a.dirty,
                store: a.store,
                ..s
            })
            &&& a.dirty.len() == 0
            &&& a.gc_floor >= ts && a.gc_floor >= s.gc_floor
            &&& a.gc_floor == ts || a.gc_floor == s.gc_floor
            &&& forall|k: Seq<u8>, j: int|
                #![trigger a.store[k][j]]
                a.store.contains_key(k) && 0 < j < a.store[k].len() ==> a.store[k][j].0 > ts
            &&& forall|k: Seq<u8>, i: int|
                #![trigger a.store[k][i]]
                a.store.contains_key(k) && 0 <= i < a.store[k].len() ==> s.store[k].contains(
                    a.store[k][i],
                ) && (a.store[k][i].0 > ts || a.store[k][i].1 is Some)
            &&& forall|k: Seq<u8>| #[trigger]
                a.store.contains_key(k) ==> s.store.contains_key(k) && a.store[k].len() > 0
            &&& forall|k: Seq<u8>, i: int|
                #![trigger s.store[k][i]]
                s.store.contains_key(k) && 0 <= i < s.store[k].len() ==> ((s.store[k][i].0 > ts || (
                s.store[k][i].1 is Some && (i + 1 == s.store[k].len() || s.store[k][i + 1].0
                    > ts))) <==> a.store.contains_key(k) && a.store[k].contains(s.store[k][i]))
        }),
        s.collected(ts) == (EngineState { store: s.gced(ts).store, ..s }),
        s.floored(ts) == (EngineState { gc_floor: s.gced(ts).gc_floor, ..s }),
{
    let a = s.gced(ts);
    assert forall|k: Seq<u8>, j: int|
        #![trigger a.store[k][j]]
        a.store.contains_key(k) && 0 < j < a.store[k].len() implies a.store[k][j].0 > ts by {
        lemma_collected_chain(s.store[k], ts, j);
    }
    assert forall|k: Seq<u8>, i: int|
        #![trigger a.store[k][i]]
        a.store.contains_key(k) && 0 <= i < a.store[k].len() implies s.store[k].contains(
        a.store[k][i],
    ) && (a.store[k][i].0 > ts || a.store[k][i].1 is Some) by {
        lemma_collected_entry(s.store[k], ts, i);
    }
    assert forall|k: Seq<u8>, i: int|
        #![trigger s.store[k][i]]
        s.store.contains_key(k) && 0 <= i < s.store[k].len() implies ((s.store[k][i].0 > ts || (
    s.store[k][i].1 is Some && (i + 1 == s.store[k].len() || s.store[k][i + 1].0 > ts)))
        <==> a.store.contains_key(k) && a.store[k].contains(s.store[k][i])) by {
        law_gc_keeps_what_is_read(s.store[k], ts);
        assert(s.store[k][i] == s.store[k][i]);
    }
}

/// A collection of the keys that wait for it does to them what a collection of all keys does, and
/// leaves the others alone. No key waits then.
pub proof fn law_collection_of_the_written(s: EngineState, ts: u64)
    ensures
        ({
            let a = s.collected_dirty(ts);
            let all = s.gced(ts);
            &&& a == (EngineState { dirty: a.dirty, store: a.store, ..s })
            &&& a.dirty.len() == 0
            &&& forall|i: int|
                #![trigger s.dirty[i]]
                0 <= i < s.dirty.len() ==> a.store.contains_key(s.dirty[i])
                    == all.store.contains_key(s.dirty[i]) && (a.store.contains_key(s.dirty[i])
                    ==> a.store[s.dirty[i]] == all.store[s.dirty[i]])
            &&& forall|k: Seq<u8>|
                !s.dirty.contains(k) ==> #[trigger] a.store.contains_key(k) == s.store.contains_key(
                    k,
                ) && (s.store.contains_key(k) ==> a.store[k] == s.store[k])
        }),
{
    let a = s.collected_dirty(ts);
    assert forall|i: int|
        #![trigger s.dirty[i]]
        0 <= i < s.dirty.len() implies s.dirty.to_set().contains(s.dirty[i]) by {
        assert(s.dirty.contains(s.dirty[i]));
    }
}

/// Every entry of a collected chain but the first lies above `ts`.
proof fn lemma_collected_chain(c: ChainModel, ts: u64, j: int)
    requires
        crate::chain::chain_sorted(c),
        0 < j < crate::chain::chain_gc(c, ts).len(),
    ensures
        crate::chain::chain_gc(c, ts)[j].0 > ts,
{
    lemma_lte_index(c, ts as int);
}

/// An entry of a collected chain was there before, and lies above `ts` or has a value.
proof fn lemma_collected_entry(c: ChainModel, ts: u64, i: int)
    requires
        crate::chain::chain_sorted(c),
        0 <= i < crate::chain::chain_gc(c, ts).len(),
    ensures
        c.contains(crate::chain::chain_gc(c, ts)[i]),
        crate::chain::chain_gc(c, ts)[i].0 > ts || crate::chain::chain_gc(c, ts)[i].1 is Some,
{
    let g = crate::chain::chain_gc(c, ts);
    lemma_lte_index(c, ts as int);
    let k = lte_index(c, ts as int);
    let from = if k == 0 {
        0
    } else if c[k - 1].1 is None {
        k
    } else {
        k - 1
    };
    assert(g =~= c.skip(from));
    assert(g[i] == c[i + from]);
}

/// Cleaning takes the records out of the commit queue whose numbers lie below that of every open
/// transaction, or below the latest number where none is open. All others stay, and nothing else
/// changes.
pub proof fn law_cleaning_takes_what_nobody_looks_at(s: EngineState)
    requires
        s.wf(),
    ensures
        ({
            let a = s.cleaned();
            &&& a == (EngineState { commits: a.commits, ..s })
            &&& forall|n: u64| #[trigger]
                a.commits.contains_key(n) ==> s.commits.contains_key(n) && a.commits[n]
                    == s.commits[n]
            &&& forall|n: u64, c: u64|
                #![trigger s.commits.contains_key(n), s.by_commit.contains_key(c)]
                s.commits.contains_key(n) && s.by_commit.contains_key(c) && c <= n
                    ==> a.commits.contains_key(n)
            &&& forall|n: u64| #[trigger]
                a.commits.contains_key(n) ==> n >= s.commit_id || exists|c: u64| #[trigger]
                    s.by_commit.contains_key(c) && c <= n
            &&& s.commits.contains_key(s.commit_id) ==> a.commits.contains_key(s.commit_id)
        }),
{
    law_earliest(s.by_commit, s.commit_id);
    let a = s.cleaned();
    let e = earliest(s.by_commit, s.commit_id);
    assert forall|n: u64, c: u64|
        #![trigger s.commits.contains_key(n), s.by_commit.contains_key(c)]
        s.commits.contains_key(n) && s.by_commit.contains_key(c) && c
            <= n implies a.commits.contains_key(n) by {
        assert(s.by_commit[c] != 0 && s.by_commit[c] != u64::MAX);
    }
    if exists|k: u64| #[trigger]
        s.by_commit.contains_key(k) && s.by_commit[k] != 0 && s.by_commit[k] != u64::MAX {
        assert(s.by_commit.contains_key(e));
        assert(e <= s.commit_id);
    }
}

/// A counter that is dead takes no transaction. Any other one does where the number is still the
/// latest one and collection has not got past it.
pub proof fn law_registering(
    m: Map<u64, u64>,
    latest: u64,
    reloaded: u64,
    gc_floor: Option<u64>,
)
    ensures
        crate::inner::registers(m, latest, reloaded, gc_floor) <==> !(m.contains_key(latest)
            && m[latest] == u64::MAX) && reloaded == latest && (gc_floor is Some ==> gc_floor->0
            <= latest),
{
}

/// Counting up adds one at a number and counting down takes one away, and with the last one the
/// counter; every other counter stays.
pub proof fn law_counting(m: Map<u64, u64>, k: u64)
    requires
        m.contains_key(k) ==> 1 <= m[k] < u64::MAX,
    ensures
        counted_up(m, k) == m.insert(
            k,
            if m.contains_key(k) {
                (m[k] + 1) as u64
            } else {
                1
            },
        ),
        m.contains_key(k) ==> counted_down(m, k) == (if m[k] == 1 {
            m.remove(k)
        } else {
            m.insert(k, (m[k] - 1) as u64)
        }),
{
}

} // verus!
