//! The model of a version chain: what is read at a version, what a write adds and what a
//! collection drops.

use vstd::prelude::*;

verus! {

/// A version chain: every entry is a version and the value written at it, `None` for a deletion.
pub type ChainModel = Seq<(u64, Option<Seq<u8>>)>;

/// Versions ascend strictly.
pub open spec fn chain_sorted(c: ChainModel) -> bool {
    forall|i: int, j: int| 0 <= i < j < c.len() ==> c[i].0 < c[j].0
}

/// One past the last entry whose version is at most `t`; 0 where there is none.
pub open spec fn lte_index(c: ChainModel, t: int) -> int
    decreases c.len(),
{
    if c.len() == 0 {
        0
    } else if c.last().0 <= t {
        c.len() as int
    } else {
        lte_index(c.drop_last(), t)
    }
}

/// The value that is visible at `t`: that of the newest entry whose version is at most `t`.
pub open spec fn read_at(c: ChainModel, t: int) -> Option<Seq<u8>> {
    let i = lte_index(c, t);
    if i == 0 {
        None
    } else {
        c[i - 1].1
    }
}

/// The chain after `value` is written at `version`. A value that repeats the one it would follow
/// adds no entry, and neither does a deletion that nothing precedes.
pub open spec fn chain_push(c: ChainModel, version: u64, value: Option<Seq<u8>>) -> ChainModel {
    let i = lte_index(c, version as int);
    if i == 0 {
        if value is None {
            c
        } else {
            c.insert(0, (version, value))
        }
    } else if c[i - 1].1 == value {
        c
    } else if c[i - 1].0 == version {
        c.update(i - 1, (version, value))
    } else {
        c.insert(i, (version, value))
    }
}

/// The chain after everything that nobody at or after `t` can see was dropped: the newest entry
/// at or below `t` stays, unless it is a deletion.
pub open spec fn chain_gc(c: ChainModel, t: u64) -> ChainModel {
    let i = lte_index(c, t as int);
    if i == 0 {
        c
    } else if c[i - 1].1 is None {
        c.skip(i)
    } else {
        c.skip(i - 1)
    }
}

/// No version in a chain lies above `v`.
pub open spec fn chain_within(c: ChainModel, v: u64) -> bool {
    forall|i: int| 0 <= i < c.len() ==> (#[trigger] c[i]).0 <= v
}

/// The writes of a list, pushed one after the other.
pub open spec fn chain_push_all(c: ChainModel, writes: ChainModel) -> ChainModel
    decreases writes.len(),
{
    if writes.len() == 0 {
        c
    } else {
        chain_push(chain_push_all(c, writes.drop_last()), writes.last().0, writes.last().1)
    }
}

/// `lte_index` parts a sorted chain: entries before it are at most `t`, the others are later.
pub proof fn lemma_lte_index(c: ChainModel, t: int)
    requires
        chain_sorted(c),
    ensures
        0 <= lte_index(c, t) <= c.len(),
        forall|i: int| 0 <= i < lte_index(c, t) ==> c[i].0 <= t,
        forall|i: int| lte_index(c, t) <= i < c.len() ==> c[i].0 > t,
    decreases c.len(),
{
    if c.len() > 0 && c.last().0 > t {
        let d = c.drop_last();
        lemma_lte_index(d, t);
        assert forall|i: int| 0 <= i < lte_index(c, t) implies c[i].0 <= t by {
            assert(d[i] == c[i]);
        }
        assert forall|i: int| lte_index(c, t) <= i < c.len() implies c[i].0 > t by {
            if i < d.len() {
                assert(d[i] == c[i]);
            }
        }
    }
}

/// From the last version of a chain on, its last entry is read.
pub proof fn lemma_reads_settle(c: ChainModel, t: int)
    requires
        forall|i: int| 0 <= i < c.len() ==> (#[trigger] c[i]).0 <= t,
    ensures
        lte_index(c, t) == c.len(),
{
}

/// Where a chain parts into entries of at most `t` and later ones is `lte_index`.
pub proof fn lemma_lte_index_unique(c: ChainModel, t: int, k: int)
    requires
        0 <= k <= c.len(),
        k > 0 ==> c[k - 1].0 <= t,
        forall|i: int| k <= i < c.len() ==> c[i].0 > t,
    ensures
        lte_index(c, t) == k,
    decreases c.len(),
{
    if c.len() > k {
        let d = c.drop_last();
        assert forall|i: int| k <= i < d.len() implies d[i].0 > t by {
            assert(d[i] == c[i]);
        }
        assert(c.last() == c[c.len() - 1]);
        lemma_lte_index_unique(d, t, k);
    }
}

/// A write keeps a chain sorted.
pub proof fn lemma_push_sorted(c: ChainModel, version: u64, value: Option<Seq<u8>>)
    requires
        chain_sorted(c),
    ensures
        chain_sorted(chain_push(c, version, value)),
{
    lemma_lte_index(c, version as int);
}

/// Any run of writes keeps a chain sorted.
pub proof fn lemma_push_all_sorted(c: ChainModel, writes: ChainModel)
    requires
        chain_sorted(c),
    ensures
        chain_sorted(chain_push_all(c, writes)),
    decreases writes.len(),
{
    if writes.len() > 0 {
        lemma_push_all_sorted(c, writes.drop_last());
        lemma_push_sorted(
            chain_push_all(c, writes.drop_last()),
            writes.last().0,
            writes.last().1,
        );
    }
}

/// Collection keeps a chain sorted.
pub proof fn lemma_gc_sorted(c: ChainModel, t: u64)
    requires
        chain_sorted(c),
    ensures
        chain_sorted(chain_gc(c, t)),
{
    lemma_lte_index(c, t as int);
}

/// A write is what is read at its version, and it does not bear on earlier reads. Later reads
/// change only where no later entry hides the write.
pub proof fn law_read_after_push(c: ChainModel, version: u64, value: Option<Seq<u8>>, t: int)
    requires
        chain_sorted(c),
    ensures
        t < version ==> read_at(chain_push(c, version, value), t) == read_at(c, t),
        t >= version && lte_index(c, t) == lte_index(c, version as int) ==> read_at(
            chain_push(c, version, value),
            t,
        ) == value,
        t >= version && lte_index(c, t) != lte_index(c, version as int) ==> read_at(
            chain_push(c, version, value),
            t,
        ) == read_at(c, t),
{
    let p = chain_push(c, version, value);
    let i = lte_index(c, version as int);
    let j = lte_index(c, t);
    lemma_lte_index(c, version as int);
    lemma_lte_index(c, t);
    lemma_push_sorted(c, version, value);
    if p == c {
    } else if i > 0 && c[i - 1].0 == version {
        // The entry at `version` was overwritten in place: every index stays.
        lemma_lte_index_unique(p, t, j);
    } else {
        // One entry was added at `i`: indices from there on move up by one.
        assert(p == c.insert(i, (version, value)));
        if t < version {
            lemma_lte_index_unique(p, t, j);
        } else {
            lemma_lte_index_unique(p, t, j + 1);
        }
    }
}

/// Collecting at `ts` changes no read at `ts` or later.
pub proof fn law_gc_keeps_reads(c: ChainModel, ts: u64, t: int)
    requires
        chain_sorted(c),
        t >= ts,
    ensures
        read_at(chain_gc(c, ts), t) == read_at(c, t),
{
    let g = chain_gc(c, ts);
    let i = lte_index(c, ts as int);
    let j = lte_index(c, t);
    lemma_lte_index(c, ts as int);
    lemma_lte_index(c, t);
    if i == 0 {
    } else if c[i - 1].1 is None {
        lemma_lte_index_unique(g, t, j - i);
    } else {
        lemma_lte_index_unique(g, t, j - (i - 1));
    }
}

/// Collecting twice at one version is collecting once.
pub proof fn law_gc_idempotent(c: ChainModel, ts: u64)
    requires
        chain_sorted(c),
    ensures
        chain_gc(chain_gc(c, ts), ts) == chain_gc(c, ts),
{
    let g = chain_gc(c, ts);
    let i = lte_index(c, ts as int);
    lemma_lte_index(c, ts as int);
    if i == 0 {
    } else if c[i - 1].1 is None {
        lemma_lte_index_unique(g, ts as int, 0);
    } else {
        lemma_lte_index_unique(g, ts as int, 1);
        assert(g.skip(0) =~= g);
    }
}

/// Collection leaves nothing at or below `ts` but at most the one value that is visible there.
pub proof fn law_gc_drops_stale(c: ChainModel, ts: u64)
    requires
        chain_sorted(c),
    ensures
        lte_index(chain_gc(c, ts), ts as int) == (if read_at(c, ts as int) is Some {
            1int
        } else {
            0
        }),
{
    let g = chain_gc(c, ts);
    let i = lte_index(c, ts as int);
    lemma_lte_index(c, ts as int);
    if i == 0 {
    } else if c[i - 1].1 is None {
        lemma_lte_index_unique(g, ts as int, 0);
    } else {
        lemma_lte_index_unique(g, ts as int, 1);
    }
}

/// What is read at `t` is the value of the newest entry whose version is at most `t`, and nothing
/// where there is no such entry.
pub proof fn law_read_is_newest(c: ChainModel, t: int)
    requires
        chain_sorted(c),
    ensures
        forall|i: int|
            #![trigger c[i]]
            0 <= i < c.len() && c[i].0 <= t && (i + 1 == c.len() || c[i + 1].0 > t) ==> read_at(
                c,
                t,
            ) == c[i].1,
        (forall|i: int| 0 <= i < c.len() ==> (#[trigger] c[i]).0 > t) ==> read_at(c, t) is None,
{
    lemma_lte_index(c, t);
    let k = lte_index(c, t);
    assert forall|i: int|
        #![trigger c[i]]
        0 <= i < c.len() && c[i].0 <= t && (i + 1 == c.len() || c[i + 1].0 > t) implies read_at(
        c,
        t,
    ) == c[i].1 by {
        if i + 1 < k {
            assert(c[i + 1].0 <= t);
        }
        assert(i + 1 == k);
    }
    if forall|i: int| 0 <= i < c.len() ==> (#[trigger] c[i]).0 > t {
        if k > 0 {
            assert(c[k - 1].0 > t);
        }
    }
}

/// A write whose value is read at its version already changes nothing. Any other one adds an entry
/// of its own, in place of the one at its version where there is one, and leaves every other entry
/// as it was.
pub proof fn law_push_adds_one_entry(c: ChainModel, version: u64, value: Option<Seq<u8>>)
    requires
        chain_sorted(c),
    ensures
        read_at(c, version as int) == value ==> chain_push(c, version, value) == c,
        read_at(c, version as int) != value ==> chain_push(c, version, value).contains(
            (version, value),
        ),
        forall|i: int|
            0 <= i < c.len() && (#[trigger] c[i]).0 != version ==> chain_push(
                c,
                version,
                value,
            ).contains(c[i]),
        forall|e: (u64, Option<Seq<u8>>)| #[trigger]
            chain_push(c, version, value).contains(e) ==> c.contains(e) || e == (version, value),
        chain_push(c, version, value).len() <= c.len() + 1,
        chain_sorted(chain_push(c, version, value)),
{
    let p = chain_push(c, version, value);
    let i = lte_index(c, version as int);
    lemma_lte_index(c, version as int);
    lemma_push_sorted(c, version, value);
    if read_at(c, version as int) != value {
        if i > 0 && c[i - 1].0 == version {
            assert(p == c.update(i - 1, (version, value)));
            assert(p[i - 1] == (version, value));
            assert forall|j: int|
                0 <= j < c.len() && (#[trigger] c[j]).0 != version implies p.contains(c[j]) by {
                assert(p[j] == c[j]);
            }
            assert forall|e: (u64, Option<Seq<u8>>)| #[trigger] p.contains(e) implies c.contains(e)
                || e == (version, value) by {
                let j = choose|j: int| 0 <= j < p.len() && p[j] == e;
                if j != i - 1 {
                    assert(c[j] == e);
                }
            }
        } else {
            assert(p == c.insert(i, (version, value)));
            assert(p[i] == (version, value));
            assert forall|j: int|
                0 <= j < c.len() && (#[trigger] c[j]).0 != version implies p.contains(c[j]) by {
                if j < i {
                    assert(p[j] == c[j]);
                } else {
                    assert(p[j + 1] == c[j]);
                }
            }
            assert forall|e: (u64, Option<Seq<u8>>)| #[trigger] p.contains(e) implies c.contains(e)
                || e == (version, value) by {
                let j = choose|j: int| 0 <= j < p.len() && p[j] == e;
                if j < i {
                    assert(c[j] == e);
                } else if j > i {
                    assert(c[j - 1] == e);
                }
            }
        }
    } else {
        assert forall|j: int| 0 <= j < c.len() && (#[trigger] c[j]).0 != version implies p.contains(
            c[j],
        ) by {
            assert(p[j] == c[j]);
        }
    }
}

/// Collecting at `ts` keeps every entry above `ts`, and of the others only the newest one, where it
/// has a value; it adds none.
pub proof fn law_gc_keeps_what_is_read(c: ChainModel, ts: u64)
    requires
        chain_sorted(c),
    ensures
        forall|i: int|
            #![trigger c[i]]
            0 <= i < c.len() ==> (chain_gc(c, ts).contains(c[i]) <==> c[i].0 > ts || (c[i].1 is Some
                && (i + 1 == c.len() || c[i + 1].0 > ts))),
        forall|e: (u64, Option<Seq<u8>>)| #[trigger] chain_gc(c, ts).contains(e) ==> c.contains(e),
        chain_sorted(chain_gc(c, ts)),
        chain_gc(c, ts).len() <= c.len(),
{
    let g = chain_gc(c, ts);
    let k = lte_index(c, ts as int);
    lemma_lte_index(c, ts as int);
    lemma_gc_sorted(c, ts);
    let from = if k == 0 {
        0
    } else if c[k - 1].1 is None {
        k
    } else {
        k - 1
    };
    assert(g =~= c.skip(from));
    assert forall|i: int| #![trigger c[i]] 0 <= i < c.len() implies (g.contains(c[i]) <==> c[i].0
        > ts || (c[i].1 is Some && (i + 1 == c.len() || c[i + 1].0 > ts))) by {
        if i >= from {
            assert(g[i - from] == c[i]);
        }
        if g.contains(c[i]) {
            let j = choose|j: int| 0 <= j < g.len() && g[j] == c[i];
            assert(c[j + from].0 == c[i].0);
            assert(j + from == i);
        }
        if i + 1 < k {
            assert(c[i + 1].0 <= ts);
        }
        if k <= i {
            assert(c[i].0 > ts);
        }
        if i + 1 == k && k < c.len() {
            assert(c[k].0 > ts);
        }
    }
    assert forall|e: (u64, Option<Seq<u8>>)| #[trigger] g.contains(e) implies c.contains(e) by {
        let j = choose|j: int| 0 <= j < g.len() && g[j] == e;
        assert(c[j + from] == e);
    }
}

/// A run of writes is one write after the other.
pub proof fn law_runs_of_writes(c: ChainModel, writes: ChainModel, last: (u64, Option<Seq<u8>>))
    ensures
        chain_push_all(c, Seq::empty()) == c,
        chain_push_all(c, writes.push(last)) == chain_push(
            chain_push_all(c, writes),
            last.0,
            last.1,
        ),
{
    assert(writes.push(last).drop_last() =~= writes);
}

} // verus!
