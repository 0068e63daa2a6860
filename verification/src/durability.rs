//! What goes to the log and to the files, and what comes back, in terms of bytes, keys and chains.

use vstd::prelude::*;

use crate::chain::{chain_push, ChainModel};
use crate::codec::{
    log_bytes, log_step, snapshot_bytes, snapshot_step, LogStep, SnapshotStep,
};
use crate::compression::{
    detected, lz4_content, lz4_frame, packed, unpacked, CompressionMode,
};
use crate::db::{snapshot_file_of, Database};
use crate::inner::keys_of;
use crate::laws::{lemma_write_is_read, lemma_write_keeps_reads, store_within};
use crate::model::{store_read, store_sorted, EngineState, Outcome, StoreModel, TxState};
use crate::options::{AolMode, FsyncMode};
use crate::persistence::{
    batch_records, batch_view, lemma_batch_records_concat, lemma_log_image_concat, log_in_use,
    log_tail, sync_step, AsyncAppendOperation, SyncStep,
};
use crate::recovery::{
    apply_commits, chain_below, commits_in_order, law_log_replays_commit,
    law_recovery_restores_reads, law_replaying_twice_is_harmless, law_snapshot_restores_reads,
    lemma_replay_alike, lemma_replay_concat, lemma_write_below, reads_alike, store_below,
};
use crate::replay::{
    file_view, holds_log, holds_snapshot, is_listing, load_all, log_image, nonempty, records_of,
    replay_all, replay_log, replay_snapshot, restore, snapshot_image, ListingModel, RecordsModel,
};
use crate::time::duration_nanos;
use crate::writeset::{entries_sorted, map_of, EntriesModel};

verus! {

/// A log that is written behind the commits gets every commit that passes, whatever it wrote and
/// however much: its version with all of its writes joins the end of the queue, and nothing else
/// changes there. Replayed, what joined the queue does to the store what the commit did. No other
/// commit, and no other log, changes the queue.
pub proof fn law_queue_gets_every_commit(
    db: Database,
    tx: TxState,
    list: EntriesModel,
    now: u64,
)
    requires
        db.wf(),
        db@.can_commit(),
        entries_sorted(list),
        tx.writes == map_of(list),
    ensures
        ({
            let after = db@.committed(tx, keys_of(list), now);
            let queue = db.log_queue_after(tx, list, now);
            if db@.outcome(tx) == Outcome::Applied && db.log_mode()
                == AolMode::AsynchronousAfterCommit {
                &&& queue.len() == db.log_queue().len() + 1
                &&& queue.last() == (after.timestamp, list)
                &&& queue.drop_last() == db.log_queue()
                &&& replay_all(db@.store, records_of(queue.last().0, queue.last().1)) == after.store
            } else {
                queue == db.log_queue()
            }
        }),
{
    if db@.outcome(tx) == Outcome::Applied && db.log_mode() == AolMode::AsynchronousAfterCommit {
        let version = db@.next_version(now);
        law_log_replays_commit(db@.store, version, list);
        assert(db.log_queue().push((version, list)).drop_last() =~= db.log_queue());
    }
}

/// A commit that passes and has to wait for the log leaves the engine with its record still in the
/// merge queue; one that cannot be written as bytes leaves the store as it was. Every other commit
/// is done at once.
pub proof fn law_commit_waits_for_the_log(
    db: Database,
    tx: TxState,
    list: EntriesModel,
    now: u64,
)
    requires
        db.wf(),
        db@.can_commit(),
    ensures
        ({
            let after = db.commit_started_at(tx, list, now);
            let waits = db@.outcome(tx) == Outcome::Applied && db.log_mode()
                == AolMode::SynchronousOnCommit;
            let image = log_image(records_of(db@.next_version(now), list));
            &&& !waits ==> after == db@.committed(tx, keys_of(list), now)
            &&& waits && image is Some ==> after == db@.commit_started(tx, keys_of(list), now)
            &&& waits && image is None ==> {
                &&& after.store == db@.store
                &&& after.commits == db@.commits
                &&& after.merges == db@.merges
                &&& after.by_commit == db@.by_commit
                &&& after.by_oracle == db@.by_oracle
                &&& after.gc_floor == db@.gc_floor
                &&& after.commit_id == db@.commit_id + 1
                &&& after.timestamp > db@.timestamp
            }
        }),
{
}

/// Without persistence there is no log and no queue. With it, the log is the one that is settled,
/// and the queue that of persistence.
pub proof fn law_log_is_that_of_persistence(db: Database)
    ensures
        db.storage() is None ==> db.log_mode() == AolMode::Never && db.log_queue().len() == 0,
        db.storage() is Some ==> db.log_mode() == db.storage()->0.settings().aol_mode
            && db.log_queue() == db.storage()->0.queued(),
{
}

/// A batch is what its commits are, one by one: version and writes.
pub proof fn law_batch_is_its_commits(batch: Seq<AsyncAppendOperation>)
    ensures
        batch_view(batch).len() == batch.len(),
        forall|i: int|
            0 <= i < batch.len() ==> (#[trigger] batch_view(batch)[i]).0 == batch[i].version
                && batch_view(batch)[i].1 == batch[i].writeset.list(),
{
}

/// The records of a batch are those of its commits, one commit after the other, and of every commit
/// all of its writes in order, each with its version.
pub proof fn law_batch_records_are_all_writes(
    batch: Seq<(u64, EntriesModel)>,
    commit: (u64, EntriesModel),
)
    ensures
        batch_records(Seq::empty()).len() == 0,
        batch_records(batch.push(commit)) == batch_records(batch) + records_of(
            commit.0,
            commit.1,
        ),
        records_of(commit.0, commit.1).len() == commit.1.len(),
        forall|i: int|
            0 <= i < commit.1.len() ==> #[trigger] records_of(commit.0, commit.1)[i] == (
                commit.1[i].0,
                commit.0,
                commit.1[i].1,
            ),
{
    let one = seq![commit];
    assert(batch.push(commit) =~= batch + one);
    lemma_batch_records_concat(batch, one);
    assert(one.skip(1).len() == 0);
    assert(batch_records(one.skip(1)).len() == 0);
    assert(batch_records(one) =~= records_of(commit.0, commit.1));
}

/// The bytes of a log are those of its records, one after the other. They are there if and only if
/// those of every record are.
pub proof fn law_log_is_its_records(records: RecordsModel, r: (Seq<u8>, u64, Option<Seq<u8>>))
    ensures
        log_image(Seq::empty()) == Some(Seq::<u8>::empty()),
        log_image(records) is Some && log_bytes(r.0, r.1, r.2) is Some ==> log_image(
            records.push(r),
        ) == Some(log_image(records)->0 + log_bytes(r.0, r.1, r.2)->0),
        log_image(records) is None || log_bytes(r.0, r.1, r.2) is None ==> log_image(
            records.push(r),
        ) is None,
{
    let one = seq![r];
    assert(records.push(r) =~= records + one);
    lemma_log_image_concat(records, one);
    assert(one.skip(1).len() == 0);
    assert(log_image(one.skip(1)) == Some(Seq::<u8>::empty()));
    if log_bytes(r.0, r.1, r.2) is Some {
        assert(log_bytes(r.0, r.1, r.2)->0 + Seq::<u8>::empty() =~= log_bytes(r.0, r.1, r.2)->0);
    }
}

/// The bytes of a snapshot are those of its entries, one after the other. They are there if and
/// only if those of every entry are.
pub proof fn law_snapshot_is_its_entries(list: ListingModel, e: (Seq<u8>, ChainModel))
    ensures
        snapshot_image(Seq::empty()) == Some(Seq::<u8>::empty()),
        snapshot_bytes(e.0, e.1) is Some && snapshot_image(list) is Some ==> snapshot_image(
            seq![e] + list,
        ) == Some(snapshot_bytes(e.0, e.1)->0 + snapshot_image(list)->0),
        snapshot_bytes(e.0, e.1) is None || snapshot_image(list) is None ==> snapshot_image(
            seq![e] + list,
        ) is None,
{
    assert((seq![e] + list).skip(1) =~= list);
    assert((seq![e] + list)[0] == e);
}

/// Only entries with an empty chain are left out of a snapshot; the others keep their order.
pub proof fn law_snapshot_leaves_out_the_empty(list: ListingModel, e: (Seq<u8>, ChainModel))
    ensures
        nonempty(Seq::empty()).len() == 0,
        e.1.len() > 0 ==> nonempty(seq![e] + list) == seq![e] + nonempty(list),
        e.1.len() == 0 ==> nonempty(seq![e] + list) == nonempty(list),
{
    assert((seq![e] + list).skip(1) =~= list);
    assert((seq![e] + list)[0] == e);
}

/// A list of a store names every key once, in order, with its chain.
pub proof fn law_listing_names_every_key(list: ListingModel, store: StoreModel)
    requires
        is_listing(list, store),
    ensures
        forall|k: Seq<u8>| #[trigger]
            store.contains_key(k) <==> exists|i: int| 0 <= i < list.len() && #[trigger] list[i].0
                == k,
        forall|i: int| 0 <= i < list.len() ==> store[#[trigger] list[i].0] == list[i].1,
        forall|i: int, j: int|
            0 <= i < j < list.len() ==> crate::kv::lex_lt(
                #[trigger] list[i].0,
                #[trigger] list[j].0,
            ),
{
    assert forall|k: Seq<u8>|
        (exists|i: int|
            0 <= i < list.len() && #[trigger] list[i].0 == k) implies #[trigger] store.contains_key(
        k,
    ) by {
        let i = choose|i: int| 0 <= i < list.len() && #[trigger] list[i].0 == k;
        assert(store.contains_key(list[i].0));
    }
}

/// A file is taken for an LZ4 frame if and only if it begins like one. What is not compressed is
/// written and read as it is; the rest goes through LZ4.
pub proof fn law_compression_goes_by_the_first_bytes(data: Seq<u8>)
    ensures
        detected(data) == CompressionMode::Lz4 <==> data.len() >= 4 && data[0] == 0x04 && data[1]
            == 0x22 && data[2] == 0x4D && data[3] == 0x18,
        packed(data, CompressionMode::Uncompressed) == Some(data),
        packed(data, CompressionMode::Lz4) == lz4_frame(data, 7),
        detected(data) == CompressionMode::Uncompressed ==> unpacked(data) == Some(data),
        detected(data) == CompressionMode::Lz4 ==> unpacked(data) == lz4_content(data),
{
    let m = crate::compression::lz4_magic();
    assert(m.len() == 4 && m[0] == 0x04 && m[1] == 0x22 && m[2] == 0x4D && m[3] == 0x18);
    if m.is_prefix_of(data) {
        assert(data.take(4)[0] == data[0]);
        assert(data[0] == m[0] && data[1] == m[1] && data[2] == m[2] && data[3] == m[3]);
    } else if data.len() >= 4 && data[0] == 0x04 && data[1] == 0x22 && data[2] == 0x4D && data[3]
        == 0x18 {
        assert(data.take(4) =~= m);
    }
}

/// What stands in a file is all of its bytes.
pub proof fn law_file_is_its_bytes(f: &[u8])
    ensures
        file_view(Some(f)) == Some(f@),
        file_view(None) is None,
{
}

/// Every list of records that could be written as bytes is held by the file of just these bytes,
/// however long it is, unless the file begins like an LZ4 frame. So it is where a part of one more
/// record follows. And no file holds no records.
pub proof fn law_log_file_holds_its_records(records: RecordsModel, bytes: Seq<u8>, torn: Seq<u8>)
    requires
        log_image(records) == Some(bytes),
        !(bytes.len() + torn.len() >= 4 && (bytes + torn)[0] == 0x04 && (bytes + torn)[1] == 0x22
            && (bytes + torn)[2] == 0x4D && (bytes + torn)[3] == 0x18),
        bytes.len() > 0 || records.len() == 0,
        torn.len() == 0 || exists|key: Seq<u8>, version: u64, value: Option<Seq<u8>>| #[trigger]
            log_bytes(key, version, value) is Some && torn.len() < log_bytes(
                key,
                version,
                value,
            )->0.len() && torn == log_bytes(key, version, value)->0.take(torn.len() as int),
    ensures
        holds_log(Some(bytes + torn), records),
        records.len() == 0 ==> holds_log(None, records),
{
    let f = bytes + torn;
    law_compression_goes_by_the_first_bytes(f);
    if torn.len() == 0 {
        assert(f =~= bytes);
    } else {
        let (key, version, value) = choose|key: Seq<u8>, version: u64, value: Option<Seq<u8>>|
            #[trigger]
            log_bytes(key, version, value) is Some && torn.len() < log_bytes(
                key,
                version,
                value,
            )->0.len() && torn == log_bytes(key, version, value)->0.take(torn.len() as int);
        assert(f.skip(bytes.len() as int) =~= torn);
        assert(f.take(bytes.len() as int) =~= bytes);
        assert(bytes.is_prefix_of(f));
        let whole = log_bytes(key, version, value)->0;
        assert(torn.is_prefix_of(whole));
        assert(crate::codec::torn_from(torn, log_bytes(key, version, value)));
    }
}

/// Every list of entries that could be written as bytes is held by the file that these are packed
/// to, unless the file is taken for packed the other way.
pub proof fn law_snapshot_file_holds_its_entries(
    list: ListingModel,
    mode: CompressionMode,
    file: Seq<u8>,
)
    requires
        snapshot_file_of(list, mode) == Some(file),
        file.len() > 0 || nonempty(list).len() == 0,
        (mode == CompressionMode::Lz4) == (file.len() >= 4 && file[0] == 0x04 && file[1] == 0x22
            && file[2] == 0x4D && file[3] == 0x18),
    ensures
        snapshot_image(nonempty(list)) is Some,
        mode == CompressionMode::Uncompressed ==> file == snapshot_image(nonempty(list))->0,
        mode == CompressionMode::Lz4 ==> Some(file) == lz4_frame(
            snapshot_image(nonempty(list))->0,
            7,
        ),
        holds_snapshot(Some(file), nonempty(list), mode),
{
    law_compression_goes_by_the_first_bytes(file);
}

/// A list of entries that is held by no file is empty.
pub proof fn law_no_file_holds_nothing(list: ListingModel, mode: CompressionMode)
    ensures
        holds_snapshot(None, list, mode) <==> list.len() == 0,
{
}

/// Records are replayed one after the other: each of them is a write to its key, at its version,
/// and leaves the other keys alone.
pub proof fn law_replay_writes_every_record(
    store: StoreModel,
    records: RecordsModel,
    r: (Seq<u8>, u64, Option<Seq<u8>>),
)
    ensures
        replay_all(store, Seq::empty()) == store,
        ({
            let before = replay_all(store, records);
            replay_all(store, records.push(r)) == before.insert(
                r.0,
                if before.contains_key(r.0) {
                    chain_push(before[r.0], r.1, r.2)
                } else {
                    seq![(r.1, r.2)]
                },
            )
        }),
{
    let one = seq![r];
    assert(records.push(r) =~= records + one);
    lemma_replay_concat(store, records, one);
    let before = replay_all(store, records);
    assert(one.skip(1).len() == 0);
    let written = crate::replay::replay_record(before, r.0, r.1, r.2);
    assert(replay_all(written, one.skip(1)) == written);
    assert(replay_all(before, one) == replay_all(written, one.skip(1)));
}

/// Reading the bytes of a log goes on from record to record as long as there are any: a record is
/// written to the store, and what follows it is read next. It ends well where the bytes end, and
/// badly where they are no record.
pub proof fn law_log_is_read_to_its_end(store: StoreModel, input: Seq<u8>)
    ensures
        log_step(input) is End ==> replay_log(store, input).ok && replay_log(store, input).store
            == store,
        log_step(input) is Broken ==> !replay_log(store, input).ok,
        log_step(input) matches LogStep::Record { key, version, value, used } ==> (0 < used
            <= input.len() ==> replay_log(store, input) == replay_log(
            store.insert(
                key,
                if store.contains_key(key) {
                    chain_push(store[key], version, value)
                } else {
                    seq![(version, value)]
                },
            ),
            input.skip(used as int),
        )),
{
}

/// Reading the bytes of a snapshot goes on from entry to entry as long as there are any. It ends
/// well where the bytes end, and badly where they are no entry.
pub proof fn law_snapshot_is_read_to_its_end(store: StoreModel, input: Seq<u8>)
    ensures
        snapshot_step(input) is End ==> replay_snapshot(store, input).ok && replay_snapshot(
            store,
            input,
        ).store == store,
        snapshot_step(input) is Broken ==> !replay_snapshot(store, input).ok,
        snapshot_step(input) matches SnapshotStep::Entry { key, chain, used } ==> (0 < used
            <= input.len() ==> replay_snapshot(store, input) == replay_snapshot(
            if chain.len() > 0 {
                store.insert(key, crate::chain::chain_push_all(Seq::empty(), chain))
            } else {
                store
            },
            input.skip(used as int),
        )),
{
}

/// A file that is missing or empty changes nothing. Otherwise the snapshot is read first, and the
/// log over what it gave; where one of them cannot be read, recovery fails.
pub proof fn law_recovery_reads_both_files(
    store: StoreModel,
    snapshot: Option<Seq<u8>>,
    log: Option<Seq<u8>>,
)
    ensures
        (snapshot is None || snapshot->0.len() == 0) && (log is None || log->0.len() == 0)
            ==> restore(store, snapshot, log).ok && restore(store, snapshot, log).store == store,
        (snapshot is None || snapshot->0.len() == 0) && log is Some && log->0.len() > 0 ==> (
        match unpacked(log->0) {
            Some(plain) => restore(store, snapshot, log) == replay_log(store, plain),
            None => !restore(store, snapshot, log).ok,
        }),
        snapshot is Some && snapshot->0.len() > 0 ==> (match unpacked(snapshot->0) {
            None => !restore(store, snapshot, log).ok,
            Some(plain) => {
                let first = replay_snapshot(store, plain);
                &&& !first.ok ==> !restore(store, snapshot, log).ok
                &&& first.ok ==> restore(store, snapshot, log) == restore(first.store, None, log)
            },
        }),
{
}

/// A log file counts with all of its bytes wherever there is a log, and not at all where there is
/// none.
pub proof fn law_log_counts_where_there_is_one(mode: AolMode, log: Option<Seq<u8>>)
    ensures
        mode != AolMode::Never ==> log_in_use(mode, log) == log,
        mode == AolMode::Never ==> log_in_use(mode, log) is None,
{
}

/// What is left of a log that is cut behind its first part is the second part, whatever they are;
/// and nothing is left of a log that is cut at its end or behind it.
pub proof fn law_cut_log_keeps_the_rest(first: Seq<u8>, second: Seq<u8>, position: u64)
    ensures
        first.len() == position ==> log_tail(first + second, position) == second,
        first.len() <= position ==> log_tail(first, position).len() == 0,
{
    if first.len() == position {
        assert((first + second).skip(position as int) =~= second);
        assert(second.len() == 0 ==> second =~= Seq::empty());
    }
}

/// Commits go to a store one after the other.
pub proof fn law_commits_go_one_by_one(
    store: StoreModel,
    first: Seq<(u64, EntriesModel)>,
    second: Seq<(u64, EntriesModel)>,
)
    ensures
        apply_commits(store, Seq::empty()) == store,
        apply_commits(store, first + second) == apply_commits(apply_commits(store, first), second),
        first.len() == 1 && entries_sorted(first[0].1) ==> apply_commits(store, first)
            == replay_all(store, records_of(first[0].0, first[0].1)),
    decreases first.len(),
{
    if first.len() == 0 {
        assert(first + second =~= second);
    } else {
        assert((first + second)[0] == first[0]);
        assert((first + second).skip(1) =~= first.skip(1) + second);
        law_commits_go_one_by_one(
            crate::model::store_write(store, first[0].0, map_of(first[0].1)),
            first.skip(1),
            second,
        );
        if first.len() == 1 && entries_sorted(first[0].1) {
            law_log_replays_commit(store, first[0].0, first[0].1);
            assert(first.skip(1) =~= Seq::empty());
        }
    }
}

/// Commits keep a store sorted, and below what lies above them.
proof fn lemma_commits_below(store: StoreModel, commits: Seq<(u64, EntriesModel)>, top: u64)
    requires
        store_sorted(store),
        commits_in_order(commits),
        commits.len() > 0 ==> store_below(store, commits[0].0) && commits.last().0 < top,
        commits.len() == 0 ==> store_below(store, top),
    ensures
        store_sorted(apply_commits(store, commits)),
        store_below(apply_commits(store, commits), top),
    decreases commits.len(),
{
    if commits.len() > 0 {
        let rest = commits.skip(1);
        let writes = map_of(commits[0].1);
        let next = crate::model::store_write(store, commits[0].0, writes);
        crate::inner::lemma_store_write_sorted(store, commits[0].0, writes);
        assert(commits_in_order(rest)) by {
            assert forall|i: int| 0 <= i < rest.len() implies entries_sorted(
                (#[trigger] rest[i]).1,
            ) by {
                assert(rest[i] == commits[i + 1]);
            }
            assert forall|i: int, j: int| 0 <= i < j < rest.len() implies (#[trigger] rest[i]).0 < (
            #[trigger] rest[j]).0 by {
                assert(commits[i + 1].0 < commits[j + 1].0);
            }
        }
        if rest.len() > 0 {
            assert(rest[0] == commits[1]);
            assert(commits[0].0 < commits[1].0);
            lemma_write_below(store, commits[0].0, writes, rest[0].0);
            assert(rest.last() == commits.last());
        } else {
            assert(commits.last() == commits[0]);
            lemma_write_below(store, commits[0].0, writes, top);
        }
        lemma_commits_below(next, rest, top);
    }
}

/// A snapshot may take the place of the part of the log that it covers. Where the log holds some
/// commits and then others, and the snapshot was taken between them, the log that is cut there
/// holds the others, and with the snapshot it gives a store that is read as the one is that all of
/// the commits went to: under every key and at every version.
pub proof fn law_recovery_after_a_cut(
    store: StoreModel,
    first: Seq<(u64, EntriesModel)>,
    second: Seq<(u64, EntriesModel)>,
    list: ListingModel,
    log: Seq<u8>,
    position: u64,
)
    requires
        store_sorted(store),
        commits_in_order(first + second),
        (first + second).len() > 0 ==> store_below(store, (first + second)[0].0),
        is_listing(list, apply_commits(store, first)),
        log_image(batch_records(first + second)) == Some(log),
        log_image(batch_records(first)) is Some,
        log_image(batch_records(first))->0.len() == position,
    ensures
        log_image(batch_records(second)) == Some(log_tail(log, position)),
        forall|key: Seq<u8>, t: int| #[trigger]
            store_read(
                replay_all(load_all(Map::empty(), nonempty(list)), batch_records(second)),
                key,
                t,
            ) == store_read(apply_commits(store, first + second), key, t),
{
    let all = first + second;
    lemma_batch_records_concat(first, second);
    lemma_log_image_concat(batch_records(first), batch_records(second));
    law_cut_log_keeps_the_rest(
        log_image(batch_records(first))->0,
        log_image(batch_records(second))->0,
        position,
    );
    law_commits_go_one_by_one(store, first, second);
    assert(commits_in_order(first)) by {
        assert forall|i: int| 0 <= i < first.len() implies entries_sorted(
            (#[trigger] first[i]).1,
        ) by {
            assert(all[i] == first[i]);
        }
        assert forall|i: int, j: int| 0 <= i < j < first.len() implies (#[trigger] first[i]).0 < (
        #[trigger] first[j]).0 by {
            assert(all[i].0 < all[j].0);
        }
    }
    assert(commits_in_order(second)) by {
        assert forall|i: int| 0 <= i < second.len() implies entries_sorted(
            (#[trigger] second[i]).1,
        ) by {
            assert(all[i + first.len()] == second[i]);
        }
        assert forall|i: int, j: int| 0 <= i < j < second.len() implies (#[trigger] second[i]).0 < (
        #[trigger] second[j]).0 by {
            assert(all[i + first.len()].0 < all[j + first.len()].0);
        }
    }
    if second.len() > 0 {
        assert(all[first.len() as int] == second[0]);
        if first.len() > 0 {
            assert(all[0] == first[0]);
            assert(all[first.len() - 1] == first.last());
            assert(all[first.len() - 1].0 < all[first.len() as int].0);
        }
        lemma_commits_below(store, first, second[0].0);
    } else if first.len() > 0 {
        assert(all[0] == first[0]);
        lemma_commits_sorted(store, first);
    }
    law_recovery_restores_reads(apply_commits(store, first), list, second);
}

/// Commits keep a store sorted.
proof fn lemma_commits_sorted(store: StoreModel, commits: Seq<(u64, EntriesModel)>)
    requires
        store_sorted(store),
    ensures
        store_sorted(apply_commits(store, commits)),
    decreases commits.len(),
{
    if commits.len() > 0 {
        let writes = map_of(commits[0].1);
        crate::inner::lemma_store_write_sorted(store, commits[0].0, writes);
        lemma_commits_sorted(
            crate::model::store_write(store, commits[0].0, writes),
            commits.skip(1),
        );
    }
}

/// The log is forced to disk after every append, or never, or once the time that is settled has
/// passed.
pub proof fn law_log_is_forced_as_settled(mode: FsyncMode, elapsed: nat)
    ensures
        mode is Never ==> sync_step(mode, elapsed) == SyncStep::Skip,
        mode is EveryAppend ==> sync_step(mode, elapsed) == SyncStep::Sync,
        mode matches FsyncMode::Interval(d) ==> sync_step(mode, elapsed) == (if elapsed
            < duration_nanos(d) {
            SyncStep::Skip
        } else {
            SyncStep::SyncAndReset
        }),
{
}

/// Entries of a snapshot are read one after the other: each of them gives its key a chain, written
/// version by version, in place of the one that it had. An entry without versions does nothing.
pub proof fn law_load_takes_every_entry(
    store: StoreModel,
    e: (Seq<u8>, ChainModel),
    list: ListingModel,
)
    ensures
        load_all(store, Seq::empty()) == store,
        e.1.len() > 0 ==> load_all(store, seq![e] + list) == load_all(
            store.insert(e.0, crate::chain::chain_push_all(Seq::empty(), e.1)),
            list,
        ),
        e.1.len() == 0 ==> load_all(store, seq![e] + list) == load_all(store, list),
{
    assert((seq![e] + list).skip(1) =~= list);
    assert((seq![e] + list)[0] == e);
}

/// A log to which the bytes of one more commit are appended holds the records of all commits.
pub proof fn law_log_grows_by_commits(
    commits: Seq<(u64, EntriesModel)>,
    version: u64,
    list: EntriesModel,
)
    requires
        log_image(batch_records(commits)) is Some,
        log_image(records_of(version, list)) is Some,
    ensures
        log_image(batch_records(commits.push((version, list)))) == Some(
            log_image(batch_records(commits))->0 + log_image(records_of(version, list))->0,
        ),
{
    law_batch_records_are_all_writes(commits, (version, list));
    lemma_log_image_concat(batch_records(commits), records_of(version, list));
}

/// `after` is the engine after one more commit passed, with this version and these writes.
pub open spec fn commits_to(
    s: EngineState,
    after: EngineState,
    version: u64,
    list: EntriesModel,
) -> bool {
    exists|tx: TxState, now: u64|
        s.can_commit() && s.outcome(tx) == Outcome::Applied && entries_sorted(list) && tx.writes
            == map_of(list) && after == #[trigger] s.committed(tx, keys_of(list), now) && version
            == after.timestamp
}

/// Commits that follow each other have versions that ascend, and the store after all of them is the
/// one that they went to, one by one.
proof fn lemma_run_of_commits(run: Seq<EngineState>, commits: Seq<(u64, EntriesModel)>)
    requires
        run.len() == commits.len() + 1,
        forall|i: int| 0 <= i < run.len() ==> (#[trigger] run[i]).wf(),
        forall|i: int|
            0 <= i < commits.len() ==> commits_to(
                run[i],
                run[i + 1],
                (#[trigger] commits[i]).0,
                commits[i].1,
            ),
    ensures
        commits_in_order(commits),
        forall|i: int| 0 <= i < commits.len() ==> run[0].timestamp < (#[trigger] commits[i]).0,
        commits.len() > 0 ==> commits.last().0 == run.last().timestamp,
        run.last().timestamp >= run[0].timestamp,
        apply_commits(run[0].store, commits) == run.last().store,
    decreases commits.len(),
{
    if commits.len() > 0 {
        let n = commits.len() - 1;
        let before = commits.drop_last();
        let states = run.drop_last();
        let c = commits.last();
        assert forall|i: int| 0 <= i < before.len() implies commits_to(
            states[i],
            states[i + 1],
            (#[trigger] before[i]).0,
            before[i].1,
        ) by {
            assert(before[i] == commits[i]);
        }
        assert forall|i: int| 0 <= i < states.len() implies (#[trigger] states[i]).wf() by {
            assert(run[i].wf());
        }
        lemma_run_of_commits(states, before);
        assert(states.last() == run[n]);
        assert(commits_to(run[n], run[n + 1], commits[n].0, commits[n].1));
        let s = run[n];
        let after = run[n + 1];
        let (tx, now) = choose|tx: TxState, now: u64|
            s.can_commit() && s.outcome(tx) == Outcome::Applied && entries_sorted(c.1)
                && tx.writes == map_of(c.1) && after == #[trigger] s.committed(
                tx,
                keys_of(c.1),
                now,
            ) && c.0 == after.timestamp;
        assert(c.0 > s.timestamp);
        assert(commits =~= before + seq![c]);
        law_commits_go_one_by_one(run[0].store, before, seq![c]);
        law_commits_go_one_by_one(s.store, seq![c], Seq::empty());
        law_log_replays_commit(s.store, c.0, c.1);
        assert forall|i: int| 0 <= i < commits.len() implies run[0].timestamp < (
        #[trigger] commits[i]).0 && entries_sorted(commits[i].1) by {
            if i < n {
                assert(before[i] == commits[i]);
                assert(entries_sorted(before[i].1));
            }
        }
        assert forall|i: int, j: int| 0 <= i < j < commits.len() implies (#[trigger] commits[i]).0
            < (#[trigger] commits[j]).0 by {
            assert(before[i] == commits[i]);
            if j < n {
                assert(before[j] == commits[j]);
            } else {
                assert(before.last() == before[n - 1]);
                if i < n - 1 {
                    assert(before[i].0 < before[n - 1].0);
                }
            }
        }
    }
}

/// What was committed and logged comes back. From a store of which a snapshot was taken, any run of
/// commits leads to another store; the snapshot and the log of these commits give one that is read
/// as that one is, under every key and at every version. That is where the store held no version
/// above the highest one handed out.
pub proof fn law_logged_commits_come_back(
    run: Seq<EngineState>,
    commits: Seq<(u64, EntriesModel)>,
    list: ListingModel,
)
    requires
        run.len() == commits.len() + 1,
        forall|i: int| 0 <= i < run.len() ==> (#[trigger] run[i]).wf(),
        forall|i: int|
            0 <= i < commits.len() ==> commits_to(
                run[i],
                run[i + 1],
                (#[trigger] commits[i]).0,
                commits[i].1,
            ),
        store_within(run[0]),
        is_listing(list, run[0].store),
    ensures
        forall|key: Seq<u8>, t: int| #[trigger]
            store_read(
                replay_all(load_all(Map::empty(), nonempty(list)), batch_records(commits)),
                key,
                t,
            ) == store_read(run.last().store, key, t),
{
    lemma_run_of_commits(run, commits);
    assert(run[0].wf());
    if commits.len() > 0 {
        let v = commits[0].0;
        assert(run[0].timestamp < v);
        assert forall|k: Seq<u8>| #[trigger] run[0].store.contains_key(
            k,
        ) implies chain_below(run[0].store[k], v) by {
            let c = run[0].store[k];
            assert forall|i: int| 0 <= i < c.len() implies (#[trigger] c[i]).0 < v by {
                assert(c[i].0 <= run[0].timestamp);
            }
        }
    }
    law_recovery_restores_reads(run[0].store, list, commits);
}

/// Commits in order are in order without the last one, and so are those from some point on.
proof fn lemma_parts_in_order(
    first: Seq<(u64, EntriesModel)>,
    second: Seq<(u64, EntriesModel)>,
)
    requires
        commits_in_order(first + second),
    ensures
        commits_in_order(first),
        commits_in_order(second),
        forall|i: int, j: int|
            0 <= i < first.len() && 0 <= j < second.len() ==> (#[trigger] first[i]).0 < (
            #[trigger] second[j]).0,
{
    let all = first + second;
    assert forall|i: int| 0 <= i < first.len() implies entries_sorted((#[trigger] first[i]).1) by {
        assert(all[i] == first[i]);
    }
    assert forall|i: int| 0 <= i < second.len() implies entries_sorted((#[trigger] second[i]).1) by {
        assert(all[i + first.len()] == second[i]);
    }
    assert forall|i: int, j: int| 0 <= i < j < first.len() implies (#[trigger] first[i]).0 < (
    #[trigger] first[j]).0 by {
        assert(all[i].0 < all[j].0);
    }
    assert forall|i: int, j: int| 0 <= i < j < second.len() implies (#[trigger] second[i]).0 < (
    #[trigger] second[j]).0 by {
        assert(all[i + first.len()].0 < all[j + first.len()].0);
    }
    assert forall|i: int, j: int| 0 <= i < first.len() && 0 <= j < second.len() implies (
    #[trigger] first[i]).0 < (#[trigger] second[j]).0 by {
        assert(all[i].0 < all[j + first.len()].0);
    }
}

/// What a commit wrote is read at its version, whatever was committed afterwards.
pub proof fn law_commits_are_read_at_their_version(
    store: StoreModel,
    commits: Seq<(u64, EntriesModel)>,
    i: int,
    j: int,
)
    requires
        store_sorted(store),
        commits_in_order(commits),
        0 <= i < commits.len(),
        0 <= j < commits[i].1.len(),
    ensures
        store_read(apply_commits(store, commits), commits[i].1[j].0, commits[i].0 as int)
            == commits[i].1[j].1,
    decreases commits.len(),
{
    let d = commits.drop_last();
    let last = commits.last();
    assert(commits =~= d + seq![last]);
    lemma_parts_in_order(d, seq![last]);
    law_commits_go_one_by_one(store, d, seq![last]);
    let before = apply_commits(store, d);
    let writes = map_of(last.1);
    assert(entries_sorted(seq![last][0].1));
    law_commits_go_one_by_one(before, seq![last], Seq::empty());
    law_log_replays_commit(before, last.0, last.1);
    assert(apply_commits(store, commits) == crate::model::store_write(before, last.0, writes));
    lemma_commits_sorted(store, d);
    let key = commits[i].1[j].0;
    if i == commits.len() - 1 {
        crate::writeset::lemma_map_of(last.1);
        assert(entries_sorted(seq![last][0].1));
        assert(writes.contains_key(last.1[j].0) && writes[last.1[j].0] == last.1[j].1);
        lemma_write_is_read(before, last.0, writes, key);
    } else {
        assert(d[i] == commits[i]);
        assert(d[i].0 < seq![last][0].0);
        law_commits_are_read_at_their_version(store, d, i, j);
        lemma_write_keeps_reads(before, last.0, writes, key, commits[i].0 as int);
    }
}

/// A write below `top` keeps a store below `top`.
proof fn lemma_write_stays_below(
    store: StoreModel,
    version: u64,
    writes: crate::model::WritesModel,
    top: u64,
)
    requires
        store_sorted(store),
        store_below(store, top),
        version < top,
    ensures
        store_below(crate::model::store_write(store, version, writes), top),
{
    let after = crate::model::store_write(store, version, writes);
    assert forall|k: Seq<u8>| #[trigger] after.contains_key(k) implies chain_below(
        after[k],
        top,
    ) by {
        if writes.contains_key(k) && store.contains_key(k) {
            crate::chain::law_push_adds_one_entry(store[k], version, writes[k]);
            let p = after[k];
            assert forall|i: int| 0 <= i < p.len() implies (#[trigger] p[i]).0 < top by {
                assert(p.contains(p[i]));
                if store[k].contains(p[i]) {
                    let x = choose|x: int| 0 <= x < store[k].len() && store[k][x] == p[i];
                    assert(store[k][x].0 < top);
                }
            }
        }
    }
}

/// Replaying commits over a store where they are read already changes no read.
proof fn lemma_replay_again(
    store: StoreModel,
    whole: StoreModel,
    commits: Seq<(u64, EntriesModel)>,
)
    requires
        store_sorted(store),
        reads_alike(store, whole),
        commits_in_order(commits),
        forall|i: int, j: int|
            #![trigger commits[i].1[j]]
            0 <= i < commits.len() && 0 <= j < commits[i].1.len() ==> store_read(
                whole,
                commits[i].1[j].0,
                commits[i].0 as int,
            ) == commits[i].1[j].1,
    ensures
        store_sorted(replay_all(store, batch_records(commits))),
        reads_alike(replay_all(store, batch_records(commits)), whole),
        forall|top: u64|
            store_below(store, top) && (commits.len() > 0 ==> commits.last().0 < top)
                ==> #[trigger] store_below(replay_all(store, batch_records(commits)), top),
    decreases commits.len(),
{
    if commits.len() > 0 {
        let (version, list) = commits[0];
        let rest = commits.skip(1);
        let writes = map_of(list);
        let next = replay_all(store, records_of(version, list));
        assert(commits =~= seq![commits[0]] + rest);
        lemma_parts_in_order(seq![commits[0]], rest);
        assert(entries_sorted(seq![commits[0]][0].1));
        assert forall|j: int| 0 <= j < list.len() implies store_read(
            store,
            (#[trigger] list[j]).0,
            version as int,
        ) == list[j].1 by {
            assert(commits[0].1[j] == list[j]);
            assert(store_read(store, list[j].0, version as int) == store_read(
                whole,
                list[j].0,
                version as int,
            ));
        }
        law_replaying_twice_is_harmless(store, version, list);
        law_log_replays_commit(store, version, list);
        crate::inner::lemma_store_write_sorted(store, version, writes);
        assert(reads_alike(next, whole)) by {
            assert forall|k: Seq<u8>, t: int| #[trigger] store_read(next, k, t) == store_read(
                whole,
                k,
                t,
            ) by {
                assert(store_read(next, k, t) == store_read(store, k, t));
                assert(store_read(store, k, t) == store_read(whole, k, t));
            }
        }
        assert forall|i: int, j: int|
            #![trigger rest[i].1[j]]
            0 <= i < rest.len() && 0 <= j < rest[i].1.len() implies store_read(
            whole,
            rest[i].1[j].0,
            rest[i].0 as int,
        ) == rest[i].1[j].1 by {
            assert(rest[i].1[j] == commits[i + 1].1[j]);
        }
        lemma_replay_again(next, whole, rest);
        lemma_replay_concat(store, records_of(version, list), batch_records(rest));
        assert forall|top: u64|
            store_below(store, top) && commits.last().0 < top implies #[trigger] store_below(
            replay_all(store, batch_records(commits)),
            top,
        ) by {
            if rest.len() > 0 {
                assert(rest.last() == commits.last());
                assert(seq![commits[0]][0].0 < rest[rest.len() - 1].0);
            } else {
                assert(commits.last() == commits[0]);
            }
            lemma_write_stays_below(store, version, writes, top);
            assert(store_below(replay_all(next, batch_records(rest)), top));
        }
    }
}

/// A snapshot may hold more than the log was cut for. Where commits went to the store after the
/// point at which the log is cut, and before the snapshot was taken, the log still holds them, and
/// replaying them over the snapshot does no harm: the store is read as the one is that all of the
/// commits went to, under every key and at every version.
pub proof fn law_snapshot_may_hold_more_than_the_cut(
    store: StoreModel,
    first: Seq<(u64, EntriesModel)>,
    second: Seq<(u64, EntriesModel)>,
    third: Seq<(u64, EntriesModel)>,
    list: ListingModel,
)
    requires
        store_sorted(store),
        commits_in_order((first + second) + third),
        ((first + second) + third).len() > 0 ==> store_below(
            store,
            ((first + second) + third)[0].0,
        ),
        is_listing(list, apply_commits(store, first + second)),
    ensures
        forall|key: Seq<u8>, t: int| #[trigger]
            store_read(
                replay_all(load_all(Map::empty(), nonempty(list)), batch_records(second + third)),
                key,
                t,
            ) == store_read(apply_commits(store, (first + second) + third), key, t),
{
    let early = first + second;
    let whole = apply_commits(store, early);
    let loaded = load_all(Map::empty(), nonempty(list));
    lemma_parts_in_order(early, third);
    lemma_parts_in_order(first, second);
    lemma_commits_sorted(store, early);
    law_snapshot_restores_reads(whole, list);
    assert forall|i: int, j: int|
        #![trigger second[i].1[j]]
        0 <= i < second.len() && 0 <= j < second[i].1.len() implies store_read(
        whole,
        second[i].1[j].0,
        second[i].0 as int,
    ) == second[i].1[j].1 by {
        assert(early[i + first.len()] == second[i]);
        law_commits_are_read_at_their_version(store, early, i + first.len(), j);
    }
    lemma_replay_again(loaded, whole, second);
    let again = replay_all(loaded, batch_records(second));
    lemma_batch_records_concat(second, third);
    lemma_replay_concat(loaded, batch_records(second), batch_records(third));
    law_commits_go_one_by_one(store, early, third);
    if third.len() > 0 {
        let top = third[0].0;
        if early.len() > 0 {
            assert((early + third)[0] == early[0]);
            assert(early[early.len() - 1].0 < third[0].0);
        } else {
            assert((early + third)[0] == third[0]);
        }
        lemma_commits_below(store, early, top);
        assert(store_below(loaded, top));
        if second.len() > 0 {
            assert(early[early.len() - 1] == second.last());
        }
        assert(store_below(again, top));
    }
    lemma_replay_alike(again, whole, third);
}

} // verus!
