//! Requests over HTTP: what each of them does to the database, and what is answered.

use vstd::prelude::*;
use vstd::utf8::{decode_utf8, encode_utf8, valid_utf8};

use crate::db::{Database, Transaction};
use crate::error::Error;
use crate::kv::bytes_as_slice;
use crate::laws::{lemma_up_down, store_within};
use crate::model::{EngineState, Outcome, TxState, Verdict};
use crate::options::AolMode;
use crate::text::{parse_u16, same_text, text_of_bytes, u16_of, utf8_lossy};
use crate::writeset::EntriesModel;

verus! {

/// The HTTP status of a request that another one got in the way of.
pub const STATUS_CONFLICT: u16 = 409;

/// The HTTP status of a request that failed for a reason of the server's own.
pub const STATUS_INTERNAL_ERROR: u16 = 500;

/// The port to listen on unless told otherwise.
pub const DEFAULT_PORT: u16 = 3000;

/// A key with its value, where it has one.
pub struct GetResponse {
    pub key: String,
    pub value: Option<String>,
}

/// A key, and whether it has a value.
pub struct ExistsResponse {
    pub key: String,
    pub present: bool,
}

/// A key with the value that was written to it.
pub struct WriteResponse {
    pub key: String,
    pub value: String,
}

/// A refusal: its HTTP status and what to say.
pub struct Failure {
    pub status: u16,
    pub error: String,
}

/// The status that an error is answered with.
pub open spec fn status_of(err: Error) -> u16 {
    match err {
        Error::KeyWriteConflict | Error::KeyReadConflict | Error::KeyAlreadyExists => {
            STATUS_CONFLICT
        },
        _ => STATUS_INTERNAL_ERROR,
    }
}

/// The answer to a request that failed.
pub fn map_kv_error(err: Error) -> (r: Failure)
    ensures
        r.status == status_of(err),
        err.worded(r.error@),
{
    let status: u16 = match &err {
        Error::KeyWriteConflict | Error::KeyReadConflict => STATUS_CONFLICT,
        Error::KeyAlreadyExists => STATUS_CONFLICT,
        _ => STATUS_INTERNAL_ERROR,
    };
    Failure { status, error: err.message() }
}

/// A value as text.
pub open spec fn value_text(v: Option<Seq<u8>>) -> Option<Seq<char>> {
    match v {
        Some(b) => Some(utf8_lossy(b)),
        None => None,
    }
}

/// `t` is what is answered for a value: its text, which is exact where the value is UTF-8
/// throughout.
pub open spec fn answers_value(t: Option<Seq<char>>, v: Option<Seq<u8>>) -> bool {
    &&& t == value_text(v)
    &&& v matches Some(b) ==> (valid_utf8(b) ==> t == Some(decode_utf8(b)))
}

/// What an optional text holds.
pub open spec fn text_view(t: Option<String>) -> Option<Seq<char>> {
    match t {
        Some(s) => Some(s@),
        None => None,
    }
}

/// What is visible under a key to a transaction that begins now.
pub open spec fn present_value(s: EngineState, key: Seq<char>) -> Option<Seq<u8>> {
    s.visible(encode_utf8(key), s.timestamp)
}

/// The engine after one key was written by a transaction of its own.
pub open spec fn written_alone(
    s: EngineState,
    key: Seq<char>,
    value: Option<Seq<u8>>,
    now: u64,
) -> EngineState {
    s.applied(map![encode_utf8(key) => value], seq![encode_utf8(key)], now).merged(
        s.next_version(now),
    )
}

/// The commits that wait for the log after one key was written by a transaction of its own.
pub open spec fn queued_alone(
    db: Database,
    key: Seq<char>,
    value: Option<Seq<u8>>,
    now: u64,
) -> Seq<(u64, EntriesModel)> {
    if db.log_mode() == AolMode::AsynchronousAfterCommit {
        db.log_queue().push((db@.next_version(now), seq![(encode_utf8(key), value)]))
    } else {
        db.log_queue()
    }
}

/// `after` is the database after one key was written by a transaction of its own, at a time that
/// the clock read.
pub open spec fn writes_alone(
    before: Database,
    after: Database,
    key: Seq<char>,
    value: Option<Seq<u8>>,
) -> bool {
    exists|now: u64|
        before.engine().clock().reads(now) && after@ == #[trigger] written_alone(
            before@,
            key,
            value,
            now,
        ) && after.log_queue() == queued_alone(before, key, value, now)
}

/// The database can take a request: there is room for one more transaction and one more commit,
/// and no commit waits for a log.
pub open spec fn serves(db: Database) -> bool {
    &&& db.wf()
    &&& db@.can_begin()
    &&& db@.can_commit()
    &&& db.log_mode() != AolMode::SynchronousOnCommit
}

/// Whether the database can take a request.
pub fn ready(db: &Database) -> (r: bool)
    requires
        db.wf(),
    ensures
        r == serves(*db),
{
    let waits = match db.persistence() {
        Some(p) => p.logs_synchronously(),
        None => false,
    };
    db.can_begin() && db.can_commit() && !waits
}

/// What one request writes, the next one reads, and it does not bear on other keys. That is
/// unless an older commit of the key has not left the merge queue.
pub proof fn law_request_is_seen(
    s: EngineState,
    key: Seq<char>,
    value: Option<Seq<u8>>,
    now: u64,
    other: Seq<char>,
)
    requires
        s.wf(),
        s.can_commit(),
        forall|v: u64| #[trigger]
            s.merges.contains_key(v) ==> !s.merges[v].1.contains_key(encode_utf8(key)),
    ensures
        present_value(written_alone(s, key, value, now), key) == value,
        encode_utf8(other) != encode_utf8(key) ==> present_value(
            written_alone(s, key, value, now),
            other,
        ) == s.visible(encode_utf8(other), s.next_version(now)),
        encode_utf8(other) != encode_utf8(key) && store_within(s) ==> present_value(
            written_alone(s, key, value, now),
            other,
        ) == present_value(s, other),
{
    let k = encode_utf8(key);
    let o = encode_utf8(other);
    let version = s.next_version(now);
    let after = written_alone(s, key, value, now);
    let tx = TxState {
        write: true,
        writes: map![k => value],
        commit: s.commit_id,
        ..TxState::opened(s, true)
    };
    assert(tx.writes.dom().contains(k));
    assert(s.outcome(tx) == Outcome::Applied);
    crate::laws::law_commit_is_seen(s, tx, seq![k], now, false, k);
    assert(after.merges =~= s.merges);
    if o != k && store_within(s) {
        crate::laws::law_commit_spares_other_keys(s, tx, seq![k], now, false, o);
    }
}

/// The text that one request writes is what the next one is answered, where
/// `law_request_is_seen` holds.
pub proof fn law_text_comes_back(
    s: EngineState,
    key: Seq<char>,
    value: Seq<char>,
    now: u64,
    answer: Option<Seq<char>>,
)
    requires
        s.wf(),
        s.can_commit(),
        forall|v: u64| #[trigger]
            s.merges.contains_key(v) ==> !s.merges[v].1.contains_key(encode_utf8(key)),
        answers_value(
            answer,
            present_value(written_alone(s, key, Some(encode_utf8(value)), now), key),
        ),
    ensures
        answer == Some(value),
{
    law_request_is_seen(s, key, Some(encode_utf8(value)), now, key);
    vstd::utf8::encode_utf8_valid_utf8(value);
    vstd::utf8::encode_utf8_decode_utf8(value);
}

/// A transaction that committed alone, and went back.
proof fn lemma_alone(s: EngineState, tx: TxState, keys: Seq<Seq<u8>>, now: u64)
    requires
        s.wf(),
        s.can_begin(),
        s.can_commit(),
        tx.commit == s.commit_id,
        tx.version == s.timestamp,
        !tx.done,
        tx.writes.dom() != Set::<Seq<u8>>::empty(),
    ensures
        s.begun().outcome(tx) == Outcome::Applied,
        s.begun().committed(tx, keys, now).released(tx) == s.applied(
            tx.writes,
            keys,
            now,
        ).merged(s.next_version(now)),
        s.begun().released(tx) == s,
{
    lemma_up_down(s.by_commit, s.commit_id, s.commit_id);
    lemma_up_down(s.by_oracle, s.timestamp, s.timestamp);
    assert(s.begun().verdict(tx) == Verdict::Clear);
    assert(s.begun().committed(tx, keys, now).released(tx) =~= s.applied(
        tx.writes,
        keys,
        now,
    ).merged(s.next_version(now)));
    assert(s.begun().released(tx) =~= s);
}

/// Reads a key.
pub fn get_handler(db: &mut Database, key: String) -> (r: Result<GetResponse, Failure>)
    requires
        serves(*old(db)),
    ensures
        final(db)@ == old(db)@,
        final(db).log_queue() == old(db).log_queue(),
        final(db).same_setup(*old(db)),
        r is Ok,
        r->Ok_0.key@ == key@,
        answers_value(text_view(r->Ok_0.value), present_value(old(db)@, key@)),
{
    let ghost s = db@;
    let mut tx = db.transaction(false);
    let got = tx.get(db, &key);
    proof {
        crate::laws::law_begin_release_cancel(s, false);
    }
    db.release(tx);
    match got {
        Ok(value) => Ok(
            GetResponse {
                key,
                value: match value {
                    Some(v) => Some(text_of_bytes(bytes_as_slice(&v))),
                    None => None,
                },
            },
        ),
        Err(e) => Err(map_kv_error(e)),
    }
}

/// Says whether a key has a value.
pub fn exists_handler(db: &mut Database, key: String) -> (r: Result<ExistsResponse, Failure>)
    requires
        serves(*old(db)),
    ensures
        final(db)@ == old(db)@,
        final(db).log_queue() == old(db).log_queue(),
        final(db).same_setup(*old(db)),
        r is Ok,
        r->Ok_0.key@ == key@,
        r->Ok_0.present == (present_value(old(db)@, key@) is Some),
{
    let ghost s = db@;
    let mut tx = db.transaction(false);
    let got = tx.contains(db, &key);
    proof {
        crate::laws::law_begin_release_cancel(s, false);
    }
    db.release(tx);
    match got {
        Ok(present) => Ok(ExistsResponse { key, present }),
        Err(e) => Err(map_kv_error(e)),
    }
}

/// Commits a transaction that began now and wrote one key, and hands it back.
fn commit_alone(db: &mut Database, tx: Transaction, Ghost(s): Ghost<EngineState>) -> (r: Result<
    (),
    Error,
>)
    requires
        tx.wf(),
        old(db).wf(),
        s.wf(),
        s.can_begin(),
        s.can_commit(),
        old(db)@ == s.begun(),
        old(db).log_mode() != AolMode::SynchronousOnCommit,
        old(db)@.registered(tx@),
        tx@.commit == s.commit_id,
        tx@.version == s.timestamp,
        !tx@.done,
        tx@.writes.dom() != Set::<Seq<u8>>::empty(),
    ensures
        r is Ok,
        final(db).wf(),
        final(db).same_setup(*old(db)),
        exists|now: u64|
            old(db).engine().clock().reads(now) && final(db)@ == (#[trigger] s.applied(
                tx@.writes,
                crate::inner::keys_of(tx.write_list()),
                now,
            )).merged(s.next_version(now)) && final(db).log_queue() == old(db).log_queue_after(
                tx@,
                tx.write_list(),
                now,
            ),
        old(db)@.outcome(tx@) == Outcome::Applied,
{
    let mut tx = tx;
    let ghost before = tx;
    let ghost keys = crate::inner::keys_of(tx.write_list());
    let now: u64 = db.current_time_ns();
    proof {
        lemma_alone(s, tx@, keys, now);
    }
    let r = tx.commit_at(db, now);
    db.release(tx);
    proof {
        assert(s.begun().committed(before@, keys, now).released(tx@) == s.begun().committed(
            before@,
            keys,
            now,
        ).released(before@));
        assert(db@ == s.applied(before@.writes, keys, now).merged(s.next_version(now)));
    }
    r
}

/// Writes a key that has no value.
pub fn insert_handler(db: &mut Database, key: String, value: String) -> (r: Result<
    WriteResponse,
    Failure,
>)
    requires
        serves(*old(db)),
    ensures
        final(db).wf(),
        final(db).same_setup(*old(db)),
        match present_value(old(db)@, key@) {
            Some(_) => {
                &&& r matches Err(f)
                &&& f.status == STATUS_CONFLICT
                &&& Error::KeyAlreadyExists.worded(f.error@)
                &&& final(db)@ == old(db)@
                &&& final(db).log_queue() == old(db).log_queue()
            },
            None => {
                &&& r matches Ok(w)
                &&& w.key@ == key@
                &&& w.value@ == value@
                &&& writes_alone(*old(db), *final(db), key@, Some(encode_utf8(value@)))
            },
        },
{
    let ghost s = db@;
    let ghost clock = db.engine().clock();
    let mut tx = db.transaction(true);
    let ghost begun = *db;
    let put = tx.put(db, &key, &value);
    match put {
        Err(e) => {
            proof {
                crate::laws::law_begin_release_cancel(s, true);
            }
            db.release(tx);
            Err(map_kv_error(e))
        },
        Ok(_) => {
            proof {
                tx.lemma_write_list();
                lemma_single(tx@.writes, tx.write_list(), encode_utf8(key@), Some(
                    encode_utf8(value@),
                ));
            }
            match commit_alone(db, tx, Ghost(s)) {
                Ok(_) => {
                    proof {
                        let now = choose|now: u64|
                            clock.reads(now) && db@ == (#[trigger] s.applied(
                                tx@.writes,
                                crate::inner::keys_of(tx.write_list()),
                                now,
                            )).merged(s.next_version(now)) && db.log_queue()
                                == begun.log_queue_after(tx@, tx.write_list(), now);
                        assert(db@ == written_alone(s, key@, Some(encode_utf8(value@)), now));
                    }
                    Ok(WriteResponse { key, value })
                },
                Err(e) => Err(map_kv_error(e)),
            }
        },
    }
}

/// Writes a key, whether it has a value or not.
pub fn update_handler(db: &mut Database, key: String, value: String) -> (r: Result<
    WriteResponse,
    Failure,
>)
    requires
        serves(*old(db)),
    ensures
        final(db).wf(),
        final(db).same_setup(*old(db)),
        r is Ok,
        r->Ok_0.key@ == key@,
        r->Ok_0.value@ == value@,
        writes_alone(*old(db), *final(db), key@, Some(encode_utf8(value@))),
{
    let ghost s = db@;
    let ghost clock = db.engine().clock();
    let mut tx = db.transaction(true);
    let ghost begun = *db;
    match tx.set(&key, &value) {
        Err(e) => {
            db.release(tx);
            Err(map_kv_error(e))
        },
        Ok(_) => {
            proof {
                tx.lemma_write_list();
                lemma_single(tx@.writes, tx.write_list(), encode_utf8(key@), Some(
                    encode_utf8(value@),
                ));
            }
            match commit_alone(db, tx, Ghost(s)) {
                Ok(_) => {
                    proof {
                        let now = choose|now: u64|
                            clock.reads(now) && db@ == (#[trigger] s.applied(
                                tx@.writes,
                                crate::inner::keys_of(tx.write_list()),
                                now,
                            )).merged(s.next_version(now)) && db.log_queue()
                                == begun.log_queue_after(tx@, tx.write_list(), now);
                        assert(db@ == written_alone(s, key@, Some(encode_utf8(value@)), now));
                    }
                    Ok(WriteResponse { key, value })
                },
                Err(e) => Err(map_kv_error(e)),
            }
        },
    }
}

/// Deletes a key, and answers with the value that it had.
pub fn delete_handler(db: &mut Database, key: String) -> (r: Result<GetResponse, Failure>)
    requires
        serves(*old(db)),
    ensures
        final(db).wf(),
        final(db).same_setup(*old(db)),
        r is Ok,
        r->Ok_0.key@ == key@,
        answers_value(text_view(r->Ok_0.value), present_value(old(db)@, key@)),
        writes_alone(*old(db), *final(db), key@, None),
{
    let ghost s = db@;
    let ghost clock = db.engine().clock();
    let mut tx = db.transaction(true);
    let ghost begun = *db;
    let got = match tx.get(db, &key) {
        Ok(v) => v,
        Err(e) => {
            db.release(tx);
            return Err(map_kv_error(e));
        },
    };
    let value = match got {
        Some(v) => Some(text_of_bytes(bytes_as_slice(&v))),
        None => None,
    };
    match tx.del(&key) {
        Err(e) => {
            db.release(tx);
            Err(map_kv_error(e))
        },
        Ok(_) => {
            proof {
                tx.lemma_write_list();
                lemma_single(tx@.writes, tx.write_list(), encode_utf8(key@), None);
            }
            match commit_alone(db, tx, Ghost(s)) {
                Ok(_) => {
                    proof {
                        let now = choose|now: u64|
                            clock.reads(now) && db@ == (#[trigger] s.applied(
                                tx@.writes,
                                crate::inner::keys_of(tx.write_list()),
                                now,
                            )).merged(s.next_version(now)) && db.log_queue()
                                == begun.log_queue_after(tx@, tx.write_list(), now);
                        assert(db@ == written_alone(s, key@, None, now));
                    }
                    Ok(GetResponse { key, value })
                },
                Err(e) => Err(map_kv_error(e)),
            }
        },
    }
}

/// One write makes a list of one.
proof fn lemma_single(
    writes: crate::model::WritesModel,
    list: crate::writeset::EntriesModel,
    key: Seq<u8>,
    value: Option<Seq<u8>>,
)
    requires
        crate::writeset::entries_sorted(list),
        writes == crate::writeset::map_of(list),
        writes == Map::<Seq<u8>, Option<Seq<u8>>>::empty().insert(key, value),
    ensures
        list == seq![(key, value)],
        crate::inner::keys_of(list) == seq![key],
        writes == map![key => value],
        writes.dom() != Set::<Seq<u8>>::empty(),
{
    crate::writeset::lemma_map_of(list);
    crate::writeset::lemma_map_of_len(list);
    assert(writes.dom() =~= Set::empty().insert(key));
    assert(writes.dom().len() == 1);
    assert(writes.contains_key(list[0].0));
    assert(list[0].0 == key);
    assert(writes[list[0].0] == list[0].1);
    assert(list =~= seq![(key, value)]);
    assert(crate::inner::keys_of(list) =~= seq![key]);
    assert(writes =~= map![key => value]);
    assert(writes.dom().contains(key));
}

/// What the server is to do when it starts.
pub enum Startup {
    /// Say how it is used.
    Help,
    /// Listen on this port.
    Listen(u16),
}

/// What the arguments from number `i` on ask for: the first of `--help` and a `--port` with a
/// number behind it. `None` where there is neither.
pub open spec fn asked_for(args: Seq<String>, i: int) -> Option<Startup>
    decreases args.len() - i,
{
    if i >= args.len() {
        None
    } else if args[i]@ == "--port"@ && i + 1 < args.len() && u16_of(
        encode_utf8(args[i + 1]@),
    ) is Some {
        Some(Startup::Listen(u16_of(encode_utf8(args[i + 1]@))->0))
    } else if args[i]@ == "--help"@ {
        Some(Startup::Help)
    } else {
        asked_for(args, i + 1)
    }
}

/// What the server is to do when it starts, with these arguments, the first of which is the name
/// of the program, and this setting of the environment.
pub fn parse_port(args: &Vec<String>, setting: Option<String>) -> (r: Startup)
    ensures
        r == (match asked_for(args@, 1) {
            Some(s) => s,
            None => match text_view(setting) {
                Some(t) => match u16_of(encode_utf8(t)) {
                    Some(port) => Startup::Listen(port),
                    None => Startup::Listen(DEFAULT_PORT),
                },
                None => Startup::Listen(DEFAULT_PORT),
            },
        }),
{
    proof {
        reveal_strlit("--port");
        reveal_strlit("--help");
        assert("--port"@[2] != "--help"@[2]);
    }
    let mut i: usize = 1;
    while i < args.len()
        invariant
            "--port"@ != "--help"@,
            1 <= i,
            i <= args@.len() || i == 1,
            asked_for(args@, 1) == asked_for(args@, i as int),
        decreases args@.len() - i,
    {
        let arg = args[i].as_str();
        if same_text(arg, "--port") {
            if i + 1 < args.len() {
                if let Some(port) = parse_u16(args[i + 1].as_str()) {
                    return Startup::Listen(port);
                }
            }
        } else if same_text(arg, "--help") {
            return Startup::Help;
        }
        i += 1;
    }
    match setting {
        Some(t) => match parse_u16(t.as_str()) {
            Some(port) => Startup::Listen(port),
            None => Startup::Listen(DEFAULT_PORT),
        },
        None => Startup::Listen(DEFAULT_PORT),
    }
}

/// A request that another one got in the way of is answered as a conflict, and any other failure as
/// one of the server's own.
pub proof fn law_statuses(err: Error)
    ensures
        err is KeyWriteConflict || err is KeyReadConflict || err is KeyAlreadyExists ==> status_of(
            err,
        ) == 409,
        err is TxClosed || err is TxNotWritable || err is TxCommitNotPersisted ==> status_of(err)
            == 500,
{
}

/// What one request writes goes to a log that is written later, once, with its version.
pub proof fn law_request_is_logged_later(
    before: Database,
    after: Database,
    key: Seq<char>,
    value: Option<Seq<u8>>,
)
    requires
        writes_alone(before, after, key, value),
    ensures
        before.log_mode() == AolMode::AsynchronousAfterCommit ==> {
            &&& after.log_queue().len() == before.log_queue().len() + 1
            &&& after.log_queue().drop_last() == before.log_queue()
            &&& after.log_queue().last() == (
                after@.timestamp,
                seq![(encode_utf8(key), value)],
            )
        },
        before.log_mode() != AolMode::AsynchronousAfterCommit ==> after.log_queue()
            == before.log_queue(),
        exists|now: u64| #[trigger]
            before.engine().clock().reads(now) && after@ == written_alone(before@, key, value, now),
{
    let now = choose|now: u64|
        before.engine().clock().reads(now) && after@ == #[trigger] written_alone(
            before@,
            key,
            value,
            now,
        ) && after.log_queue() == queued_alone(before, key, value, now);
    assert(before.engine().clock().reads(now));
    if before.log_mode() == AolMode::AsynchronousAfterCommit {
        assert(after.log_queue().drop_last() =~= before.log_queue());
    }
}

/// A database serves requests as long as it has room for a transaction and a commit, and no commit
/// has to wait for the log.
pub proof fn law_serving(db: Database)
    ensures
        serves(db) <==> db.wf() && db@.can_begin() && db@.can_commit() && db.log_mode()
            != AolMode::SynchronousOnCommit,
{
}

/// The first argument that asks for something decides: help, or a port where a number follows.
/// Arguments that ask for nothing are passed over.
pub proof fn law_first_argument_decides(args: Seq<String>, i: int)
    requires
        0 <= i < args.len(),
    ensures
        args[i]@ == "--port"@ && i + 1 < args.len() && u16_of(encode_utf8(args[i + 1]@)) is Some
            ==> asked_for(args, i) == Some(
            Startup::Listen(u16_of(encode_utf8(args[i + 1]@))->0),
        ),
        args[i]@ == "--help"@ ==> asked_for(args, i) == Some(Startup::Help),
        args[i]@ != "--help"@ && args[i]@ != "--port"@ ==> asked_for(args, i) == asked_for(
            args,
            i + 1,
        ),
        args[i]@ == "--port"@ && !(i + 1 < args.len() && u16_of(encode_utf8(args[i + 1]@)) is Some)
            ==> asked_for(args, i) == asked_for(args, i + 1),
        asked_for(args, args.len() as int) is None,
{
    reveal_strlit("--port");
    reveal_strlit("--help");
    assert("--port"@[2] != "--help"@[2]);
}

/// A request reads its own key as a transaction does that begins now, and what it writes is the
/// commit of that one key.
pub proof fn law_request_is_a_transaction(
    s: EngineState,
    key: Seq<char>,
    value: Option<Seq<u8>>,
    now: u64,
)
    requires
        s.wf(),
        s.can_commit(),
    ensures
        present_value(s, key) == s.read(TxState::opened(s, false), encode_utf8(key)),
        ({
            let tx = TxState::opened(s, true).wrote(encode_utf8(key), value);
            &&& s.outcome(tx) == Outcome::Applied
            &&& written_alone(s, key, value, now) == s.committed(tx, seq![encode_utf8(key)], now)
        }),
{
    let k = encode_utf8(key);
    let tx = TxState::opened(s, true).wrote(k, value);
    assert(tx.writes.dom().contains(k));
    assert(s.verdict(tx) == Verdict::Clear);
    assert(tx.writes =~= map![k => value]);
}

/// A value is answered as text, with replacement marks where it is no UTF-8; a key without a value
/// is answered with none.
pub proof fn law_values_are_answered(t: Option<Seq<char>>, b: Seq<u8>, s: String)
    ensures
        answers_value(t, Some(b)) ==> t == Some(utf8_lossy(b)) && (valid_utf8(b) ==> t == Some(
            decode_utf8(b),
        )),
        answers_value(t, None) <==> t is None,
        text_view(Some(s)) == Some(s@),
        text_view(None) is None,
{
}

} // verus!
