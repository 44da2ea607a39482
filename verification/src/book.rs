use vstd::prelude::*;
use vstd::string::StringExecFns;

use crate::clock::{
    add_seconds, addable, can_add_seconds, now_utc, plus_seconds, timestamp_from_unix, Timestamp,
    MAX_UNIX_SECS, MIN_UNIX_SECS,
};
use crate::text::{decimal, decimal_u128, str_eq, string_of};

verus! {

broadcast use vstd::string::group_string_axioms;

/// The fields of an envelope's `normalized` object that the engine reads,
/// each as the JSON value gives it: a string field only when the value is
/// a JSON string, an integer field only when it is a JSON integer that fits
/// in an `i64`. `entry_count` is the number of keys the object has.
#[derive(Debug)]
pub struct Normalized {
    pub entry_count: usize,
    pub deadline_unix: Option<i64>,
    pub sell_token: Option<String>,
    pub buy_token: Option<String>,
    pub sell_amount: Option<String>,
    pub min_buy_amount: Option<String>,
    pub sell_amount_start: Option<String>,
    pub sell_amount_end: Option<String>,
    pub buy_amount_start: Option<String>,
    pub buy_amount_end: Option<String>,
    pub decay_start_unix: Option<i64>,
    pub decay_end_unix: Option<i64>,
    pub exclusive_filler: Option<String>,
    pub exclusive_until_unix: Option<i64>,
    pub order_type: Option<String>,
}

/// A `normalized` object with no keys.
pub open spec fn empty_normalized() -> Normalized {
    Normalized {
        entry_count: 0,
        deadline_unix: None,
        sell_token: None,
        buy_token: None,
        sell_amount: None,
        min_buy_amount: None,
        sell_amount_start: None,
        sell_amount_end: None,
        buy_amount_start: None,
        buy_amount_end: None,
        decay_start_unix: None,
        decay_end_unix: None,
        exclusive_filler: None,
        exclusive_until_unix: None,
        order_type: None,
    }
}

impl Normalized {
    /// A `normalized` object with no keys.
    pub fn empty() -> (res: Normalized)
        ensures
            res == empty_normalized(),
    {
        Normalized {
            entry_count: 0,
            deadline_unix: None,
            sell_token: None,
            buy_token: None,
            sell_amount: None,
            min_buy_amount: None,
            sell_amount_start: None,
            sell_amount_end: None,
            buy_amount_start: None,
            buy_amount_end: None,
            decay_start_unix: None,
            decay_end_unix: None,
            exclusive_filler: None,
            exclusive_until_unix: None,
            order_type: None,
        }
    }
}

/// An incoming envelope, as far as the engine reads it. `raw_json_len` is
/// the length of the compact JSON text of the envelope's `raw` value.
#[derive(Debug)]
pub struct Envelope {
    pub source: String,
    pub network: Option<String>,
    pub id: Option<String>,
    pub normalized: Option<Normalized>,
    pub raw_json_len: usize,
}

/// An intent that the engine tracks.
#[derive(Debug)]
pub struct TrackedIntent {
    pub key: String,
    pub id: String,
    pub source: String,
    pub network: Option<String>,
    pub first_seen: Timestamp,
    pub last_seen: Timestamp,
    pub expires_at: Timestamp,
    pub normalized: Normalized,
}

/// The envelope's id, empty when it has none.
pub open spec fn envelope_id(env: Envelope) -> Seq<char> {
    match env.id {
        Some(id) => id@,
        None => Seq::empty(),
    }
}

/// What tells an envelope's intent apart within its source: its id, or,
/// when the id is empty, `raw:` and the length of its raw JSON text.
pub open spec fn fingerprint(env: Envelope) -> Seq<char> {
    if envelope_id(env).len() > 0 {
        envelope_id(env)
    } else {
        "raw:"@ + decimal(env.raw_json_len as nat)
    }
}

/// The key under which the book tracks an envelope's intent:
/// `source:fingerprint`.
pub open spec fn intent_key(env: Envelope) -> Seq<char> {
    env.source@ + seq![':'] + fingerprint(env)
}

/// The envelope's `normalized` object; a missing one counts as empty.
pub open spec fn envelope_normalized(env: Envelope) -> Normalized {
    match env.normalized {
        Some(n) => n,
        None => empty_normalized(),
    }
}

/// The deadline an intent states: its `deadline_unix` as an instant, when
/// it has one that chrono can hold.
pub open spec fn deadline_of(n: Normalized) -> Option<Timestamp> {
    match n.deadline_unix {
        Some(d) => if MIN_UNIX_SECS <= d <= MAX_UNIX_SECS {
            Some(Timestamp { secs: d, nanos: 0 })
        } else {
            None
        },
        None => None,
    }
}

/// When an intent seen at `now` expires: at its stated deadline, or
/// `default_ttl_seconds` after `now`.
pub open spec fn expiry(n: Normalized, default_ttl_seconds: int, now: Timestamp) -> Timestamp {
    match deadline_of(n) {
        Some(t) => t,
        None => plus_seconds(now, default_ttl_seconds),
    }
}

/// Whether the expiry can be computed without chrono panicking.
pub open spec fn expiry_defined(n: Normalized, default_ttl_seconds: int, now: Timestamp) -> bool {
    deadline_of(n) is Some || can_add_seconds(now, default_ttl_seconds)
}

/// The instant of the `deadline_unix` field, when chrono can hold it.
pub fn deadline_from_normalized(n: &Normalized) -> (res: Option<Timestamp>)
    ensures
        res == deadline_of(*n),
{
    match n.deadline_unix {
        Some(d) => timestamp_from_unix(d),
        None => None,
    }
}

/// Every key occurs once, and every instant is valid.
pub open spec fn book_wf(s: Seq<TrackedIntent>) -> bool {
    &&& forall|i: int, j: int|
        0 <= i < s.len() && 0 <= j < s.len() && i != j ==> #[trigger] s[i].key@
            != #[trigger] s[j].key@
    &&& forall|i: int|
        0 <= i < s.len() ==> (#[trigger] s[i]).first_seen.valid() && s[i].last_seen.valid()
            && s[i].expires_at.valid()
}

/// The book of tracked intents, in the order they were first seen.
#[derive(Debug)]
pub struct IntentBook {
    pub intents: Vec<TrackedIntent>,
}

impl IntentBook {
    pub open spec fn entries(&self) -> Seq<TrackedIntent> {
        self.intents@
    }

    pub open spec fn wf(&self) -> bool {
        book_wf(self.intents@)
    }

    /// An empty book.
    pub fn new() -> (res: IntentBook)
        ensures
            res.wf(),
            res.entries().len() == 0,
    {
        IntentBook { intents: Vec::new() }
    }
}

/// Whether some tracked intent has key `k`.
pub open spec fn has_key(s: Seq<TrackedIntent>, k: Seq<char>) -> bool {
    exists|i: int| 0 <= i < s.len() && #[trigger] s[i].key@ == k
}

/// The position of the intent with key `k`.
pub open spec fn key_index(s: Seq<TrackedIntent>, k: Seq<char>) -> int {
    choose|i: int| 0 <= i < s.len() && #[trigger] s[i].key@ == k
}

/// The keys that the intents of `s` are held under.
pub open spec fn key_set(s: Seq<TrackedIntent>) -> Set<Seq<char>> {
    Set::new(|k: Seq<char>| has_key(s, k))
}

/// A tracked intent seen again at `now`: last seen then, expiring at `exp`,
/// its normalized fields replaced by `n` unless `n` is empty.
pub open spec fn refreshed(t: TrackedIntent, now: Timestamp, exp: Timestamp, n: Normalized) -> TrackedIntent {
    TrackedIntent {
        key: t.key,
        id: t.id,
        source: t.source,
        network: t.network,
        first_seen: t.first_seen,
        last_seen: now,
        expires_at: exp,
        normalized: if n.entry_count > 0 {
            n
        } else {
            t.normalized
        },
    }
}

/// `t` is the intent that a first sighting of `env` at `now` starts to
/// track.
pub open spec fn fresh_intent(t: TrackedIntent, env: Envelope, now: Timestamp, exp: Timestamp) -> bool {
    &&& t.key@ == intent_key(env)
    &&& t.id@ == envelope_id(env)
    &&& t.source == env.source
    &&& t.network == env.network
    &&& t.first_seen == now
    &&& t.last_seen == now
    &&& t.expires_at == exp
    &&& t.normalized == envelope_normalized(env)
}

/// `new` is `old` after `env` was seen at `now`: the intent under the
/// envelope's key is refreshed in place when there is one, else a fresh
/// intent is appended.
pub open spec fn upserted(
    old: Seq<TrackedIntent>,
    new: Seq<TrackedIntent>,
    env: Envelope,
    default_ttl_seconds: int,
    now: Timestamp,
) -> bool {
    let k = intent_key(env);
    let n = envelope_normalized(env);
    let exp = expiry(n, default_ttl_seconds, now);
    if has_key(old, k) {
        let i = key_index(old, k);
        new == old.update(i, refreshed(old[i], now, exp, n))
    } else {
        &&& new.len() == old.len() + 1
        &&& new.take(old.len() as int) == old
        &&& fresh_intent(new.last(), env, now, exp)
    }
}

fn key_for(source: &String, id: &String, raw_json_len: usize) -> (res: String)
    ensures
        res@ == source@ + seq![':'] + (if id@.len() > 0 {
            id@
        } else {
            "raw:"@ + decimal(raw_json_len as nat)
        }),
{
    let mut key = source.clone();
    key.append(":");
    if id.as_str().is_empty() {
        key.append("raw:");
        let digits = decimal_u128(raw_json_len as u128);
        let d = string_of(&digits);
        key.append(d.as_str());
    } else {
        key.append(id.as_str());
    }
    proof {
        reveal_strlit(":");
    }
    key
}

/// Records that `env` was seen at `now`: refreshes the intent it names,
/// or starts tracking it.
#[verifier::loop_isolation(false)]
pub fn upsert_intent_at(book: &mut IntentBook, env: Envelope, default_ttl_seconds: i64, now: Timestamp)
    requires
        old(book).wf(),
        now.valid(),
        expiry_defined(envelope_normalized(env), default_ttl_seconds as int, now),
    ensures
        final(book).wf(),
        upserted(old(book).entries(), final(book).entries(), env, default_ttl_seconds as int, now),
{
    let ghost env0 = env;
    let Envelope { source, network, id, normalized, raw_json_len } = env;
    let norm = match normalized {
        Some(n) => n,
        None => Normalized::empty(),
    };
    let id = match id {
        Some(s) => s,
        None => String::new(),
    };
    let key = key_for(&source, &id, raw_json_len);
    assert(key@ == intent_key(env0));
    let exp = match deadline_from_normalized(&norm) {
        Some(t) => t,
        None => add_seconds(now, default_ttl_seconds),
    };
    let ghost old_entries = book.intents@;
    let n = book.intents.len();
    let mut i: usize = 0;
    while i < n
        invariant
            n == book.intents@.len(),
            book.intents@ == old_entries,
            book_wf(old_entries),
            i <= n,
            forall|j: int| 0 <= j < i ==> (#[trigger] old_entries[j]).key@ != key@,
        decreases n - i,
    {
        if str_eq(book.intents[i].key.as_str(), key.as_str()) {
            let ghost k = key_index(old_entries, key@);
            assert(old_entries[i as int].key@ == key@);
            assert(k == i);
            let keep = norm.entry_count == 0;
            book.intents[i].last_seen = now;
            book.intents[i].expires_at = exp;
            if !keep {
                book.intents[i].normalized = norm;
            }
            assert(book.intents@ =~= old_entries.update(
                i as int,
                refreshed(old_entries[i as int], now, exp, envelope_normalized(env0)),
            ));
            return;
        }
        i += 1;
    }
    assert(!has_key(old_entries, key@));
    let t = TrackedIntent {
        key,
        id,
        source,
        network,
        first_seen: now,
        last_seen: now,
        expires_at: exp,
        normalized: norm,
    };
    book.intents.push(t);
    assert(book.intents@.take(n as int) =~= old_entries);
}

/// Records that `env` was seen at `now` when its expiry can be computed:
/// returns `false`, leaving the book as it was, exactly when the envelope
/// states no deadline and the default lifetime cannot be added to `now`.
pub fn upsert_intent_checked(
    book: &mut IntentBook,
    env: Envelope,
    default_ttl_seconds: i64,
    now: Timestamp,
) -> (res: bool)
    requires
        old(book).wf(),
        now.valid(),
    ensures
        final(book).wf(),
        res == expiry_defined(envelope_normalized(env), default_ttl_seconds as int, now),
        res ==> upserted(
            old(book).entries(),
            final(book).entries(),
            env,
            default_ttl_seconds as int,
            now,
        ),
        !res ==> final(book).entries() == old(book).entries(),
{
    let defined = match &env.normalized {
        Some(n) => deadline_from_normalized(n).is_some(),
        None => false,
    } || addable(now, default_ttl_seconds);
    if !defined {
        return false;
    }
    upsert_intent_at(book, env, default_ttl_seconds, now);
    true
}

/// Records that `env` was seen now, reading the system clock, and hands the
/// reading to `upsert_intent_checked`. Returns `false`, leaving the book as
/// it was, exactly when the envelope states no deadline and the default
/// lifetime cannot be added to the clock's time (so never when it states
/// one); otherwise the book is as `upsert_intent_at` leaves it for some
/// valid, non-negative instant.
pub fn upsert_intent(book: &mut IntentBook, env: Envelope, default_ttl_seconds: i64) -> (res: bool)
    requires
        old(book).wf(),
    ensures
        final(book).wf(),
        res ==> exists|now: Timestamp|
            now.valid() && now.secs >= 0 && expiry_defined(
                envelope_normalized(env),
                default_ttl_seconds as int,
                now,
            ) && #[trigger] upserted(
                old(book).entries(),
                final(book).entries(),
                env,
                default_ttl_seconds as int,
                now,
            ),
        !res ==> final(book).entries() == old(book).entries() && exists|now: Timestamp|
            now.valid() && now.secs >= 0 && !#[trigger] expiry_defined(
                envelope_normalized(env),
                default_ttl_seconds as int,
                now,
            ),
        deadline_of(envelope_normalized(env)) is Some ==> res,
{
    let now = now_utc();
    let ghost e = env;
    let res = upsert_intent_checked(book, env, default_ttl_seconds, now);
    proof {
        if res {
            assert(upserted(old(book).entries(), book.entries(), e, default_ttl_seconds as int, now));
        } else {
            assert(!expiry_defined(envelope_normalized(e), default_ttl_seconds as int, now));
        }
    }
    res
}

/// The intents of `s` that expire after `now`, in order.
pub open spec fn unexpired(s: Seq<TrackedIntent>, now: Timestamp) -> Seq<TrackedIntent> {
    s.filter(|t: TrackedIntent| now.before(t.expires_at))
}

proof fn lemma_filter_take_succ<A>(s: Seq<A>, f: spec_fn(A) -> bool, j: int)
    requires
        0 <= j < s.len(),
    ensures
        s.take(j + 1).filter(f) == (if f(s[j]) {
            s.take(j).filter(f).push(s[j])
        } else {
            s.take(j).filter(f)
        }),
{
    reveal(Seq::filter);
    assert(s.take(j + 1).drop_last() =~= s.take(j));
}

/// Drops the intents that have expired by `now`, keeping the order of the
/// others.
pub fn purge_expired_at(book: &mut IntentBook, now: Timestamp)
    requires
        old(book).wf(),
    ensures
        final(book).wf(),
        final(book).entries() == unexpired(old(book).entries(), now),
{
    let ghost orig = book.intents@;
    let mut rest: Vec<TrackedIntent> = Vec::new();
    std::mem::swap(&mut rest, &mut book.intents);
    let n = rest.len();
    let mut j: usize = 0;
    while j < n
        invariant
            n == orig.len(),
            j <= n,
            rest@ == orig.skip(j as int),
            book.intents@ == unexpired(orig.take(j as int), now),
            book_wf(orig),
            book_wf(book.intents@),
            forall|i: int|
                0 <= i < book.intents@.len() ==> exists|k: int|
                    0 <= k < j && #[trigger] book.intents@[i] == #[trigger] orig[k],
        decreases n - j,
    {
        let t = rest.remove(0);
        proof {
            lemma_filter_take_succ(orig, |t: TrackedIntent| now.before(t.expires_at), j as int);
            assert(orig.skip(j as int)[0] == orig[j as int]);
            assert(orig.skip(j as int).remove(0) =~= orig.skip(j + 1));
        }
        if now.is_before(&t.expires_at) {
            let ghost before = book.intents@;
            book.intents.push(t);
            proof {
                assert forall|i: int|
                    0 <= i < book.intents@.len() implies exists|k: int|
                    0 <= k < j + 1 && #[trigger] book.intents@[i] == #[trigger] orig[k] by {
                    if i < before.len() {
                        assert(book.intents@[i] == before[i]);
                    } else {
                        assert(book.intents@[i] == orig[j as int]);
                    }
                }
                assert forall|a: int, b: int|
                    0 <= a < book.intents@.len() && 0 <= b < book.intents@.len() && a != b implies
                    #[trigger] book.intents@[a].key@ != #[trigger] book.intents@[b].key@ by {
                    if a < before.len() && b < before.len() {
                        assert(book.intents@[a] == before[a]);
                        assert(book.intents@[b] == before[b]);
                    } else if a < before.len() {
                        assert(book.intents@[a] == before[a]);
                        let k = choose|k: int| 0 <= k < j && #[trigger] before[a] == #[trigger] orig[k];
                        assert(orig[k].key@ != orig[j as int].key@);
                    } else {
                        assert(book.intents@[b] == before[b]);
                        let k = choose|k: int| 0 <= k < j && #[trigger] before[b] == #[trigger] orig[k];
                        assert(orig[k].key@ != orig[j as int].key@);
                    }
                }
                assert forall|i: int| 0 <= i < book.intents@.len() implies (#[trigger] book.intents@[i]).first_seen.valid()
                    && book.intents@[i].last_seen.valid() && book.intents@[i].expires_at.valid() by {
                    if i < before.len() {
                        assert(book.intents@[i] == before[i]);
                    }
                }
            }
        } else {
            proof {
                assert forall|i: int|
                    0 <= i < book.intents@.len() implies exists|k: int|
                    0 <= k < j + 1 && #[trigger] book.intents@[i] == #[trigger] orig[k] by {
                    let k = choose|k: int| 0 <= k < j && #[trigger] book.intents@[i] == #[trigger] orig[k];
                }
            }
        }
        j += 1;
    }
    assert(orig.take(n as int) =~= orig);
}

/// Drops the intents that have expired by the system clock's time.
pub fn purge_expired(book: &mut IntentBook)
    requires
        old(book).wf(),
    ensures
        final(book).wf(),
        exists|now: Timestamp|
            now.valid() && now.secs >= 0 && final(book).entries() == #[trigger] unexpired(
                old(book).entries(),
                now,
            ),
{
    let now = now_utc();
    purge_expired_at(book, now);
}

/// After `env` is seen at `now`, the book holds an intent under the
/// envelope's key, last seen at `now` and expiring at the envelope's
/// expiry; its keys are the old keys and that one; intents under other keys
/// are left as they were.
pub proof fn lemma_upsert_then_lookup(
    old: Seq<TrackedIntent>,
    new: Seq<TrackedIntent>,
    env: Envelope,
    default_ttl_seconds: int,
    now: Timestamp,
)
    requires
        book_wf(old),
        book_wf(new),
        upserted(old, new, env, default_ttl_seconds, now),
    ensures
        has_key(new, intent_key(env)),
        new[key_index(new, intent_key(env))].last_seen == now,
        new[key_index(new, intent_key(env))].expires_at == expiry(
            envelope_normalized(env),
            default_ttl_seconds,
            now,
        ),
        forall|i: int|
            0 <= i < old.len() && (#[trigger] old[i]).key@ != intent_key(env) ==> new[i] == old[i],
        new.len() == old.len() || new.len() == old.len() + 1,
        key_set(new) == key_set(old).insert(intent_key(env)),
{
    let k = intent_key(env);
    assert forall|q: Seq<char>| key_set(new).contains(q) <==> key_set(old).insert(k).contains(q) by {
        if has_key(old, k) {
            let i = key_index(old, k);
            if has_key(new, q) {
                let j = choose|j: int| 0 <= j < new.len() && #[trigger] new[j].key@ == q;
                if j != i {
                    assert(old[j].key@ == q);
                }
            }
            if has_key(old, q) {
                let j = choose|j: int| 0 <= j < old.len() && #[trigger] old[j].key@ == q;
                assert(new[j].key@ == q);
            }
        } else {
            if has_key(new, q) {
                let j = choose|j: int| 0 <= j < new.len() && #[trigger] new[j].key@ == q;
                if j < old.len() {
                    assert(new.take(old.len() as int)[j] == new[j]);
                    assert(old[j].key@ == q);
                }
            }
            if has_key(old, q) {
                let j = choose|j: int| 0 <= j < old.len() && #[trigger] old[j].key@ == q;
                assert(new.take(old.len() as int)[j] == new[j]);
                assert(new[j].key@ == q);
            }
            if q == k {
                assert(new[new.len() - 1].key@ == k);
            }
        }
    }
    assert(key_set(new) =~= key_set(old).insert(k));
    if has_key(old, k) {
        let i = key_index(old, k);
        assert(new[i].key@ == k);
    } else {
        assert(new[new.len() - 1].key@ == k);
        assert forall|i: int| 0 <= i < old.len() implies #[trigger] new[i] == old[i] by {
            assert(new.take(old.len() as int)[i] == new[i]);
        }
    }
    let j = key_index(new, k);
    assert(new[j].key@ == k);
}

/// Seeing the same envelope twice at the same instant leaves the book as
/// seeing it once does.
pub proof fn lemma_upsert_idempotent(
    b0: Seq<TrackedIntent>,
    b1: Seq<TrackedIntent>,
    b2: Seq<TrackedIntent>,
    env: Envelope,
    default_ttl_seconds: int,
    now: Timestamp,
)
    requires
        book_wf(b0),
        book_wf(b1),
        upserted(b0, b1, env, default_ttl_seconds, now),
        upserted(b1, b2, env, default_ttl_seconds, now),
    ensures
        b2 == b1,
{
    let k = intent_key(env);
    lemma_upsert_then_lookup(b0, b1, env, default_ttl_seconds, now);
    let j = key_index(b1, k);
    let n = envelope_normalized(env);
    let exp = expiry(n, default_ttl_seconds, now);
    if has_key(b0, k) {
        let i = key_index(b0, k);
        assert(b1[i].key@ == k);
        assert(j == i);
    } else {
        assert(b1[b1.len() - 1].key@ == k);
        assert(j == b1.len() - 1);
    }
    assert(refreshed(b1[j], now, exp, n) == b1[j]);
    assert(b2 =~= b1);
}

/// After a purge at `now`, every intent left expires after `now`, and every
/// intent that expires after `now` is left.
pub proof fn lemma_purge_keeps_exactly_unexpired(s: Seq<TrackedIntent>, now: Timestamp)
    ensures
        forall|i: int|
            0 <= i < unexpired(s, now).len() ==> now.before(
                (#[trigger] unexpired(s, now)[i]).expires_at,
            ),
        forall|i: int|
            0 <= i < s.len() && now.before((#[trigger] s[i]).expires_at) ==> unexpired(
                s,
                now,
            ).contains(s[i]),
{
    let f = |t: TrackedIntent| now.before(t.expires_at);
    assert forall|i: int| 0 <= i < unexpired(s, now).len() implies now.before(
        (#[trigger] unexpired(s, now)[i]).expires_at,
    ) by {
        s.lemma_filter_pred(f, i);
    }
    assert forall|i: int| 0 <= i < s.len() && now.before((#[trigger] s[i]).expires_at) implies unexpired(
        s,
        now,
    ).contains(s[i]) by {
        s.lemma_filter_contains(f, i);
    }
}

/// Purging twice at the same instant is purging once.
pub proof fn lemma_purge_idempotent(s: Seq<TrackedIntent>, now: Timestamp)
    ensures
        unexpired(unexpired(s, now), now) == unexpired(s, now),
{
    let f = |t: TrackedIntent| now.before(t.expires_at);
    let u = s.filter(f);
    assert forall|i: int| 0 <= i < u.len() implies f(u[i]) by {
        s.lemma_filter_pred(f, i);
    }
    lemma_filter_all(u, f);
}

proof fn lemma_filter_all<A>(s: Seq<A>, f: spec_fn(A) -> bool)
    requires
        forall|i: int| 0 <= i < s.len() ==> f(s[i]),
    ensures
        s.filter(f) == s,
    decreases s.len(),
{
    reveal(Seq::filter);
    if s.len() > 0 {
        lemma_filter_all(s.drop_last(), f);
        assert(s.drop_last().push(s.last()) =~= s);
    } else {
        assert(s.filter(f) =~= s);
    }
}

} // verus!
