use vstd::prelude::*;

use crate::book::{IntentBook, TrackedIntent};
use crate::clock::{now_utc, whole_seconds, whole_seconds_between, Timestamp};

verus! {

broadcast use vstd::string::group_string_axioms;

/// An intent as the engine publishes it and the dashboard reads it.
#[derive(Debug)]
pub struct EngineIntent {
    pub key: String,
    pub id: String,
    pub source: String,
    pub network: Option<String>,
    pub ttl_seconds: i64,
    pub expires_at: Timestamp,
    pub sell_token: Option<String>,
    pub buy_token: Option<String>,
    pub sell_amount: Option<String>,
    pub min_buy_amount: Option<String>,
    pub sell_amount_start: Option<String>,
    pub sell_amount_end: Option<String>,
    pub buy_amount_start: Option<String>,
    pub buy_amount_end: Option<String>,
    pub decay_start_unix: Option<i64>,
    pub decay_end_unix: Option<i64>,
    pub exclusive_filler: Option<String>,
    pub exclusive_until_unix: Option<i64>,
    pub order_type: Option<String>,
}

/// A snapshot of the book that the engine publishes.
#[derive(Debug)]
pub struct EngineState {
    pub schema_version: String,
    pub emitted_at: Timestamp,
    pub active: Vec<EngineIntent>,
}

/// The published form of tracked intent `t` at `now`; its time to live is
/// the whole seconds until it expires, rounded toward zero.
pub open spec fn published(t: TrackedIntent, now: Timestamp) -> EngineIntent {
    EngineIntent {
        key: t.key,
        id: t.id,
        source: t.source,
        network: t.network,
        ttl_seconds: whole_seconds(t.expires_at.total_nanos() - now.total_nanos()) as i64,
        expires_at: t.expires_at,
        sell_token: t.normalized.sell_token,
        buy_token: t.normalized.buy_token,
        sell_amount: t.normalized.sell_amount,
        min_buy_amount: t.normalized.min_buy_amount,
        sell_amount_start: t.normalized.sell_amount_start,
        sell_amount_end: t.normalized.sell_amount_end,
        buy_amount_start: t.normalized.buy_amount_start,
        buy_amount_end: t.normalized.buy_amount_end,
        decay_start_unix: t.normalized.decay_start_unix,
        decay_end_unix: t.normalized.decay_end_unix,
        exclusive_filler: t.normalized.exclusive_filler,
        exclusive_until_unix: t.normalized.exclusive_until_unix,
        order_type: t.normalized.order_type,
    }
}

/// `s` with `x` put after the last element that expires no later than it
/// (scanning from the right).
pub open spec fn insert_by_expiry(s: Seq<EngineIntent>, x: EngineIntent) -> Seq<EngineIntent>
    decreases s.len(),
{
    if s.len() == 0 {
        seq![x]
    } else if !x.expires_at.before(s.last().expires_at) {
        s.push(x)
    } else {
        insert_by_expiry(s.drop_last(), x).push(s.last())
    }
}

/// `s` sorted by expiry, intents that expire together kept in their order
/// in `s` (a stable insertion sort).
pub open spec fn sort_by_expiry(s: Seq<EngineIntent>) -> Seq<EngineIntent>
    decreases s.len(),
{
    if s.len() == 0 {
        s
    } else {
        insert_by_expiry(sort_by_expiry(s.drop_last()), s.last())
    }
}

/// The published intents of book entries `s` at `now`, in book order.
pub open spec fn published_all(s: Seq<TrackedIntent>, now: Timestamp) -> Seq<EngineIntent> {
    s.map_values(|t: TrackedIntent| published(t, now))
}

/// The schema version of published snapshots.
pub open spec fn schema_version() -> Seq<char> {
    "engine-state/0.1.0"@
}

fn clone_text(o: &Option<String>) -> (res: Option<String>)
    ensures
        res == *o,
{
    match o {
        Some(s) => Some(s.clone()),
        None => None,
    }
}

fn publish_one(t: &TrackedIntent, now: Timestamp) -> (res: EngineIntent)
    requires
        t.expires_at.valid(),
        now.valid(),
    ensures
        res == published(*t, now),
{
    let n = &t.normalized;
    EngineIntent {
        key: t.key.clone(),
        id: t.id.clone(),
        source: t.source.clone(),
        network: clone_text(&t.network),
        ttl_seconds: whole_seconds_between(t.expires_at, now),
        expires_at: t.expires_at,
        sell_token: clone_text(&n.sell_token),
        buy_token: clone_text(&n.buy_token),
        sell_amount: clone_text(&n.sell_amount),
        min_buy_amount: clone_text(&n.min_buy_amount),
        sell_amount_start: clone_text(&n.sell_amount_start),
        sell_amount_end: clone_text(&n.sell_amount_end),
        buy_amount_start: clone_text(&n.buy_amount_start),
        buy_amount_end: clone_text(&n.buy_amount_end),
        decay_start_unix: n.decay_start_unix,
        decay_end_unix: n.decay_end_unix,
        exclusive_filler: clone_text(&n.exclusive_filler),
        exclusive_until_unix: n.exclusive_until_unix,
        order_type: clone_text(&n.order_type),
    }
}

proof fn lemma_insert_at(s: Seq<EngineIntent>, x: EngineIntent, j: int)
    requires
        0 <= j <= s.len(),
        forall|k: int| j <= k < s.len() ==> x.expires_at.before(#[trigger] s[k].expires_at),
        j == 0 || !x.expires_at.before(s[j - 1].expires_at),
    ensures
        insert_by_expiry(s, x) == s.insert(j, x),
    decreases s.len(),
{
    if s.len() == 0 {
        assert(s.insert(j, x) =~= seq![x]);
    } else if j == s.len() {
        assert(s.insert(j, x) =~= s.push(x));
    } else {
        assert(x.expires_at.before(s[s.len() - 1].expires_at));
        let d = s.drop_last();
        assert forall|k: int| j <= k < d.len() implies x.expires_at.before(#[trigger] d[k].expires_at) by {
            assert(d[k] == s[k]);
        }
        if j > 0 {
            assert(d[j - 1] == s[j - 1]);
        }
        lemma_insert_at(d, x, j);
        assert(d.insert(j, x).push(s.last()) =~= s.insert(j, x));
    }
}

fn insert_sorted(v: &mut Vec<EngineIntent>, x: EngineIntent)
    ensures
        final(v)@ == insert_by_expiry(old(v)@, x),
{
    let mut j = v.len();
    while j > 0 && x.expires_at.is_before(&v[j - 1].expires_at)
        invariant
            j <= v@.len(),
            v@ == old(v)@,
            forall|k: int| j <= k < v@.len() ==> x.expires_at.before(#[trigger] v@[k].expires_at),
        decreases j,
    {
        j -= 1;
    }
    proof {
        lemma_insert_at(v@, x, j as int);
    }
    v.insert(j, x);
}

/// The snapshot of `book` published at `now`: every tracked intent,
/// sorted by expiry.
pub fn engine_state_at(book: &IntentBook, now: Timestamp) -> (res: EngineState)
    requires
        book.wf(),
        now.valid(),
    ensures
        res.schema_version@ == schema_version(),
        res.emitted_at == now,
        res.active@ == sort_by_expiry(published_all(book.entries(), now)),
{
    let ghost all = published_all(book.entries(), now);
    let mut active: Vec<EngineIntent> = Vec::new();
    let n = book.intents.len();
    let mut i: usize = 0;
    while i < n
        invariant
            n == book.intents@.len(),
            i <= n,
            book.wf(),
            now.valid(),
            all == published_all(book.entries(), now),
            active@ == sort_by_expiry(all.take(i as int)),
        decreases n - i,
    {
        let e = publish_one(&book.intents[i], now);
        proof {
            assert(all.take(i + 1).drop_last() =~= all.take(i as int));
            assert(all.take(i + 1).last() == e);
        }
        insert_sorted(&mut active, e);
        i += 1;
    }
    assert(all.take(n as int) =~= all);
    let version = "engine-state/0.1.0".to_owned();
    EngineState { schema_version: version, emitted_at: now, active }
}

/// The snapshot of `book` published now, reading the system clock.
pub fn engine_state(book: &IntentBook) -> (res: EngineState)
    requires
        book.wf(),
    ensures
        res.schema_version@ == schema_version(),
        res.emitted_at.valid(),
        res.emitted_at.secs >= 0,
        res.active@ == sort_by_expiry(published_all(book.entries(), res.emitted_at)),
{
    let now = now_utc();
    engine_state_at(book, now)
}

/// Intents of `s` come in order of expiry.
pub open spec fn sorted_by_expiry(s: Seq<EngineIntent>) -> bool {
    forall|i: int, j: int|
        0 <= i < j < s.len() ==> !(#[trigger] s[j]).expires_at.before((#[trigger] s[i]).expires_at)
}

proof fn lemma_insert_bounded(s: Seq<EngineIntent>, x: EngineIntent, y: Timestamp)
    requires
        forall|k: int| 0 <= k < s.len() ==> !y.before(#[trigger] s[k].expires_at),
        !y.before(x.expires_at),
    ensures
        forall|k: int|
            0 <= k < insert_by_expiry(s, x).len() ==> !y.before(
                #[trigger] insert_by_expiry(s, x)[k].expires_at,
            ),
    decreases s.len(),
{
    if s.len() > 0 && x.expires_at.before(s.last().expires_at) {
        let d = s.drop_last();
        assert forall|k: int| 0 <= k < d.len() implies !y.before(#[trigger] d[k].expires_at) by {
            assert(d[k] == s[k]);
        }
        lemma_insert_bounded(d, x, y);
    }
}

proof fn lemma_insert_keeps_sorted(s: Seq<EngineIntent>, x: EngineIntent)
    requires
        sorted_by_expiry(s),
    ensures
        sorted_by_expiry(insert_by_expiry(s, x)),
        insert_by_expiry(s, x).to_multiset() == s.to_multiset().insert(x),
    decreases s.len(),
{
    broadcast use vstd::seq_lib::group_to_multiset_ensures;

    if s.len() == 0 {
        assert(seq![x] =~= s.push(x));
    } else if !x.expires_at.before(s.last().expires_at) {
    } else {
        let d = s.drop_last();
        let l = s.last();
        assert(sorted_by_expiry(d)) by {
            assert forall|i: int, j: int| 0 <= i < j < d.len() implies !(#[trigger] d[j]).expires_at.before(
                (#[trigger] d[i]).expires_at,
            ) by {
                assert(d[i] == s[i] && d[j] == s[j]);
            }
        }
        lemma_insert_keeps_sorted(d, x);
        assert forall|k: int| 0 <= k < d.len() implies !l.expires_at.before(#[trigger] d[k].expires_at) by {
            assert(d[k] == s[k]);
            assert(s[s.len() - 1] == l);
        }
        lemma_insert_bounded(d, x, l.expires_at);
        assert(d.push(l) =~= s);
        assert(insert_by_expiry(d, x).push(l).to_multiset() =~= s.to_multiset().insert(x));
    }
}

/// Each published field is the tracked field of the same name: the key,
/// id, source, network and expiry of the tracked intent, and each order
/// field from its normalized fields; the time to live is the whole seconds
/// from `now` to the expiry, rounded toward zero.
pub proof fn lemma_published_fields(t: TrackedIntent, now: Timestamp)
    ensures
        ({
            let p = published(t, now);
            &&& p.key == t.key
            &&& p.id == t.id
            &&& p.source == t.source
            &&& p.network == t.network
            &&& p.expires_at == t.expires_at
            &&& p.ttl_seconds == whole_seconds(t.expires_at.total_nanos() - now.total_nanos()) as i64
            &&& p.sell_token == t.normalized.sell_token
            &&& p.buy_token == t.normalized.buy_token
            &&& p.sell_amount == t.normalized.sell_amount
            &&& p.min_buy_amount == t.normalized.min_buy_amount
            &&& p.sell_amount_start == t.normalized.sell_amount_start
            &&& p.sell_amount_end == t.normalized.sell_amount_end
            &&& p.buy_amount_start == t.normalized.buy_amount_start
            &&& p.buy_amount_end == t.normalized.buy_amount_end
            &&& p.decay_start_unix == t.normalized.decay_start_unix
            &&& p.decay_end_unix == t.normalized.decay_end_unix
            &&& p.exclusive_filler == t.normalized.exclusive_filler
            &&& p.exclusive_until_unix == t.normalized.exclusive_until_unix
            &&& p.order_type == t.normalized.order_type
        }),
{
}

/// Every intent in a snapshot of book entries `s` at `now` comes from an
/// entry of the book, with that entry's key, expiry and amounts, and every
/// entry of the book is in the snapshot.
pub proof fn lemma_snapshot_from_book(s: Seq<TrackedIntent>, now: Timestamp)
    ensures
        forall|j: int|
            0 <= j < sort_by_expiry(published_all(s, now)).len() ==> exists|k: int|
                0 <= k < s.len() && #[trigger] sort_by_expiry(published_all(s, now))[j] == published(
                    s[k],
                    now,
                ) && sort_by_expiry(published_all(s, now))[j].key == s[k].key
                    && sort_by_expiry(published_all(s, now))[j].sell_amount
                    == s[k].normalized.sell_amount
                    && sort_by_expiry(published_all(s, now))[j].min_buy_amount
                    == s[k].normalized.min_buy_amount
                    && sort_by_expiry(published_all(s, now))[j].expires_at == s[k].expires_at,
        forall|k: int|
            0 <= k < s.len() ==> sort_by_expiry(published_all(s, now)).contains(
                published(#[trigger] s[k], now),
            ),
{
    broadcast use vstd::seq_lib::group_to_multiset_ensures;

    let all = published_all(s, now);
    let q = sort_by_expiry(all);
    lemma_sort_by_expiry(all);
    assert forall|j: int| 0 <= j < q.len() implies exists|k: int|
        0 <= k < s.len() && #[trigger] q[j] == published(s[k], now) && q[j].key == s[k].key
            && q[j].sell_amount == s[k].normalized.sell_amount && q[j].min_buy_amount
            == s[k].normalized.min_buy_amount && q[j].expires_at == s[k].expires_at by {
        assert(q.to_multiset().count(q[j]) > 0);
        assert(all.to_multiset().count(q[j]) > 0);
        assert(all.contains(q[j]));
        let k = choose|k: int| 0 <= k < all.len() && all[k] == q[j];
        assert(all[k] == published(s[k], now));
    }
    assert forall|k: int| 0 <= k < s.len() implies q.contains(published(#[trigger] s[k], now)) by {
        assert(all[k] == published(s[k], now));
        assert(all.to_multiset().count(all[k]) > 0);
        assert(q.to_multiset().count(all[k]) > 0);
    }
}

/// A snapshot lists the intents in order of expiry, and lists each one as
/// often as the book does: sorting only reorders.
pub proof fn lemma_sort_by_expiry(s: Seq<EngineIntent>)
    ensures
        sorted_by_expiry(sort_by_expiry(s)),
        sort_by_expiry(s).to_multiset() == s.to_multiset(),
        sort_by_expiry(s).len() == s.len(),
    decreases s.len(),
{
    broadcast use vstd::seq_lib::group_to_multiset_ensures;

    if s.len() > 0 {
        lemma_sort_by_expiry(s.drop_last());
        lemma_insert_keeps_sorted(sort_by_expiry(s.drop_last()), s.last());
        assert(s.drop_last().push(s.last()) =~= s);
    }
    assert(sort_by_expiry(s).to_multiset().len() == sort_by_expiry(s).len());
    assert(s.to_multiset().len() == s.len());
}

/// Intents that expire together keep their book order in a snapshot.
pub proof fn lemma_sort_by_expiry_stable(s: Seq<EngineIntent>, x: EngineIntent)
    requires
        forall|k: int| 0 <= k < s.len() ==> #[trigger] s[k].expires_at == x.expires_at,
    ensures
        sort_by_expiry(s) == s,
    decreases s.len(),
{
    if s.len() > 0 {
        let d = s.drop_last();
        assert forall|k: int| 0 <= k < d.len() implies #[trigger] d[k].expires_at == x.expires_at by {
            assert(d[k] == s[k]);
        }
        lemma_sort_by_expiry_stable(d, x);
        if d.len() > 0 {
            assert(d.last() == s[s.len() - 2]);
        }
        assert(d.push(s.last()) =~= s);
    }
}

/// Once the intents that expired by `now` are purged, the snapshot taken
/// at `now` gives every intent a time to live of at least zero.
pub proof fn lemma_purged_ttl_nonnegative(s: Seq<TrackedIntent>, now: Timestamp)
    requires
        now.valid(),
        forall|i: int| 0 <= i < s.len() ==> (#[trigger] s[i]).expires_at.valid(),
        forall|i: int| 0 <= i < s.len() ==> now.before(#[trigger] s[i].expires_at),
    ensures
        forall|k: int|
            0 <= k < sort_by_expiry(published_all(s, now)).len() ==> #[trigger] sort_by_expiry(
                published_all(s, now),
            )[k].ttl_seconds >= 0,
{
    broadcast use vstd::seq_lib::group_to_multiset_ensures;

    let p = published_all(s, now);
    lemma_sort_by_expiry(p);
    let q = sort_by_expiry(p);
    assert forall|k: int| 0 <= k < q.len() implies #[trigger] q[k].ttl_seconds >= 0 by {
        assert(q.to_multiset().count(q[k]) > 0);
        assert(p.contains(q[k]));
        let m = choose|m: int| 0 <= m < p.len() && p[m] == q[k];
        assert(p[m] == published(s[m], now));
        crate::clock::lemma_before_is_time_order(now, s[m].expires_at);
    }
}

} // verus!
