use intent_engine::{
    deadline_from_normalized, engine_state_at, purge_expired, purge_expired_at, upsert_intent,
    upsert_intent_at, upsert_intent_checked, Envelope, IntentBook, Normalized, Timestamp, MAX_UNIX_SECS, MIN_UNIX_SECS,
};

fn ts(secs: i64, nanos: u32) -> Timestamp {
    Timestamp { secs, nanos }
}

fn normalized_with_deadline(deadline: Option<i64>, entry_count: usize) -> Normalized {
    let mut n = Normalized::empty();
    n.entry_count = entry_count;
    n.deadline_unix = deadline;
    n
}

fn envelope(source: &str, id: Option<&str>, normalized: Option<Normalized>, raw_json_len: usize) -> Envelope {
    Envelope {
        source: source.to_string(),
        network: Some("ethereum-mainnet".to_string()),
        id: id.map(|s| s.to_string()),
        normalized,
        raw_json_len,
    }
}

#[test]
fn deadline_range_is_chrono_range() {
    let n = |d| normalized_with_deadline(Some(d), 1);
    assert_eq!(deadline_from_normalized(&n(1_700_000_000)), Some(ts(1_700_000_000, 0)));
    assert_eq!(deadline_from_normalized(&n(MAX_UNIX_SECS)), Some(ts(MAX_UNIX_SECS, 0)));
    assert_eq!(deadline_from_normalized(&n(MAX_UNIX_SECS + 1)), None);
    assert_eq!(deadline_from_normalized(&n(MIN_UNIX_SECS)), Some(ts(MIN_UNIX_SECS, 0)));
    assert_eq!(deadline_from_normalized(&n(MIN_UNIX_SECS - 1)), None);
    assert_eq!(deadline_from_normalized(&n(i64::MAX)), None);
    assert_eq!(deadline_from_normalized(&normalized_with_deadline(None, 3)), None);
}

#[test]
fn upsert_tracks_new_intent_with_deadline() {
    let mut book = IntentBook::new();
    let now = ts(1_700_000_000, 5);
    let env = envelope("uniswapx", Some("abc"), Some(normalized_with_deadline(Some(2_000_000_000), 1)), 10);
    upsert_intent_at(&mut book, env, 30, now);
    assert_eq!(book.intents.len(), 1);
    let t = &book.intents[0];
    assert_eq!(t.key, "uniswapx:abc");
    assert_eq!(t.id, "abc");
    assert_eq!(t.source, "uniswapx");
    assert_eq!(t.network.as_deref(), Some("ethereum-mainnet"));
    assert_eq!(t.first_seen, now);
    assert_eq!(t.last_seen, now);
    assert_eq!(t.expires_at, ts(2_000_000_000, 0));
    assert_eq!(t.normalized.entry_count, 1);
}

#[test]
fn upsert_without_id_keys_by_raw_length_and_uses_ttl() {
    let mut book = IntentBook::new();
    let now = ts(1_700_000_000, 5);
    upsert_intent_at(&mut book, envelope("cowswap", None, None, 42), 30, now);
    upsert_intent_at(&mut book, envelope("cowswap", Some(""), None, 7), 30, now);
    assert_eq!(book.intents.len(), 2);
    assert_eq!(book.intents[0].key, "cowswap:raw:42");
    assert_eq!(book.intents[0].id, "");
    assert_eq!(book.intents[0].expires_at, ts(1_700_000_030, 5));
    assert_eq!(book.intents[1].key, "cowswap:raw:7");
    // a deadline chrono cannot hold falls back to the default lifetime
    upsert_intent_at(
        &mut book,
        envelope("cowswap", Some("x"), Some(normalized_with_deadline(Some(i64::MAX), 1)), 0),
        -5,
        now,
    );
    assert_eq!(book.intents[2].expires_at, ts(1_699_999_995, 5));
}

#[test]
fn upsert_refreshes_existing_intent() {
    let mut book = IntentBook::new();
    let t0 = ts(1_000, 0);
    let t1 = ts(1_010, 250);
    upsert_intent_at(&mut book, envelope("uniswapx", Some("a"), Some(normalized_with_deadline(None, 2)), 0), 30, t0);
    upsert_intent_at(&mut book, envelope("uniswapx", Some("b"), None, 0), 30, t0);
    // seen again with an empty normalized object: the old one stays
    upsert_intent_at(&mut book, envelope("uniswapx", Some("a"), None, 99), 60, t1);
    assert_eq!(book.intents.len(), 2);
    let a = &book.intents[0];
    assert_eq!(a.key, "uniswapx:a");
    assert_eq!(a.first_seen, t0);
    assert_eq!(a.last_seen, t1);
    assert_eq!(a.expires_at, ts(1_070, 250));
    assert_eq!(a.normalized.entry_count, 2);
    // seen again with a non-empty one: it replaces the old one
    upsert_intent_at(&mut book, envelope("uniswapx", Some("a"), Some(normalized_with_deadline(Some(5_000), 4)), 0), 60, t1);
    assert_eq!(book.intents[0].normalized.entry_count, 4);
    assert_eq!(book.intents[0].expires_at, ts(5_000, 0));
    assert_eq!(book.intents[1].key, "uniswapx:b");
    assert_eq!(book.intents[1].last_seen, t0);
}

#[test]
fn upsert_same_envelope_twice_is_once() {
    let mut once = IntentBook::new();
    let mut twice = IntentBook::new();
    let now = ts(500, 1);
    upsert_intent_at(&mut once, envelope("s", Some("i"), None, 0), 30, now);
    upsert_intent_at(&mut twice, envelope("s", Some("i"), None, 0), 30, now);
    upsert_intent_at(&mut twice, envelope("s", Some("i"), None, 0), 30, now);
    assert_eq!(once.intents.len(), twice.intents.len());
    assert_eq!(once.intents[0].expires_at, twice.intents[0].expires_at);
    assert_eq!(once.intents[0].last_seen, twice.intents[0].last_seen);
    assert_eq!(once.intents[0].first_seen, twice.intents[0].first_seen);
}

#[test]
fn upsert_with_clock() {
    let mut book = IntentBook::new();
    assert!(upsert_intent(&mut book, envelope("s", Some("i"), None, 0), 30));
    assert_eq!(book.intents.len(), 1);
    let t = &book.intents[0];
    assert!(t.first_seen.secs > 1_600_000_000);
    assert_eq!(t.expires_at.secs, t.first_seen.secs + 30);
    // a lifetime that chrono cannot add is refused, the book unchanged
    assert!(!upsert_intent(&mut book, envelope("s", Some("j"), None, 0), i64::MAX));
    assert_eq!(book.intents.len(), 1);
    // ... unless a deadline makes it unneeded
    assert!(upsert_intent(
        &mut book,
        envelope("s", Some("j"), Some(normalized_with_deadline(Some(4_000_000_000), 1)), 0),
        i64::MAX
    ));
    assert_eq!(book.intents.len(), 2);
}

#[test]
fn upsert_checked_at_given_instant() {
    let mut book = IntentBook::new();
    let now = ts(MAX_UNIX_SECS - 10, 0);
    // the default lifetime runs past chrono's range: refused, book unchanged
    assert!(!upsert_intent_checked(&mut book, envelope("s", Some("i"), None, 0), 30, now));
    assert_eq!(book.intents.len(), 0);
    // a lifetime that fits is recorded
    assert!(upsert_intent_checked(&mut book, envelope("s", Some("i"), None, 0), 5, now));
    assert_eq!(book.intents.len(), 1);
    assert_eq!(book.intents[0].expires_at, ts(MAX_UNIX_SECS - 5, 0));
    // a stated deadline makes the lifetime unneeded
    let n = normalized_with_deadline(Some(2_000), 1);
    assert!(upsert_intent_checked(&mut book, envelope("s", Some("j"), Some(n), 0), 30, now));
    assert_eq!(book.intents.len(), 2);
    assert_eq!(book.intents[1].expires_at, ts(2_000, 0));
}

#[test]
fn purge_drops_expired_keeps_order() {
    let mut book = IntentBook::new();
    let now = ts(1_000, 0);
    for (id, deadline) in [("a", 999), ("b", 1_500), ("c", 1_000), ("d", 2_000)] {
        upsert_intent_at(
            &mut book,
            envelope("s", Some(id), Some(normalized_with_deadline(Some(deadline), 1)), 0),
            30,
            now,
        );
    }
    purge_expired_at(&mut book, ts(1_000, 0));
    let keys: Vec<&str> = book.intents.iter().map(|t| t.key.as_str()).collect();
    assert_eq!(keys, vec!["s:b", "s:d"]);
    purge_expired_at(&mut book, ts(1_000, 0));
    assert_eq!(book.intents.len(), 2);
    purge_expired_at(&mut book, ts(1_999, 999_999_999));
    assert_eq!(book.intents.len(), 1);
    purge_expired(&mut book);
    assert_eq!(book.intents.len(), 0);
}

#[test]
fn snapshot_sorted_by_expiry_with_ttls() {
    let mut book = IntentBook::new();
    let t0 = ts(1_000, 0);
    let add = |book: &mut IntentBook, id: &str, ttl: i64, n: Normalized| {
        upsert_intent_at(book, envelope("s", Some(id), Some(n), 0), ttl, t0);
    };
    let mut n = normalized_with_deadline(None, 2);
    n.sell_token = Some("0xsell".to_string());
    add(&mut book, "late", 100, n);
    add(&mut book, "early", 10, normalized_with_deadline(None, 0));
    add(&mut book, "tie", 10, normalized_with_deadline(None, 0));
    add(&mut book, "mid", 50, normalized_with_deadline(None, 0));

    let state = engine_state_at(&book, ts(1_000, 500_000_000));
    assert_eq!(state.schema_version, "engine-state/0.1.0");
    assert_eq!(state.emitted_at, ts(1_000, 500_000_000));
    let keys: Vec<&str> = state.active.iter().map(|i| i.key.as_str()).collect();
    assert_eq!(keys, vec!["s:early", "s:tie", "s:mid", "s:late"]);
    let ttls: Vec<i64> = state.active.iter().map(|i| i.ttl_seconds).collect();
    assert_eq!(ttls, vec![9, 9, 49, 99]);
    assert_eq!(state.active[3].sell_token.as_deref(), Some("0xsell"));
    assert_eq!(state.active[3].id, "late");

    // whole seconds round toward zero on both sides of expiry
    let later = engine_state_at(&book, ts(1_010, 500_000_000));
    assert_eq!(later.active[0].ttl_seconds, 0);
    let much_later = engine_state_at(&book, ts(1_011, 500_000_000));
    assert_eq!(much_later.active[0].ttl_seconds, -1);
}

#[test]
fn purged_snapshot_has_no_negative_ttl() {
    let mut book = IntentBook::new();
    let t0 = ts(2_000, 0);
    for (id, deadline) in [("a", 1_990), ("b", 2_001), ("c", 2_000)] {
        upsert_intent_at(
            &mut book,
            envelope("s", Some(id), Some(normalized_with_deadline(Some(deadline), 1)), 0),
            30,
            t0,
        );
    }
    let now = ts(2_000, 100);
    purge_expired_at(&mut book, now);
    let state = engine_state_at(&book, now);
    assert_eq!(state.active.len(), 1);
    assert!(state.active.iter().all(|i| i.ttl_seconds >= 0));
    assert_eq!(state.active[0].ttl_seconds, 0);
}

#[test]
fn keys_are_per_source() {
    let mut book = IntentBook::new();
    let now = ts(10, 0);
    upsert_intent_at(&mut book, envelope("uniswapx", Some("1"), None, 0), 30, now);
    upsert_intent_at(&mut book, envelope("cowswap", Some("1"), None, 0), 30, now);
    assert_eq!(book.intents.len(), 2);
    assert_eq!(book.intents[0].key, "uniswapx:1");
    assert_eq!(book.intents[1].key, "cowswap:1");
}
