use intent_engine::{
    buy_now_atoms, buy_now_atoms_at, buy_range_human, dashboard_row_at, decay_remaining,
    decay_remaining_at, excl_flag, excl_flag_at, filter_label, limit_price_plan,
    next_filter_on_key, parse_source_filter, row_buildable_at, source_allowed, usd_estimate_plan,
    EngineIntent, PricePlan, Timestamp, UsdPlan, UsdRate,
};

const USDC: &str = "0xa0b86991c6218b36c1d19d4a2e9eb0ce3606eb48";
const WETH: &str = "0xc02aaa39b223fe8d0a0e5c4f27ead9083c756cc2";
const EURC_BASE: &str = "0x60a3e35cc302bfa44cb288bc5a4f316fdb1adb42";

fn intent() -> EngineIntent {
    EngineIntent {
        key: "uniswapx:0x01".to_string(),
        id: "0x01".to_string(),
        source: "uniswapx".to_string(),
        network: Some("ethereum-mainnet".to_string()),
        ttl_seconds: 12,
        expires_at: Timestamp { secs: 1_700_000_012, nanos: 0 },
        sell_token: None,
        buy_token: None,
        sell_amount: None,
        min_buy_amount: None,
        sell_amount_start: None,
        sell_amount_end: None,
        buy_amount_start: None,
        buy_amount_end: None,
        decay_start_unix: None,
        decay_end_unix: None,
        exclusive_filler: None,
        exclusive_until_unix: None,
        order_type: None,
    }
}

fn auction(start: &str, end: &str, ds: i64, de: i64) -> EngineIntent {
    let mut i = intent();
    i.buy_amount_start = Some(start.to_string());
    i.buy_amount_end = Some(end.to_string());
    i.decay_start_unix = Some(ds);
    i.decay_end_unix = Some(de);
    i
}

#[test]
fn buy_now_decaying_down() {
    let i = auction("1000", "500", 100, 200);
    assert_eq!(buy_now_atoms_at(&i, 50).as_deref(), Some("1000"));
    assert_eq!(buy_now_atoms_at(&i, 100).as_deref(), Some("1000"));
    assert_eq!(buy_now_atoms_at(&i, 150).as_deref(), Some("750"));
    assert_eq!(buy_now_atoms_at(&i, 199).as_deref(), Some("505"));
    assert_eq!(buy_now_atoms_at(&i, 200).as_deref(), Some("500"));
    assert_eq!(buy_now_atoms_at(&i, 250).as_deref(), Some("500"));
}

#[test]
fn buy_now_decaying_up_and_edge_cases() {
    let i = auction("100", "300", 100, 200);
    assert_eq!(buy_now_atoms_at(&i, 125).as_deref(), Some("150"));
    assert_eq!(buy_now_atoms_at(&i, 133).as_deref(), Some("166"));
    // an empty or reversed window gives the end amount at once
    let j = auction("100", "300", 200, 200);
    assert_eq!(buy_now_atoms_at(&j, 0).as_deref(), Some("300"));
    // amounts are only parsed inside the window
    let k = auction("abc", "+300", 100, 200);
    assert_eq!(buy_now_atoms_at(&k, 50).as_deref(), Some("abc"));
    assert_eq!(buy_now_atoms_at(&k, 150), None);
    let l = auction("+100", "300", 100, 200);
    assert_eq!(buy_now_atoms_at(&l, 150).as_deref(), Some("200"));
    assert_eq!(buy_now_atoms_at(&intent(), 150), None);
    // with the clock, this window is long past
    assert_eq!(buy_now_atoms(&i).as_deref(), Some("300"));
}

#[test]
fn buy_range_in_whole_tokens() {
    let mut i = auction("1500000", "1000000", 0, 10);
    i.buy_token = Some(USDC.to_string());
    assert_eq!(buy_range_human(&i), "1.5\u{2192}1");
    i.buy_token = None;
    assert_eq!(buy_range_human(&i), "1500000\u{2192}1000000");
    i.buy_amount_end = Some(String::new());
    assert_eq!(buy_range_human(&i), "");
}

#[test]
fn decay_countdown() {
    let mut i = intent();
    assert_eq!(decay_remaining_at(&i, 0), "");
    i.decay_end_unix = Some(1_000);
    assert_eq!(decay_remaining_at(&i, 875), "02:05");
    assert_eq!(decay_remaining_at(&i, 1_000), "00:00");
    assert_eq!(decay_remaining_at(&i, 2_000), "00:00");
    assert_eq!(decay_remaining_at(&i, 1_000 - 6_005), "100:05");
    assert_eq!(decay_remaining(&i), "00:00");
}

#[test]
fn exclusivity_flag() {
    let mut i = intent();
    assert_eq!(excl_flag_at(&i, 0), "");
    i.exclusive_filler = Some(String::new());
    assert_eq!(excl_flag_at(&i, 0), "");
    i.exclusive_filler = Some("0xfiller".to_string());
    assert_eq!(excl_flag_at(&i, 0), "EXCL");
    i.exclusive_until_unix = Some(1_000);
    assert_eq!(excl_flag_at(&i, 990), "EXCL 10s");
    assert_eq!(excl_flag_at(&i, 1_000), "");
    assert_eq!(excl_flag(&i), "");
}

#[test]
fn usd_estimates() {
    let mut i = intent();
    assert!(matches!(usd_estimate_plan(&i), UsdPlan::Text(t) if t.is_empty()));
    i.buy_token = Some(USDC.to_string());
    i.min_buy_amount = Some("2500000".to_string());
    assert!(matches!(usd_estimate_plan(&i), UsdPlan::Text(t) if t == "$2.5"));
    // a stablecoin with an empty amount settles the estimate as empty
    i.min_buy_amount = Some(" ".to_string());
    i.sell_token = Some(USDC.to_string());
    i.sell_amount = Some("1000000".to_string());
    assert!(matches!(usd_estimate_plan(&i), UsdPlan::Text(t) if t.is_empty()));
    // an unknown buy token falls back to the sell side
    i.buy_token = Some("0xdead".to_string());
    assert!(matches!(usd_estimate_plan(&i), UsdPlan::Text(t) if t == "$1"));
    // a token with a dollar rate is converted by the caller
    let mut e = intent();
    e.network = Some("base-mainnet".to_string());
    e.buy_token = Some(EURC_BASE.to_string());
    e.min_buy_amount = Some("1000000".to_string());
    match usd_estimate_plan(&e) {
        UsdPlan::Convert { atoms, decimals, rate } => {
            assert_eq!(atoms, 1_000_000);
            assert_eq!(decimals, 6);
            assert_eq!(rate, UsdRate::EurUsd);
        }
        other => panic!("unexpected {:?}", other),
    }
    // ... when its amount parses; else the sell side is tried
    e.min_buy_amount = Some("1e6".to_string());
    assert!(matches!(usd_estimate_plan(&e), UsdPlan::Text(t) if t.is_empty()));
}

#[test]
fn limit_prices() {
    let mut i = intent();
    i.buy_token = Some(USDC.to_string());
    i.min_buy_amount = Some("3000000000".to_string());
    i.sell_token = Some(WETH.to_string());
    i.sell_amount = Some("1000000000000000000".to_string());
    match limit_price_plan(&i) {
        PricePlan::Price { usd_atoms, usd_decimals, rate, qty_atoms, qty_decimals, unit } => {
            assert_eq!(usd_atoms, 3_000_000_000);
            assert_eq!(usd_decimals, 6);
            assert_eq!(rate, UsdRate::Par);
            assert_eq!(qty_atoms, 1_000_000_000_000_000_000);
            assert_eq!(qty_decimals, 18);
            assert_eq!(unit, "WETH");
        }
        other => panic!("unexpected {:?}", other),
    }
    // priced by the sell side when the buy side is not in dollars
    let mut s = intent();
    s.sell_token = Some(USDC.to_string());
    s.sell_amount = Some("1500000".to_string());
    s.buy_token = Some(WETH.to_string());
    s.min_buy_amount = Some("500000000000000000".to_string());
    match limit_price_plan(&s) {
        PricePlan::Price { usd_atoms, unit, qty_atoms, .. } => {
            assert_eq!(usd_atoms, 1_500_000);
            assert_eq!(qty_atoms, 500_000_000_000_000_000);
            assert_eq!(unit, "WETH");
        }
        other => panic!("unexpected {:?}", other),
    }
    // a zero token amount has no price
    i.sell_amount = Some("0".to_string());
    assert!(matches!(limit_price_plan(&i), PricePlan::Nothing));
    assert!(matches!(limit_price_plan(&intent()), PricePlan::Nothing));
}

#[test]
fn row_cells() {
    let mut i = auction("2000000", "1000000", 100, 200);
    i.ttl_seconds = -3;
    i.buy_token = Some(USDC.to_string());
    i.sell_token = Some(WETH.to_string());
    i.sell_amount = Some("1500000000000000000".to_string());
    i.min_buy_amount = Some("900000".to_string());
    i.decay_end_unix = Some(200);
    i.id = "0x0123456789abcdef0123".to_string();
    assert!(row_buildable_at(&i, 150));
    let r = dashboard_row_at(&i, 150);
    assert_eq!(r.source, "uniswapx");
    assert_eq!(r.ttl, "0");
    assert_eq!(r.sell, "WETH:0xc02aaa\u{2026}756cc2");
    assert_eq!(r.buy, "USDC:0xa0b869\u{2026}06eb48");
    assert_eq!(r.sell_amount, "1.5");
    assert_eq!(r.buy_now, "1.5");
    assert_eq!(r.buy_range, "2\u{2192}1");
    assert_eq!(r.decay, "00:50");
    assert_eq!(r.excl, "");
    assert_eq!(r.id, "0x012345\u{2026}ef0123");
    // without an auction the minimum buy amount is shown
    let mut j = intent();
    j.min_buy_amount = Some("900000".to_string());
    j.buy_token = Some(USDC.to_string());
    let r = dashboard_row_at(&j, 150);
    assert_eq!(r.buy_now, "0.9");
    assert_eq!(r.ttl, "12");
    assert_eq!(r.sell, "");
}

#[test]
fn row_guard_finds_overflow() {
    let i = auction("340282366920938463463374607431768211455", "0", 0, 10);
    assert!(row_buildable_at(&i, 0));
    assert!(!row_buildable_at(&i, 5));
    let mut j = intent();
    j.decay_end_unix = Some(i64::MIN);
    assert!(!row_buildable_at(&j, 10));
    let mut k = intent();
    k.id = "a\u{e9}\u{e9}\u{e9}\u{e9}\u{e9}\u{e9}\u{e9}\u{e9}".to_string();
    assert!(!row_buildable_at(&k, 0));
}

#[test]
fn unparsable_amounts_with_extreme_window() {
    let i = auction("1.5", "-1", i64::MIN, i64::MAX);
    assert!(row_buildable_at(&i, 0));
    assert_eq!(buy_now_atoms_at(&i, 0), None);
    let r = dashboard_row_at(&i, 0);
    assert_eq!(r.buy_now, "");
    // with both amounts parsing, the same window is out of range
    let j = auction("10", "0", i64::MIN, i64::MAX);
    assert!(!row_buildable_at(&j, 0));
}

#[test]
fn source_filters() {
    let f = parse_source_filter(" UniswapX, cowswap ,,");
    let f = f.unwrap();
    assert_eq!(f.len(), 2);
    assert!(f.contains("uniswapx"));
    assert!(f.contains("cowswap"));
    let f = Some(f);
    assert_eq!(filter_label(&f), "cowswap,uniswapx");
    assert!(source_allowed(&f, "UNISWAPX"));
    assert!(source_allowed(&f, "cowswap"));
    assert!(!source_allowed(&f, "1inch"));
    assert!(source_allowed(&None, "anything"));
    for src in ["uniswapx", "CowSwap", "1inch", "UniSwapX "] {
        assert_eq!(source_allowed(&f, src), source_allowed(&f, &src.to_ascii_uppercase()));
    }
    assert!(!source_allowed(&f, "UniSwapX "));
    assert!(parse_source_filter(" , ").is_none());
    assert!(parse_source_filter("\t,\n, ,").is_none());
    // a non-blank piece beyond ASCII still names a source
    let u = parse_source_filter(" \u{c9}CHANGE ,").unwrap();
    assert_eq!(u.len(), 1);
    assert!(u.contains("\u{e9}change"));
    let u = Some(u);
    assert!(source_allowed(&u, "\u{e9}Change"));
    assert!(!source_allowed(&u, "change"));
    assert!(parse_source_filter("").is_none());
    let g = parse_source_filter("b,a,B,c").unwrap();
    assert_eq!(g.len(), 3);
    assert_eq!(filter_label(&Some(g)), "a,b,c");
    assert_eq!(filter_label(&None), "all");
}

#[test]
fn filter_keys() {
    let (f, quit) = next_filter_on_key(None, 'u');
    assert!(!quit);
    assert_eq!(filter_label(&f), "uniswapx");
    assert!(source_allowed(&f, "UniswapX"));
    assert!(!source_allowed(&f, "cowswap"));
    let (f, quit) = next_filter_on_key(f, 'x');
    assert!(!quit);
    assert_eq!(filter_label(&f), "uniswapx");
    let (f, quit) = next_filter_on_key(f, 'a');
    assert!(!quit);
    assert!(f.is_none());
    let (_, quit) = next_filter_on_key(f, 'q');
    assert!(quit);
}
