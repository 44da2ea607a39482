use intent_engine::{
    can_shorten, format_amount_atoms, group_thousands, parse_atoms, short_addr, short_id,
    token_info, token_label, UsdRate,
};

const USDC_MAINNET: &str = "0xa0b86991c6218b36c1d19d4a2e9eb0ce3606eb48";

#[test]
fn short_addr_keeps_short_strings() {
    assert_eq!(short_addr("0xabc"), "0xabc");
    assert_eq!(short_addr("0123456789abcdef"), "0123456789abcdef");
    assert_eq!(short_addr(""), "");
}

#[test]
fn short_addr_cuts_long_strings() {
    assert_eq!(short_addr("0x1234567890abcdef1234"), "0x123456\u{2026}ef1234");
    assert_eq!(short_addr("0123456789abcdefg"), "01234567\u{2026}bcdefg");
    assert_eq!(short_id("order-0000000000000001"), "order-00\u{2026}000001");
}

#[test]
fn short_addr_is_idempotent_on_ascii() {
    for a in ["0x1234567890abcdef1234", "0123456789abcdefg", "0xabc", "", USDC_MAINNET] {
        let once = short_addr(a);
        assert!(can_shorten(&once));
        assert_eq!(short_addr(&once), once);
    }
    // the short form of a long address is 17 bytes: the ellipsis takes three
    assert_eq!(short_addr(USDC_MAINNET).len(), 17);
}

#[test]
fn short_id_matches_short_addr() {
    for s in ["abcdefghijklmnopqrstuvwxyz", "order-1", "", "\u{e9}\u{e9}\u{e9}\u{e9}\u{e9}\u{e9}\u{e9}\u{e9}\u{e9}"] {
        assert_eq!(short_id(s), short_addr(s));
    }
    assert_eq!(short_id("abcdefghijklmnopqrstuvwxyz"), "abcdefgh\u{2026}uvwxyz");
    assert_eq!(short_id("order-1"), "order-1");
}

#[test]
fn short_form_needs_char_boundaries() {
    assert!(can_shorten("0x1234567890abcdef1234"));
    assert!(can_shorten("\u{e9}\u{e9}\u{e9}"));
    // byte 8 falls inside the fourth two-byte character
    assert!(!can_shorten("a\u{e9}\u{e9}\u{e9}\u{e9}\u{e9}\u{e9}\u{e9}\u{e9}"));
    // 18 bytes of two-byte characters: bytes 8 and 12 are boundaries
    assert!(can_shorten("\u{e9}\u{e9}\u{e9}\u{e9}\u{e9}\u{e9}\u{e9}\u{e9}\u{e9}"));
    assert_eq!(
        short_addr("\u{e9}\u{e9}\u{e9}\u{e9}\u{e9}\u{e9}\u{e9}\u{e9}\u{e9}"),
        "\u{e9}\u{e9}\u{e9}\u{e9}\u{2026}\u{e9}\u{e9}\u{e9}"
    );
}

#[test]
fn token_registry_lookups() {
    let usdc = token_info(Some("ethereum-mainnet"), USDC_MAINNET).unwrap();
    assert_eq!(usdc.symbol, "USDC");
    assert_eq!(usdc.decimals, 6);
    assert!(usdc.is_stable_usd);
    assert_eq!(usdc.usd_per_token, UsdRate::Par);

    // lookups go by the lowercase address
    let mixed = token_info(Some("ethereum-mainnet"), "0xA0b86991c6218b36c1d19d4a2e9eb0ce3606eB48");
    assert_eq!(mixed.unwrap().symbol, "USDC");

    let wbtc = token_info(Some("ethereum-mainnet"), "0x2260fac5e5542a773aa44fbcfedf7c193bc2c599");
    assert_eq!(wbtc.unwrap().decimals, 8);

    let eurc = token_info(Some("base-mainnet"), "0x60a3e35cc302bfa44cb288bc5a4f316fdb1adb42").unwrap();
    assert_eq!(eurc.symbol, "EURC");
    assert!(!eurc.is_stable_usd);
    assert_eq!(eurc.usd_per_token, UsdRate::EurUsd);

    let eth = token_info(None, "0x0000000000000000000000000000000000000000").unwrap();
    assert_eq!(eth.symbol, "ETH");
    assert_eq!(eth.decimals, 18);
    assert_eq!(eth.usd_per_token, UsdRate::Unknown);

    assert!(token_info(None, USDC_MAINNET).is_none());
    assert!(token_info(Some("base-mainnet"), USDC_MAINNET).is_none());
    assert!(token_info(Some("ethereum-mainnet"), "0xdeadbeef").is_none());

    // an address in capitals finds what it finds in small letters
    let upper = USDC_MAINNET.to_ascii_uppercase();
    assert_eq!(token_info(Some("ethereum-mainnet"), &upper).unwrap().symbol, "USDC");
    let eth_upper = "0X0000000000000000000000000000000000000000";
    assert_eq!(token_info(None, eth_upper).unwrap().symbol, "ETH");
}

#[test]
fn token_labels() {
    assert_eq!(
        token_label(Some("ethereum-mainnet"), "0xA0b86991c6218b36c1d19d4a2e9eb0ce3606eB48"),
        "USDC:0xA0b869\u{2026}06eB48"
    );
    assert_eq!(token_label(Some("ethereum-mainnet"), "0xdeadbeef"), "0xdeadbeef");
    assert_eq!(token_label(None, ""), "");
}

#[test]
fn amounts_with_decimals() {
    assert_eq!(format_amount_atoms("1500000", Some(6)), "1.5");
    assert_eq!(format_amount_atoms("1000000", Some(6)), "1");
    assert_eq!(format_amount_atoms("123", Some(6)), "0.000123");
    assert_eq!(format_amount_atoms("123456", Some(6)), "0.123456");
    assert_eq!(format_amount_atoms("0", Some(6)), "0");
    assert_eq!(format_amount_atoms("000000", Some(6)), "0");
    assert_eq!(format_amount_atoms("1230000000000000000", Some(18)), "1.23");
    assert_eq!(format_amount_atoms("1000000000000000000", Some(18)), "1");
    assert_eq!(format_amount_atoms(" 2500 ", Some(2)), "25");
    assert_eq!(format_amount_atoms("2501", Some(2)), "25.01");
}

#[test]
fn amounts_left_as_given() {
    assert_eq!(format_amount_atoms("  42  ", None), "42");
    assert_eq!(format_amount_atoms("1234", Some(0)), "1234");
    assert_eq!(format_amount_atoms("12a", Some(6)), "12a");
    assert_eq!(format_amount_atoms("-5", Some(6)), "-5");
    assert_eq!(format_amount_atoms("", Some(6)), "");
    assert_eq!(format_amount_atoms(" \t\n", Some(6)), "");
    assert_eq!(format_amount_atoms("\u{3000}7\u{a0}", None), "7");
}

#[test]
fn atoms_parse() {
    assert_eq!(parse_atoms(" 123 "), Some(123));
    assert_eq!(parse_atoms("0"), Some(0));
    assert_eq!(parse_atoms(""), None);
    assert_eq!(parse_atoms("   "), None);
    assert_eq!(parse_atoms("+5"), None);
    assert_eq!(parse_atoms("1.5"), None);
    assert_eq!(parse_atoms("340282366920938463463374607431768211455"), Some(u128::MAX));
    assert_eq!(parse_atoms("340282366920938463463374607431768211456"), None);
}

#[test]
fn thousands_grouping() {
    assert_eq!(group_thousands("1234567.89"), "1,234,567.89");
    assert_eq!(group_thousands("-1234.50"), "-1,234.50");
    assert_eq!(group_thousands("999.00"), "999.00");
    assert_eq!(group_thousands("1000"), "1,000");
    assert_eq!(group_thousands("100000.00"), "100,000.00");
    assert_eq!(group_thousands("0.05"), "0.05");
    assert_eq!(group_thousands("1.2.3"), "1.2");
    assert_eq!(group_thousands(""), "");
}

#[test]
fn thousands_grouping_keeps_digits() {
    for v in [0.0f64, 5.5, -12.0, 999.999, 1234.5, -1234567.891, 1e12, 123456789.0] {
        for d in [0usize, 2, 3] {
            let rounded = format!("{:.1$}", v, d);
            let grouped = group_thousands(&rounded);
            assert_eq!(grouped.replace(",", ""), rounded);
            let body = grouped.trim_start_matches('-');
            let int_part = body.split('.').next().unwrap();
            let groups: Vec<&str> = int_part.split(',').collect();
            assert!(!groups[0].is_empty() && groups[0].len() <= 3);
            for g in &groups[1..] {
                assert_eq!(g.len(), 3);
            }
        }
    }
}
