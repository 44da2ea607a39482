use vstd::prelude::*;
use vstd::string::StringExecFns;
use vstd::utf8::{decode_utf8, encode_utf8, is_char_boundary};

use crate::text::{
    ascii_upper, chars_eq_str, chars_of, lemma_lowered_ignores_ascii_case, lowered, to_lowercase,
};

verus! {

broadcast use {vstd::string::group_string_axioms, vstd::utf8::group_utf8_lib};

/// The ellipsis that joins the two ends of a shortened identifier.
pub open spec fn ellipsis() -> char {
    '\u{2026}'
}

/// The display form of an address or id: kept whole when its UTF-8
/// encoding is at most 16 bytes, otherwise its first 8 bytes, an ellipsis
/// and its last 6 bytes.
pub open spec fn shortened(s: Seq<char>) -> Seq<char> {
    let b = encode_utf8(s);
    if b.len() <= 16 {
        s
    } else {
        decode_utf8(b.subrange(0, 8)) + seq![ellipsis()] + decode_utf8(
            b.subrange(b.len() - 6, b.len() as int),
        )
    }
}

/// Whether `shortened` cuts `s` at character boundaries, so that slicing
/// it does not panic.
pub open spec fn shortenable(s: Seq<char>) -> bool {
    let b = encode_utf8(s);
    b.len() <= 16 || (is_char_boundary(b, 8) && is_char_boundary(b, b.len() - 6))
}

/// Tests `shortenable`.
pub fn can_shorten(s: &str) -> (res: bool)
    ensures
        res == shortenable(s@),
{
    let n = s.as_bytes().len();
    n <= 16 || (s.is_char_boundary(8) && s.is_char_boundary(n - 6))
}

fn shorten(s: &str) -> (res: String)
    requires
        shortenable(s@),
    ensures
        res@ == shortened(s@),
{
    let n = s.as_bytes().len();
    if n <= 16 {
        return s.to_owned();
    }
    let (head, _) = s.split_at(8);
    let (_, tail) = s.split_at(n - 6);
    let mut res = head.to_owned();
    res.append("\u{2026}");
    res.append(tail);
    proof {
        reveal_strlit("\u{2026}");
        vstd::utf8::encode_utf8_decode_utf8(head@);
        vstd::utf8::encode_utf8_decode_utf8(tail@);
    }
    res
}

proof fn lemma_ascii_piece(s: Seq<char>, i: int, j: int)
    requires
        vstd::utf8::is_ascii_chars(s),
        0 <= i <= j <= s.len(),
    ensures
        decode_utf8(encode_utf8(s).subrange(i, j)) == s.subrange(i, j),
{
    let p = s.subrange(i, j);
    assert(vstd::utf8::is_ascii_chars(p)) by {
        assert forall|k: int| 0 <= k < p.len() implies '\0' <= #[trigger] p[k] <= '\u{7f}' by {
            assert(p[k] == s[i + k]);
        }
    }
    vstd::utf8::is_ascii_chars_encode_utf8(s);
    vstd::utf8::is_ascii_chars_encode_utf8(p);
    assert(encode_utf8(s).subrange(i, j) =~= encode_utf8(p)) by {
        assert forall|k: int| 0 <= k < p.len() implies encode_utf8(s).subrange(i, j)[k] == encode_utf8(p)[k] by {
            assert(p[k] == s[i + k]);
        }
    }
    vstd::utf8::encode_utf8_decode_utf8(p);
}

/// On ASCII text, the short form is the text itself when it has at most
/// 16 characters, else its first 8 characters, an ellipsis and its last 6.
pub proof fn lemma_shortened_ascii(s: Seq<char>)
    requires
        vstd::utf8::is_ascii_chars(s),
    ensures
        shortenable(s),
        shortened(s) == (if s.len() <= 16 {
            s
        } else {
            s.take(8) + seq![ellipsis()] + s.skip(s.len() - 6)
        }),
{
    vstd::utf8::is_ascii_chars_encode_utf8(s);
    let b = encode_utf8(s);
    if s.len() > 16 {
        lemma_ascii_piece(s, 0, 8);
        lemma_ascii_piece(s, s.len() - 6, s.len() as int);
        assert(s.subrange(0, 8) =~= s.take(8));
        assert(s.subrange(s.len() - 6, s.len() as int) =~= s.skip(s.len() - 6));
        assert(is_char_boundary(b, 8)) by {
            vstd::utf8::is_char_boundary_iff_not_is_continuation_byte(b, 8);
        }
        assert(is_char_boundary(b, b.len() - 6)) by {
            vstd::utf8::is_char_boundary_iff_not_is_continuation_byte(b, b.len() - 6);
        }
    }
}

proof fn lemma_encode_utf8_concat(x: Seq<char>, y: Seq<char>)
    ensures
        encode_utf8(x + y) == encode_utf8(x) + encode_utf8(y),
    decreases x.len(),
{
    if x.len() == 0 {
        assert(x + y =~= y);
        assert(encode_utf8(x) + encode_utf8(y) =~= encode_utf8(y));
    } else {
        assert((x + y).drop_first() =~= x.drop_first() + y);
        assert((x + y)[0] == x[0]);
        lemma_encode_utf8_concat(x.drop_first(), y);
        assert(encode_utf8(x + y) =~= encode_utf8(x) + encode_utf8(y));
    }
}

proof fn lemma_encode_ellipsis()
    ensures
        encode_utf8(seq![ellipsis()]).len() == 3,
        !vstd::utf8::is_continuation_byte(encode_utf8(seq![ellipsis()])[0]),
{
    let e = seq![ellipsis()];
    let v = ellipsis() as u32;
    assert(v == 0x2026);
    assert(e.drop_first() =~= Seq::<char>::empty());
    assert(encode_utf8(e.drop_first()).len() == 0);
    assert(vstd::utf8::encode_scalar(v).len() == 3);
    assert(encode_utf8(e) == vstd::utf8::encode_scalar(v) + encode_utf8(e.drop_first()));
    assert(!vstd::utf8::is_continuation_byte(vstd::utf8::leading_byte_width_3(v))) by (bit_vector);
}

proof fn lemma_ascii_first_byte(c: Seq<char>)
    requires
        vstd::utf8::is_ascii_chars(c),
        c.len() > 0,
    ensures
        !vstd::utf8::is_continuation_byte(encode_utf8(c)[0]),
{
    let v = c[0] as u32;
    assert(v <= 0x7f);
    assert(!vstd::utf8::is_continuation_byte(vstd::utf8::leading_byte_width_1(v))) by (bit_vector);
}

/// On ASCII text the short form is a fixed point: it can be shortened, and
/// shortening it again gives it back unchanged.
pub proof fn lemma_shortened_ascii_idempotent(s: Seq<char>)
    requires
        vstd::utf8::is_ascii_chars(s),
    ensures
        shortenable(shortened(s)),
        shortened(shortened(s)) == shortened(s),
{
    lemma_shortened_ascii(s);
    if s.len() > 16 {
        let a = s.take(8);
        let c = s.skip(s.len() - 6);
        let e = seq![ellipsis()];
        let t = a + e + c;
        assert(vstd::utf8::is_ascii_chars(a)) by {
            assert forall|k: int| 0 <= k < a.len() implies '\0' <= #[trigger] a[k] <= '\u{7f}' by {
                assert(a[k] == s[k]);
            }
        }
        assert(vstd::utf8::is_ascii_chars(c)) by {
            assert forall|k: int| 0 <= k < c.len() implies '\0' <= #[trigger] c[k] <= '\u{7f}' by {
                assert(c[k] == s[s.len() - 6 + k]);
            }
        }
        lemma_encode_utf8_concat(a + e, c);
        lemma_encode_utf8_concat(a, e);
        vstd::utf8::is_ascii_chars_encode_utf8(a);
        vstd::utf8::is_ascii_chars_encode_utf8(c);
        lemma_encode_ellipsis();
        lemma_ascii_first_byte(c);
        let b = encode_utf8(t);
        assert(b == encode_utf8(a) + encode_utf8(e) + encode_utf8(c));
        assert(b.len() == 17);
        assert(b.subrange(0, 8) =~= encode_utf8(a));
        assert(b.subrange(11, 17) =~= encode_utf8(c));
        assert(b[8] == encode_utf8(e)[0]);
        assert(b[11] == encode_utf8(c)[0]);
        vstd::utf8::is_char_boundary_iff_not_is_continuation_byte(b, 8);
        vstd::utf8::is_char_boundary_iff_not_is_continuation_byte(b, 11);
        vstd::utf8::encode_utf8_decode_utf8(a);
        vstd::utf8::encode_utf8_decode_utf8(c);
    }
}

/// Short display form of a token address.
pub fn short_addr(addr: &str) -> (res: String)
    requires
        shortenable(addr@),
    ensures
        res@ == shortened(addr@),
{
    shorten(addr)
}

/// Short display form of an intent id: the same form, under the same
/// requirement, as `short_addr` gives an address.
pub fn short_id(id: &str) -> (res: String)
    requires
        shortenable(id@),
    ensures
        res@ == shortened(id@),
{
    shorten(id)
}

} // verus!

verus! {

/// How many US dollars one whole token is taken to be worth.
#[derive(Clone, Copy, Debug, PartialEq, Eq, Structural)]
pub enum UsdRate {
    /// No dollar value is known.
    Unknown,
    /// One token is one dollar.
    Par,
    /// The euro-dollar rate that the dashboard is configured with.
    EurUsd,
}

/// What the dashboard knows of a token.
#[derive(Clone, Copy, Debug)]
pub struct TokenInfo {
    pub symbol: &'static str,
    pub decimals: u8,
    pub is_stable_usd: bool,
    pub usd_per_token: UsdRate,
}

/// `TokenInfo` as mathematical values.
pub struct TokenInfoView {
    pub symbol: Seq<char>,
    pub decimals: u8,
    pub is_stable_usd: bool,
    pub usd_per_token: UsdRate,
}

impl View for TokenInfo {
    type V = TokenInfoView;

    open spec fn view(&self) -> TokenInfoView {
        TokenInfoView {
            symbol: self.symbol@,
            decimals: self.decimals,
            is_stable_usd: self.is_stable_usd,
            usd_per_token: self.usd_per_token,
        }
    }
}

/// The view of an optional token description.
pub open spec fn info_view(o: Option<TokenInfo>) -> Option<TokenInfoView> {
    match o {
        Some(i) => Some(i@),
        None => None,
    }
}

/// A registry entry.
pub open spec fn entry(symbol: &str, decimals: u8, stable: bool, rate: UsdRate) -> Option<
    TokenInfoView,
> {
    Some(TokenInfoView { symbol: symbol@, decimals, is_stable_usd: stable, usd_per_token: rate })
}

/// The network name that an optional network stands for.
pub open spec fn network_name(network: Option<&str>) -> Seq<char> {
    match network {
        Some(n) => n@,
        None => Seq::empty(),
    }
}

/// The token registry: what is known of the token at lowercase address
/// `addr` on network `net`. The zero address is native ether on every
/// network.
pub open spec fn registry(net: Seq<char>, addr: Seq<char>) -> Option<TokenInfoView> {
    if addr == "0x0000000000000000000000000000000000000000"@ {
        entry("ETH", 18, false, UsdRate::Unknown)
    } else if net == "ethereum-mainnet"@ {
        if addr == "0xa0b86991c6218b36c1d19d4a2e9eb0ce3606eb48"@ {
            entry("USDC", 6, true, UsdRate::Par)
        } else if addr == "0xdac17f958d2ee523a2206206994597c13d831ec7"@ {
            entry("USDT", 6, true, UsdRate::Par)
        } else if addr == "0x6b175474e89094c44da98b954eedeac495271d0f"@ {
            entry("DAI", 18, true, UsdRate::Par)
        } else if addr == "0xc02aaa39b223fe8d0a0e5c4f27ead9083c756cc2"@ {
            entry("WETH", 18, false, UsdRate::Unknown)
        } else if addr == "0x2260fac5e5542a773aa44fbcfedf7c193bc2c599"@ {
            entry("WBTC", 8, false, UsdRate::Unknown)
        } else if addr == "0x1f9840a85d5af5bf1d1762f925bdaddc4201f984"@ {
            entry("UNI", 18, false, UsdRate::Unknown)
        } else {
            None
        }
    } else if net == "base-mainnet"@ {
        if addr == "0x833589fcd6edb6e08f4c7c32d4f71b54bda02913"@ {
            entry("USDC", 6, true, UsdRate::Par)
        } else if addr == "0x60a3e35cc302bfa44cb288bc5a4f316fdb1adb42"@ {
            entry("EURC", 6, false, UsdRate::EurUsd)
        } else if addr == "0x4200000000000000000000000000000000000006"@ {
            entry("WETH", 18, false, UsdRate::Unknown)
        } else {
            None
        }
    } else {
        None
    }
}

/// The registry's records, each stated on its own: the zero address is
/// native ether (18 decimals, no dollar rate) on every network; on
/// ethereum-mainnet USDC and USDT have 6 decimals and DAI 18, all three
/// worth a dollar, and WETH (18), WBTC (8) and UNI (18) have no dollar
/// rate; on base-mainnet USDC has 6 decimals at a dollar, EURC 6 at the
/// euro rate, and WETH 18 without a rate. Any other address on those
/// networks, and every other address on any other network, is unknown; a
/// token is a dollar stablecoin exactly when it is worth one dollar.
pub proof fn lemma_registry_records(net: Seq<char>, addr: Seq<char>)
    ensures
        registry(net, "0x0000000000000000000000000000000000000000"@) == Some(
            TokenInfoView {
                symbol: "ETH"@,
                decimals: 18u8,
                is_stable_usd: false,
                usd_per_token: UsdRate::Unknown,
            },
        ),
        registry("ethereum-mainnet"@, "0xa0b86991c6218b36c1d19d4a2e9eb0ce3606eb48"@) == Some(
            TokenInfoView {
                symbol: "USDC"@,
                decimals: 6u8,
                is_stable_usd: true,
                usd_per_token: UsdRate::Par,
            },
        ),
        registry("ethereum-mainnet"@, "0xdac17f958d2ee523a2206206994597c13d831ec7"@) == Some(
            TokenInfoView {
                symbol: "USDT"@,
                decimals: 6u8,
                is_stable_usd: true,
                usd_per_token: UsdRate::Par,
            },
        ),
        registry("ethereum-mainnet"@, "0x6b175474e89094c44da98b954eedeac495271d0f"@) == Some(
            TokenInfoView {
                symbol: "DAI"@,
                decimals: 18u8,
                is_stable_usd: true,
                usd_per_token: UsdRate::Par,
            },
        ),
        registry("ethereum-mainnet"@, "0xc02aaa39b223fe8d0a0e5c4f27ead9083c756cc2"@) == Some(
            TokenInfoView {
                symbol: "WETH"@,
                decimals: 18u8,
                is_stable_usd: false,
                usd_per_token: UsdRate::Unknown,
            },
        ),
        registry("ethereum-mainnet"@, "0x2260fac5e5542a773aa44fbcfedf7c193bc2c599"@) == Some(
            TokenInfoView {
                symbol: "WBTC"@,
                decimals: 8u8,
                is_stable_usd: false,
                usd_per_token: UsdRate::Unknown,
            },
        ),
        registry("ethereum-mainnet"@, "0x1f9840a85d5af5bf1d1762f925bdaddc4201f984"@) == Some(
            TokenInfoView {
                symbol: "UNI"@,
                decimals: 18u8,
                is_stable_usd: false,
                usd_per_token: UsdRate::Unknown,
            },
        ),
        registry("base-mainnet"@, "0x833589fcd6edb6e08f4c7c32d4f71b54bda02913"@) == Some(
            TokenInfoView {
                symbol: "USDC"@,
                decimals: 6u8,
                is_stable_usd: true,
                usd_per_token: UsdRate::Par,
            },
        ),
        registry("base-mainnet"@, "0x60a3e35cc302bfa44cb288bc5a4f316fdb1adb42"@) == Some(
            TokenInfoView {
                symbol: "EURC"@,
                decimals: 6u8,
                is_stable_usd: false,
                usd_per_token: UsdRate::EurUsd,
            },
        ),
        registry("base-mainnet"@, "0x4200000000000000000000000000000000000006"@) == Some(
            TokenInfoView {
                symbol: "WETH"@,
                decimals: 18u8,
                is_stable_usd: false,
                usd_per_token: UsdRate::Unknown,
            },
        ),
        net != "ethereum-mainnet"@ && net != "base-mainnet"@ && addr
            != "0x0000000000000000000000000000000000000000"@ ==> registry(net, addr) is None,
        net == "ethereum-mainnet"@ && addr != "0x0000000000000000000000000000000000000000"@ && addr
            != "0xa0b86991c6218b36c1d19d4a2e9eb0ce3606eb48"@ && addr
            != "0xdac17f958d2ee523a2206206994597c13d831ec7"@ && addr
            != "0x6b175474e89094c44da98b954eedeac495271d0f"@ && addr
            != "0xc02aaa39b223fe8d0a0e5c4f27ead9083c756cc2"@ && addr
            != "0x2260fac5e5542a773aa44fbcfedf7c193bc2c599"@ && addr
            != "0x1f9840a85d5af5bf1d1762f925bdaddc4201f984"@ ==> registry(net, addr) is None,
        net == "base-mainnet"@ && addr != "0x0000000000000000000000000000000000000000"@ && addr
            != "0x833589fcd6edb6e08f4c7c32d4f71b54bda02913"@ && addr
            != "0x60a3e35cc302bfa44cb288bc5a4f316fdb1adb42"@ && addr
            != "0x4200000000000000000000000000000000000006"@ ==> registry(net, addr) is None,
        registry(net, addr) matches Some(info) ==> (info.is_stable_usd <==> info.usd_per_token
            == UsdRate::Par),
{
    reveal_strlit("0x0000000000000000000000000000000000000000");
    assert("0x0000000000000000000000000000000000000000"@[2] == '0');
    reveal_strlit("0x1f9840a85d5af5bf1d1762f925bdaddc4201f984");
    assert("0x1f9840a85d5af5bf1d1762f925bdaddc4201f984"@[2] == '1');
    reveal_strlit("0x2260fac5e5542a773aa44fbcfedf7c193bc2c599");
    assert("0x2260fac5e5542a773aa44fbcfedf7c193bc2c599"@[2] == '2');
    reveal_strlit("0x4200000000000000000000000000000000000006");
    assert("0x4200000000000000000000000000000000000006"@[2] == '4');
    reveal_strlit("0x60a3e35cc302bfa44cb288bc5a4f316fdb1adb42");
    assert("0x60a3e35cc302bfa44cb288bc5a4f316fdb1adb42"@[2] == '6');
    assert("0x60a3e35cc302bfa44cb288bc5a4f316fdb1adb42"@[3] == '0');
    reveal_strlit("0x6b175474e89094c44da98b954eedeac495271d0f");
    assert("0x6b175474e89094c44da98b954eedeac495271d0f"@[2] == '6');
    assert("0x6b175474e89094c44da98b954eedeac495271d0f"@[3] == 'b');
    reveal_strlit("0x833589fcd6edb6e08f4c7c32d4f71b54bda02913");
    assert("0x833589fcd6edb6e08f4c7c32d4f71b54bda02913"@[2] == '8');
    reveal_strlit("0xa0b86991c6218b36c1d19d4a2e9eb0ce3606eb48");
    assert("0xa0b86991c6218b36c1d19d4a2e9eb0ce3606eb48"@[2] == 'a');
    reveal_strlit("0xc02aaa39b223fe8d0a0e5c4f27ead9083c756cc2");
    assert("0xc02aaa39b223fe8d0a0e5c4f27ead9083c756cc2"@[2] == 'c');
    reveal_strlit("0xdac17f958d2ee523a2206206994597c13d831ec7");
    assert("0xdac17f958d2ee523a2206206994597c13d831ec7"@[2] == 'd');
    reveal_strlit("ethereum-mainnet");
    assert("ethereum-mainnet"@[0] == 'e');
    reveal_strlit("base-mainnet");
    assert("base-mainnet"@[0] == 'b');
}

/// What is known of the token at `address` on `network`, looked up by the
/// lowercase form of the address.
pub open spec fn token_lookup(network: Option<&str>, address: Seq<char>) -> Option<TokenInfoView> {
    registry(network_name(network), lowered(address))
}

fn info(symbol: &'static str, decimals: u8, stable: bool, rate: UsdRate) -> (res: Option<TokenInfo>)
    ensures
        info_view(res) == entry(symbol, decimals, stable, rate),
{
    Some(TokenInfo { symbol, decimals, is_stable_usd: stable, usd_per_token: rate })
}

/// Looks a token up in the registry.
pub fn token_info(network: Option<&str>, address: &str) -> (res: Option<TokenInfo>)
    ensures
        info_view(res) == token_lookup(network, address@),
{
    let net = match network {
        Some(n) => chars_of(n),
        None => Vec::new(),
    };
    assert(net@ =~= network_name(network));
    let lower = to_lowercase(address);
    let addr = chars_of(lower.as_str());
    if chars_eq_str(&addr, "0x0000000000000000000000000000000000000000") {
        return info("ETH", 18, false, UsdRate::Unknown);
    }
    if chars_eq_str(&net, "ethereum-mainnet") {
        if chars_eq_str(&addr, "0xa0b86991c6218b36c1d19d4a2e9eb0ce3606eb48") {
            return info("USDC", 6, true, UsdRate::Par);
        }
        if chars_eq_str(&addr, "0xdac17f958d2ee523a2206206994597c13d831ec7") {
            return info("USDT", 6, true, UsdRate::Par);
        }
        if chars_eq_str(&addr, "0x6b175474e89094c44da98b954eedeac495271d0f") {
            return info("DAI", 18, true, UsdRate::Par);
        }
        if chars_eq_str(&addr, "0xc02aaa39b223fe8d0a0e5c4f27ead9083c756cc2") {
            return info("WETH", 18, false, UsdRate::Unknown);
        }
        if chars_eq_str(&addr, "0x2260fac5e5542a773aa44fbcfedf7c193bc2c599") {
            return info("WBTC", 8, false, UsdRate::Unknown);
        }
        if chars_eq_str(&addr, "0x1f9840a85d5af5bf1d1762f925bdaddc4201f984") {
            return info("UNI", 18, false, UsdRate::Unknown);
        }
        return None;
    }
    if chars_eq_str(&net, "base-mainnet") {
        if chars_eq_str(&addr, "0x833589fcd6edb6e08f4c7c32d4f71b54bda02913") {
            return info("USDC", 6, true, UsdRate::Par);
        }
        if chars_eq_str(&addr, "0x60a3e35cc302bfa44cb288bc5a4f316fdb1adb42") {
            return info("EURC", 6, false, UsdRate::EurUsd);
        }
        if chars_eq_str(&addr, "0x4200000000000000000000000000000000000006") {
            return info("WETH", 18, false, UsdRate::Unknown);
        }
        return None;
    }
    None
}

/// Looking a token up ignores ASCII case: an ASCII address written in
/// capitals finds what the address itself finds.
pub proof fn lemma_token_lookup_ignores_ascii_case(network: Option<&str>, address: Seq<char>)
    requires
        vstd::utf8::is_ascii_chars(address),
    ensures
        token_lookup(network, ascii_upper(address)) == token_lookup(network, address),
{
    lemma_lowered_ignores_ascii_case(address);
}

/// The symbol, a colon and the short address for a known token; the
/// short address alone otherwise.
pub open spec fn token_label_text(network: Option<&str>, addr: Seq<char>) -> Seq<char> {
    match token_lookup(network, addr) {
        Some(info) => info.symbol + seq![':'] + shortened(addr),
        None => shortened(addr),
    }
}

/// Display label of a token: its symbol and short address.
pub fn token_label(network: Option<&str>, addr: &str) -> (res: String)
    requires
        shortenable(addr@),
    ensures
        res@ == token_label_text(network, addr@),
{
    match token_info(network, addr) {
        Some(info) => {
            let mut res = info.symbol.to_owned();
            res.append(":");
            let short = short_addr(addr);
            res.append(short.as_str());
            proof {
                reveal_strlit(":");
            }
            res
        },
        None => short_addr(addr),
    }
}

} // verus!
