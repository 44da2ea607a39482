use vstd::prelude::*;
use vstd::string::StringExecFns;

use crate::amount::{amount_text, atoms_value, format_amount_atoms, parse_atoms};
use crate::clock::{now_utc, MAX_UNIX_SECS};
use crate::state::EngineIntent;
use crate::text::{chars_of, decimal, int_decimal, lowered, parse_u128, parse_u128_chars, string_of};
use crate::token::{
    can_shorten, network_name, registry, short_id, shortenable, shortened, token_info, token_label,
    TokenInfoView, UsdRate,
};

verus! {

broadcast use vstd::string::group_string_axioms;

/// The characters of an optional string, when it is there.
pub open spec fn text_of(o: Option<String>) -> Option<Seq<char>> {
    match o {
        Some(s) => Some(s@),
        None => None,
    }
}

/// The amount at fraction `t / d` of the way from `s` to `e`, rounded
/// toward `s`.
pub open spec fn interpolated(s: nat, e: nat, t: nat, d: nat) -> nat {
    if s >= e {
        (s - ((s - e) * t) / (d as int)) as nat
    } else {
        (s + ((e - s) * t) / (d as int)) as nat
    }
}

/// The current buy amount of a Dutch auction at second `now`: the start
/// amount until the decay starts, the end amount once it has ended (or when
/// it ends no later than it starts), and in between the amount interpolated
/// linearly in whole base units. `None` when a field is missing or, in
/// between, when an amount does not parse as a `u128`.
pub open spec fn buy_now_text(intent: EngineIntent, now: int) -> Option<Seq<char>> {
    match (
        intent.buy_amount_start,
        intent.buy_amount_end,
        intent.decay_start_unix,
        intent.decay_end_unix,
    ) {
        (Some(start), Some(end), Some(ds), Some(de)) => if ds >= de {
            Some(end@)
        } else if now <= ds {
            Some(start@)
        } else if now >= de {
            Some(end@)
        } else {
            match (parse_u128(start@), parse_u128(end@)) {
                (Some(s), Some(e)) => Some(
                    decimal(interpolated(s as nat, e as nat, (now - ds) as nat, (de - ds) as nat)),
                ),
                _ => None,
            }
        },
        _ => None,
    }
}

/// The arithmetic of `buy_now_text` at `now` stays in range: when both
/// amounts parse inside the decay window, the window's length fits an
/// `i64`, and the amount difference times the time elapsed fits a `u128`.
pub open spec fn buy_now_in_range(intent: EngineIntent, now: int) -> bool {
    match (
        intent.buy_amount_start,
        intent.buy_amount_end,
        intent.decay_start_unix,
        intent.decay_end_unix,
    ) {
        (Some(start), Some(end), Some(ds), Some(de)) => (ds < now < de) ==> match (
            parse_u128(start@),
            parse_u128(end@),
        ) {
            (Some(s), Some(e)) => {
                &&& de - ds <= i64::MAX
                &&& if s >= e {
                    (s - e) * (now - ds) <= u128::MAX
                } else {
                    (e - s) * (now - ds) <= u128::MAX
                }
            },
            _ => true,
        },
        _ => true,
    }
}

/// A fraction below one of a non-negative amount is at most the amount.
pub proof fn lemma_fraction_le(x: int, t: int, d: int)
    requires
        0 <= x,
        0 <= t < d,
    ensures
        0 <= (x * t) / d <= x,
{
    assert(x * t <= x * d) by (nonlinear_arith)
        requires
            0 <= x,
            0 <= t < d,
    ;
    assert(0 <= x * t) by (nonlinear_arith)
        requires
            0 <= x,
            0 <= t,
    ;
    vstd::arithmetic::div_mod::lemma_div_is_ordered(x * t, x * d, d);
    vstd::arithmetic::div_mod::lemma_div_multiples_vanish(x, d);
    vstd::arithmetic::div_mod::lemma_div_pos_is_pos(x * t, d);
    assert(x * d == d * x) by (nonlinear_arith);
}

/// The current buy amount, in base units, of a Dutch-auction intent at
/// second `now` (Unix time).
pub fn buy_now_atoms_at(intent: &EngineIntent, now: i64) -> (res: Option<String>)
    requires
        buy_now_in_range(*intent, now as int),
    ensures
        text_of(res) == buy_now_text(*intent, now as int),
{
    let start = match &intent.buy_amount_start {
        Some(s) => s,
        None => return None,
    };
    let end = match &intent.buy_amount_end {
        Some(s) => s,
        None => return None,
    };
    let ds = match intent.decay_start_unix {
        Some(v) => v,
        None => return None,
    };
    let de = match intent.decay_end_unix {
        Some(v) => v,
        None => return None,
    };
    if ds >= de {
        return Some(end.clone());
    }
    if now <= ds {
        return Some(start.clone());
    }
    if now >= de {
        return Some(end.clone());
    }
    let s = match parse_u128_chars(&chars_of(start.as_str())) {
        Some(v) => v,
        None => return None,
    };
    let e = match parse_u128_chars(&chars_of(end.as_str())) {
        Some(v) => v,
        None => return None,
    };
    let t_num = (now - ds) as u128;
    let t_den = (de - ds) as u128;
    let cur = if s >= e {
        let drop = (s - e) * t_num / t_den;
        proof {
            lemma_fraction_le((s - e) as int, t_num as int, t_den as int);
        }
        s - drop
    } else {
        let rise = (e - s) * t_num / t_den;
        proof {
            lemma_fraction_le((e - s) as int, t_num as int, t_den as int);
        }
        s + rise
    };
    Some(string_of(&crate::text::decimal_u128(cur)))
}

/// The current buy amount, reading the system clock for the time.
pub fn buy_now_atoms(intent: &EngineIntent) -> (res: Option<String>)
    requires
        forall|now: int| 0 <= now <= MAX_UNIX_SECS ==> #[trigger] buy_now_in_range(*intent, now),
    ensures
        exists|now: int|
            0 <= now <= MAX_UNIX_SECS && text_of(res) == #[trigger] buy_now_text(*intent, now),
{
    let now = now_utc().secs;
    buy_now_atoms_at(intent, now)
}

/// An optional string's characters, empty when it is missing.
pub open spec fn text_or_empty(o: Option<String>) -> Seq<char> {
    match o {
        Some(s) => s@,
        None => Seq::empty(),
    }
}

fn as_str_opt(o: &Option<String>) -> (res: Option<&str>)
    ensures
        network_name(res) == text_or_empty(*o),
        text_of(*o) == match res {
            Some(r) => Some(r@),
            None => None::<Seq<char>>,
        },
{
    match o {
        Some(s) => Some(s.as_str()),
        None => None,
    }
}

fn str_or_empty(o: &Option<String>) -> (res: &str)
    ensures
        res@ == text_or_empty(*o),
{
    match o {
        Some(s) => s.as_str(),
        None => {
            proof {
                reveal_strlit("");
            }
            ""
        },
    }
}

/// The decimals of a known token.
pub open spec fn decimals_of(info: Option<crate::token::TokenInfoView>) -> Option<u8> {
    match info {
        Some(t) => Some(t.decimals),
        None => None,
    }
}

/// The buy token's lookup in the registry for an intent.
pub open spec fn buy_token_info(i: EngineIntent) -> Option<crate::token::TokenInfoView> {
    registry(text_or_empty(i.network), lowered(text_or_empty(i.buy_token)))
}

/// The range of the buy amount over a Dutch auction, `start→end` in whole
/// tokens; empty when either end is missing or empty.
pub open spec fn buy_range_text(i: EngineIntent) -> Seq<char> {
    let start = text_or_empty(i.buy_amount_start);
    let end = text_or_empty(i.buy_amount_end);
    if start.len() == 0 || end.len() == 0 {
        Seq::empty()
    } else {
        let d = decimals_of(buy_token_info(i));
        amount_text(start, d) + seq!['\u{2192}'] + amount_text(end, d)
    }
}

/// The buy amount's range over a Dutch auction, for display.
pub fn buy_range_human(intent: &EngineIntent) -> (res: String)
    ensures
        res@ == buy_range_text(*intent),
{
    let net = as_str_opt(&intent.network);
    let buy_addr = str_or_empty(&intent.buy_token);
    let buy_info = token_info(net, buy_addr);
    let start = str_or_empty(&intent.buy_amount_start);
    let end = str_or_empty(&intent.buy_amount_end);
    if start.is_empty() || end.is_empty() {
        return String::new();
    }
    let d = match buy_info {
        Some(t) => Some(t.decimals),
        None => None,
    };
    assert(d == decimals_of(buy_token_info(*intent)));
    let mut res = format_amount_atoms(start, d);
    res.append("\u{2192}");
    let e = format_amount_atoms(end, d);
    res.append(e.as_str());
    proof {
        reveal_strlit("\u{2192}");
    }
    res
}

/// `n` in decimal, at least two digits wide, padded with a leading zero.
pub open spec fn pad2(n: nat) -> Seq<char> {
    if n < 10 {
        seq!['0'] + decimal(n)
    } else {
        decimal(n)
    }
}

/// Time left until the decay ends, as `MM:SS` (minutes may run past two
/// digits); zero once it has ended; empty when no end is known.
pub open spec fn decay_text(i: EngineIntent, now: int) -> Seq<char> {
    match i.decay_end_unix {
        None => Seq::empty(),
        Some(de) => {
            let rem = if de - now > 0 { de - now } else { 0 };
            pad2((rem / 60) as nat) + seq![':'] + pad2((rem % 60) as nat)
        },
    }
}

/// The span until the decay ends fits an `i64`.
pub open spec fn decay_in_range(i: EngineIntent, now: int) -> bool {
    match i.decay_end_unix {
        None => true,
        Some(de) => i64::MIN <= de - now <= i64::MAX,
    }
}

fn pad2_chars(n: i64, out: &mut Vec<char>)
    requires
        n >= 0,
    ensures
        final(out)@ == old(out)@ + pad2(n as nat),
{
    if n < 10 {
        out.push('0');
    }
    let d = crate::text::decimal_u128(n as u128);
    let mut i: usize = 0;
    let ghost pre = out@;
    while i < d.len()
        invariant
            i <= d@.len(),
            out@ == pre + d@.take(i as int),
        decreases d.len() - i,
    {
        out.push(d[i]);
        assert(d@.take(i + 1) =~= d@.take(i as int).push(d@[i as int]));
        i += 1;
    }
    assert(d@.take(d@.len() as int) =~= d@);
    assert(out@ =~= old(out)@ + pad2(n as nat));
}

/// Time left until the Dutch-auction decay ends, at second `now`.
pub fn decay_remaining_at(intent: &EngineIntent, now: i64) -> (res: String)
    requires
        decay_in_range(*intent, now as int),
    ensures
        res@ == decay_text(*intent, now as int),
{
    let de = match intent.decay_end_unix {
        Some(v) => v,
        None => return String::new(),
    };
    let diff = de - now;
    let rem = if diff > 0 { diff } else { 0 };
    let mut out: Vec<char> = Vec::new();
    pad2_chars(rem / 60, &mut out);
    out.push(':');
    pad2_chars(rem % 60, &mut out);
    assert(out@ =~= decay_text(*intent, now as int));
    string_of(&out)
}

/// Time left until the decay ends, reading the system clock.
pub fn decay_remaining(intent: &EngineIntent) -> (res: String)
    requires
        forall|now: int| 0 <= now <= MAX_UNIX_SECS ==> #[trigger] decay_in_range(*intent, now),
    ensures
        exists|now: int| 0 <= now <= MAX_UNIX_SECS && res@ == #[trigger] decay_text(*intent, now),
{
    let now = now_utc().secs;
    decay_remaining_at(intent, now)
}

/// The exclusivity flag: `EXCL` and the seconds left while a filler holds
/// exclusivity, `EXCL` alone when no end is given, empty otherwise.
pub open spec fn excl_text(i: EngineIntent, now: int) -> Seq<char> {
    match i.exclusive_filler {
        Some(ex) if ex@.len() > 0 => match i.exclusive_until_unix {
            None => "EXCL"@,
            Some(until) => if now >= until {
                Seq::empty()
            } else {
                "EXCL "@ + int_decimal(until - now) + seq!['s']
            },
        },
        _ => Seq::empty(),
    }
}

/// The time left of exclusivity fits an `i64`.
pub open spec fn excl_in_range(i: EngineIntent, now: int) -> bool {
    match i.exclusive_until_unix {
        None => true,
        Some(until) => now < until ==> until - now <= i64::MAX,
    }
}

/// The exclusivity flag of an intent at second `now`.
pub fn excl_flag_at(intent: &EngineIntent, now: i64) -> (res: String)
    requires
        excl_in_range(*intent, now as int),
    ensures
        res@ == excl_text(*intent, now as int),
{
    let ex = str_or_empty(&intent.exclusive_filler);
    if ex.is_empty() {
        return String::new();
    }
    let until = match intent.exclusive_until_unix {
        Some(v) => v,
        None => return "EXCL".to_owned(),
    };
    if now >= until {
        return String::new();
    }
    let rem = until - now;
    let mut res = "EXCL ".to_owned();
    let d = string_of(&crate::text::decimal_i64(rem));
    res.append(d.as_str());
    res.append("s");
    proof {
        reveal_strlit("s");
    }
    res
}

/// The exclusivity flag, reading the system clock.
pub fn excl_flag(intent: &EngineIntent) -> (res: String)
    ensures
        exists|now: int| 0 <= now <= MAX_UNIX_SECS && res@ == #[trigger] excl_text(*intent, now),
{
    let now = now_utc().secs;
    excl_flag_at(intent, now)
}

/// How the dashboard gets the dollar value of an intent: ready text, or a
/// token amount to convert with the token's dollar rate (the conversion is
/// floating point, done by the caller: atoms / 10^decimals * rate, shown
/// as `$` and the value rounded to cents with thousands grouped).
#[derive(Debug)]
pub enum UsdPlan {
    Text(String),
    Convert { atoms: u128, decimals: u8, rate: UsdRate },
}

/// `UsdPlan` as mathematical values.
pub enum UsdPlanView {
    Text(Seq<char>),
    Convert { atoms: u128, decimals: u8, rate: UsdRate },
}

impl View for UsdPlan {
    type V = UsdPlanView;

    open spec fn view(&self) -> UsdPlanView {
        match self {
            UsdPlan::Text(t) => UsdPlanView::Text(t@),
            UsdPlan::Convert { atoms, decimals, rate } => UsdPlanView::Convert {
                atoms: *atoms,
                decimals: *decimals,
                rate: *rate,
            },
        }
    }
}

/// The dollar value read from one side of an intent (a token and an
/// amount), or `None` to look at the other side: a dollar stablecoin's
/// amount is dollars (`$` and the amount in whole tokens, or empty text
/// when that is empty); a token with a dollar rate is converted when its
/// amount parses.
pub open spec fn usd_side(net: Seq<char>, token: Option<String>, amount: Option<String>) -> Option<
    UsdPlanView,
> {
    match (token, amount) {
        (Some(tk), Some(am)) => match registry(net, lowered(tk@)) {
            Some(info) => if info.is_stable_usd {
                let v = amount_text(am@, Some(info.decimals));
                Some(
                    UsdPlanView::Text(
                        if v.len() == 0 {
                            Seq::empty()
                        } else {
                            seq!['$'] + v
                        },
                    ),
                )
            } else if info.usd_per_token != UsdRate::Unknown {
                match atoms_value(am@) {
                    Some(q) => Some(
                        UsdPlanView::Convert {
                            atoms: q,
                            decimals: info.decimals,
                            rate: info.usd_per_token,
                        },
                    ),
                    None => None,
                }
            } else {
                None
            },
            None => None,
        },
        _ => None,
    }
}

/// The dollar value of an intent: from its minimum buy, else from its sell
/// side, else nothing.
pub open spec fn usd_plan(i: EngineIntent) -> UsdPlanView {
    let net = text_or_empty(i.network);
    match usd_side(net, i.buy_token, i.min_buy_amount) {
        Some(p) => p,
        None => match usd_side(net, i.sell_token, i.sell_amount) {
            Some(p) => p,
            None => UsdPlanView::Text(Seq::empty()),
        },
    }
}

fn usd_side_exec(net: Option<&str>, token: &Option<String>, amount: &Option<String>) -> (res: Option<
    UsdPlan,
>)
    ensures
        match res {
            Some(p) => Some(p@),
            None => None::<UsdPlanView>,
        } == usd_side(network_name(net), *token, *amount),
{
    let (tk, am) = match (token, amount) {
        (Some(tk), Some(am)) => (tk, am),
        _ => return None,
    };
    let info = match token_info(net, tk.as_str()) {
        Some(info) => info,
        None => return None,
    };
    if info.is_stable_usd {
        let v = format_amount_atoms(am.as_str(), Some(info.decimals));
        if v.as_str().is_empty() {
            return Some(UsdPlan::Text(String::new()));
        }
        let mut t = "$".to_owned();
        t.append(v.as_str());
        proof {
            reveal_strlit("$");
            assert(t@ =~= seq!['$'] + v@);
        }
        return Some(UsdPlan::Text(t));
    }
    if info.usd_per_token != UsdRate::Unknown {
        match parse_atoms(am.as_str()) {
            Some(q) => {
                return Some(
                    UsdPlan::Convert { atoms: q, decimals: info.decimals, rate: info.usd_per_token },
                );
            },
            None => {
                return None;
            },
        }
    }
    None
}

/// Plans the dollar value shown for an intent.
pub fn usd_estimate_plan(intent: &EngineIntent) -> (res: UsdPlan)
    ensures
        res@ == usd_plan(*intent),
{
    let net = as_str_opt(&intent.network);
    match usd_side_exec(net, &intent.buy_token, &intent.min_buy_amount) {
        Some(p) => p,
        None => match usd_side_exec(net, &intent.sell_token, &intent.sell_amount) {
            Some(p) => p,
            None => UsdPlan::Text(String::new()),
        },
    }
}

/// The token on one side of an intent is known on `net` and is a dollar
/// stablecoin, and the side has an amount.
pub open spec fn stable_side(net: Seq<char>, token: Option<String>, amount: Option<String>) -> bool {
    &&& token is Some
    &&& amount is Some
    &&& registry(net, lowered(token->0@)) matches Some(info) && info.is_stable_usd
}

/// The token on one side of an intent is known on `net`, is not a
/// stablecoin but has a dollar rate, and the side's amount parses.
pub open spec fn rated_side(net: Seq<char>, token: Option<String>, amount: Option<String>) -> bool {
    &&& token is Some
    &&& amount is Some
    &&& registry(net, lowered(token->0@)) matches Some(info) && !info.is_stable_usd
        && info.usd_per_token != UsdRate::Unknown
    &&& atoms_value(amount->0@) is Some
}

/// The registry's record of the token on one side, when there is one.
pub open spec fn side_info(net: Seq<char>, token: Option<String>) -> TokenInfoView {
    registry(net, lowered(token->0@))->0
}

/// The dollar estimate of an intent looks at the buy side first: a
/// stablecoin's minimum buy amount is the estimate (in whole tokens after a
/// `$`, or empty when the amount shows empty); a dollar-rated token's
/// parsed amount is converted at its rate. Otherwise the buy side has no
/// dollar value and the estimate is what it would be without a buy token:
/// from the sell side in the same way, else empty.
pub proof fn lemma_usd_plan_sides(i: EngineIntent)
    ensures
        ({
            let net = text_or_empty(i.network);
            let bi = side_info(net, i.buy_token);
            let si = side_info(net, i.sell_token);
            let bv = amount_text(i.min_buy_amount->0@, Some(bi.decimals));
            let sv = amount_text(i.sell_amount->0@, Some(si.decimals));
            &&& stable_side(net, i.buy_token, i.min_buy_amount) ==> usd_plan(i) == UsdPlanView::Text(
                if bv.len() == 0 {
                    Seq::empty()
                } else {
                    seq!['$'] + bv
                },
            )
            &&& rated_side(net, i.buy_token, i.min_buy_amount) ==> usd_plan(i) == UsdPlanView::Convert {
                atoms: atoms_value(i.min_buy_amount->0@)->0,
                decimals: bi.decimals,
                rate: bi.usd_per_token,
            }
            &&& !stable_side(net, i.buy_token, i.min_buy_amount) && !rated_side(
                net,
                i.buy_token,
                i.min_buy_amount,
            ) ==> usd_plan(i) == usd_plan(EngineIntent { buy_token: None, ..i })
            &&& i.buy_token is None && stable_side(net, i.sell_token, i.sell_amount) ==> usd_plan(i)
                == UsdPlanView::Text(
                if sv.len() == 0 {
                    Seq::empty()
                } else {
                    seq!['$'] + sv
                },
            )
            &&& i.buy_token is None && rated_side(net, i.sell_token, i.sell_amount) ==> usd_plan(i)
                == UsdPlanView::Convert {
                atoms: atoms_value(i.sell_amount->0@)->0,
                decimals: si.decimals,
                rate: si.usd_per_token,
            }
            &&& i.buy_token is None && !stable_side(net, i.sell_token, i.sell_amount) && !rated_side(
                net,
                i.sell_token,
                i.sell_amount,
            ) ==> usd_plan(i) == UsdPlanView::Text(Seq::empty())
        }),
{
}

/// How the dashboard gets an intent's limit price, in dollars per unit of
/// the non-dollar token: the caller divides the dollar amount
/// (`usd_atoms` / 10^`usd_decimals` * `rate`) by the token amount
/// (`qty_atoms` / 10^`qty_decimals`), and shows `$`, the price rounded to
/// cents with thousands grouped, `/` and `unit`.
#[derive(Debug)]
pub enum PricePlan {
    Nothing,
    Price { usd_atoms: u128, usd_decimals: u8, rate: UsdRate, qty_atoms: u128, qty_decimals: u8, unit: &'static str },
}

/// `PricePlan` as mathematical values.
pub enum PricePlanView {
    Nothing,
    Price { usd_atoms: u128, usd_decimals: u8, rate: UsdRate, qty_atoms: u128, qty_decimals: u8, unit: Seq<char> },
}

impl View for PricePlan {
    type V = PricePlanView;

    open spec fn view(&self) -> PricePlanView {
        match self {
            PricePlan::Nothing => PricePlanView::Nothing,
            PricePlan::Price { usd_atoms, usd_decimals, rate, qty_atoms, qty_decimals, unit } =>
                PricePlanView::Price {
                usd_atoms: *usd_atoms,
                usd_decimals: *usd_decimals,
                rate: *rate,
                qty_atoms: *qty_atoms,
                qty_decimals: *qty_decimals,
                unit: unit@,
            },
        }
    }
}

/// The limit price read with the dollar side `usd` (token and amount) and
/// the other side `qty`, or `None` to try the other way round: when both
/// tokens are known, the dollar side is a stablecoin (rate one) or has a
/// dollar rate, both amounts parse and the other amount is not zero.
pub open spec fn price_side(
    net: Seq<char>,
    usd_token: Option<String>,
    usd_amount: Option<String>,
    qty_token: Option<String>,
    qty_amount: Option<String>,
) -> Option<PricePlanView> {
    match (usd_token, usd_amount, qty_token, qty_amount) {
        (Some(ut), Some(ua), Some(qt), Some(qa)) => match (
            registry(net, lowered(ut@)),
            registry(net, lowered(qt@)),
        ) {
            (Some(ui), Some(qi)) => {
                let rate = if ui.is_stable_usd {
                    UsdRate::Par
                } else {
                    ui.usd_per_token
                };
                if rate == UsdRate::Unknown {
                    None
                } else {
                    match (atoms_value(ua@), atoms_value(qa@)) {
                        (Some(u), Some(q)) => if q > 0 {
                            Some(
                                PricePlanView::Price {
                                    usd_atoms: u,
                                    usd_decimals: ui.decimals,
                                    rate,
                                    qty_atoms: q,
                                    qty_decimals: qi.decimals,
                                    unit: qi.symbol,
                                },
                            )
                        } else {
                            None
                        },
                        _ => None,
                    }
                }
            },
            _ => None,
        },
        _ => None,
    }
}

/// The limit price of an intent: priced by its buy side (dollars per sell
/// token), else by its sell side (dollars per buy token), else nothing.
pub open spec fn price_plan(i: EngineIntent) -> PricePlanView {
    let net = text_or_empty(i.network);
    match price_side(net, i.buy_token, i.min_buy_amount, i.sell_token, i.sell_amount) {
        Some(p) => p,
        None => match price_side(net, i.sell_token, i.sell_amount, i.buy_token, i.min_buy_amount) {
            Some(p) => p,
            None => PricePlanView::Nothing,
        },
    }
}

fn price_side_exec(
    net: Option<&str>,
    usd_token: &Option<String>,
    usd_amount: &Option<String>,
    qty_token: &Option<String>,
    qty_amount: &Option<String>,
) -> (res: Option<PricePlan>)
    ensures
        match res {
            Some(p) => Some(p@),
            None => None::<PricePlanView>,
        } == price_side(network_name(net), *usd_token, *usd_amount, *qty_token, *qty_amount),
{
    let (ut, ua, qt, qa) = match (usd_token, usd_amount, qty_token, qty_amount) {
        (Some(ut), Some(ua), Some(qt), Some(qa)) => (ut, ua, qt, qa),
        _ => return None,
    };
    let (ui, qi) = match (token_info(net, ut.as_str()), token_info(net, qt.as_str())) {
        (Some(ui), Some(qi)) => (ui, qi),
        _ => return None,
    };
    let rate = if ui.is_stable_usd {
        UsdRate::Par
    } else {
        ui.usd_per_token
    };
    if rate == UsdRate::Unknown {
        return None;
    }
    match (parse_atoms(ua.as_str()), parse_atoms(qa.as_str())) {
        (Some(u), Some(q)) => {
            if q > 0 {
                Some(
                    PricePlan::Price {
                        usd_atoms: u,
                        usd_decimals: ui.decimals,
                        rate,
                        qty_atoms: q,
                        qty_decimals: qi.decimals,
                        unit: qi.symbol,
                    },
                )
            } else {
                None
            }
        },
        _ => None,
    }
}

/// Plans the limit price shown for an intent.
pub fn limit_price_plan(intent: &EngineIntent) -> (res: PricePlan)
    ensures
        res@ == price_plan(*intent),
{
    let net = as_str_opt(&intent.network);
    match price_side_exec(
        net,
        &intent.buy_token,
        &intent.min_buy_amount,
        &intent.sell_token,
        &intent.sell_amount,
    ) {
        Some(p) => p,
        None => match price_side_exec(
            net,
            &intent.sell_token,
            &intent.sell_amount,
            &intent.buy_token,
            &intent.min_buy_amount,
        ) {
            Some(p) => p,
            None => PricePlan::Nothing,
        },
    }
}

/// The limit price can be read with `usd` as the dollar side and `qty` as
/// the other: both tokens are known on `net`, the dollar-side token is a
/// stablecoin or has a dollar rate, both amounts parse and the other
/// amount is not zero.
pub open spec fn priced_by(
    net: Seq<char>,
    usd_token: Option<String>,
    usd_amount: Option<String>,
    qty_token: Option<String>,
    qty_amount: Option<String>,
) -> bool {
    &&& usd_token is Some && usd_amount is Some && qty_token is Some && qty_amount is Some
    &&& registry(net, lowered(usd_token->0@)) matches Some(ui) && (ui.is_stable_usd
        || ui.usd_per_token != UsdRate::Unknown)
    &&& registry(net, lowered(qty_token->0@)) is Some
    &&& atoms_value(usd_amount->0@) is Some
    &&& atoms_value(qty_amount->0@) matches Some(q) && q > 0
}

/// `i` with its buy and sell sides exchanged.
pub open spec fn sides_swapped(i: EngineIntent) -> EngineIntent {
    EngineIntent {
        buy_token: i.sell_token,
        min_buy_amount: i.sell_amount,
        sell_token: i.buy_token,
        sell_amount: i.min_buy_amount,
        ..i
    }
}

/// The limit price is read with the buy side as the dollar side when it
/// can be: the price plan then carries the minimum buy amount and the buy
/// token's decimals, the rate one for a stablecoin and otherwise the buy
/// token's own dollar rate, and the sell amount, decimals and symbol as
/// the unit. When it cannot, the plan is the one with the sides exchanged,
/// and when neither way can, there is no price.
pub proof fn lemma_price_plan_sides(i: EngineIntent)
    ensures
        ({
            let net = text_or_empty(i.network);
            let bi = side_info(net, i.buy_token);
            let si = side_info(net, i.sell_token);
            &&& priced_by(net, i.buy_token, i.min_buy_amount, i.sell_token, i.sell_amount)
                ==> price_plan(i) == PricePlanView::Price {
                usd_atoms: atoms_value(i.min_buy_amount->0@)->0,
                usd_decimals: bi.decimals,
                rate: if bi.is_stable_usd {
                    UsdRate::Par
                } else {
                    bi.usd_per_token
                },
                qty_atoms: atoms_value(i.sell_amount->0@)->0,
                qty_decimals: si.decimals,
                unit: si.symbol,
            }
            &&& !priced_by(net, i.buy_token, i.min_buy_amount, i.sell_token, i.sell_amount)
                ==> price_plan(i) == price_plan(sides_swapped(i))
            &&& !priced_by(net, i.buy_token, i.min_buy_amount, i.sell_token, i.sell_amount)
                && !priced_by(net, i.sell_token, i.sell_amount, i.buy_token, i.min_buy_amount)
                ==> price_plan(i) == PricePlanView::Nothing
        }),
{
}

/// The text cells of one dashboard row, except the two dollar cells (see
/// `usd_estimate_plan` and `limit_price_plan`).
#[derive(Debug)]
pub struct RowText {
    pub source: String,
    pub ttl: String,
    pub sell: String,
    pub buy: String,
    pub sell_amount: String,
    pub buy_now: String,
    pub buy_range: String,
    pub decay: String,
    pub excl: String,
    pub id: String,
}

/// The sell token's lookup in the registry for an intent.
pub open spec fn sell_token_info(i: EngineIntent) -> Option<crate::token::TokenInfoView> {
    registry(text_or_empty(i.network), lowered(text_or_empty(i.sell_token)))
}

/// What a row needs to be built at second `now` without panicking.
pub open spec fn row_buildable(i: EngineIntent, now: int) -> bool {
    &&& shortenable(text_or_empty(i.sell_token))
    &&& shortenable(text_or_empty(i.buy_token))
    &&& shortenable(i.id@)
    &&& buy_now_in_range(i, now)
    &&& decay_in_range(i, now)
    &&& excl_in_range(i, now)
}

/// The label of a token by its address on the intent's network.
pub open spec fn label_text(i: EngineIntent, addr: Seq<char>) -> Seq<char> {
    match registry(text_or_empty(i.network), lowered(addr)) {
        Some(info) => info.symbol + seq![':'] + shortened(addr),
        None => shortened(addr),
    }
}

/// The buy amount shown now: the auction's current amount, else the
/// minimum buy amount, in whole buy tokens.
pub open spec fn buy_now_cell(i: EngineIntent, now: int) -> Seq<char> {
    let raw = match buy_now_text(i, now) {
        Some(t) => t,
        None => text_or_empty(i.min_buy_amount),
    };
    amount_text(raw, decimals_of(buy_token_info(i)))
}

/// A dashboard row for intent `i` at second `now`.
pub open spec fn row_matches(r: RowText, i: EngineIntent, now: int) -> bool {
    &&& r.source@ == i.source@
    &&& r.ttl@ == decimal((if i.ttl_seconds > 0 { i.ttl_seconds as int } else { 0 }) as nat)
    &&& r.sell@ == label_text(i, text_or_empty(i.sell_token))
    &&& r.buy@ == label_text(i, text_or_empty(i.buy_token))
    &&& r.sell_amount@ == amount_text(text_or_empty(i.sell_amount), decimals_of(sell_token_info(i)))
    &&& r.buy_now@ == buy_now_cell(i, now)
    &&& r.buy_range@ == buy_range_text(i)
    &&& r.decay@ == decay_text(i, now)
    &&& r.excl@ == excl_text(i, now)
    &&& r.id@ == shortened(i.id@)
}

/// Builds the text cells of the dashboard row for an intent at second
/// `now`.
pub fn dashboard_row_at(intent: &EngineIntent, now: i64) -> (res: RowText)
    requires
        row_buildable(*intent, now as int),
    ensures
        row_matches(res, *intent, now as int),
{
    let ttl_v: i64 = if intent.ttl_seconds > 0 { intent.ttl_seconds } else { 0 };
    let ttl = string_of(&crate::text::decimal_u128(ttl_v as u128));
    let net = as_str_opt(&intent.network);
    let sell_addr = str_or_empty(&intent.sell_token);
    let buy_addr = str_or_empty(&intent.buy_token);
    let sell_dec = match token_info(net, sell_addr) {
        Some(t) => Some(t.decimals),
        None => None,
    };
    let buy_dec = match token_info(net, buy_addr) {
        Some(t) => Some(t.decimals),
        None => None,
    };
    let sell_amount = format_amount_atoms(str_or_empty(&intent.sell_amount), sell_dec);
    let buy_now_raw = match buy_now_atoms_at(intent, now) {
        Some(t) => t,
        None => str_or_empty(&intent.min_buy_amount).to_owned(),
    };
    let buy_now = format_amount_atoms(buy_now_raw.as_str(), buy_dec);
    RowText {
        source: intent.source.clone(),
        ttl,
        sell: token_label(net, sell_addr),
        buy: token_label(net, buy_addr),
        sell_amount,
        buy_now,
        buy_range: buy_range_human(intent),
        decay: decay_remaining_at(intent, now),
        excl: excl_flag_at(intent, now),
        id: short_id(intent.id.as_str()),
    }
}

/// Builds a dashboard row, reading the system clock for the time.
pub fn dashboard_row(intent: &EngineIntent) -> (res: RowText)
    requires
        forall|now: int| 0 <= now <= MAX_UNIX_SECS ==> #[trigger] row_buildable(*intent, now),
    ensures
        exists|now: int| 0 <= now <= MAX_UNIX_SECS && #[trigger] row_matches(res, *intent, now),
{
    let now = now_utc().secs;
    dashboard_row_at(intent, now)
}

/// The current amount of a Dutch auction lies between its start and end
/// amounts.
pub proof fn lemma_interpolated_between(s: nat, e: nat, t: nat, d: nat)
    requires
        t < d,
    ensures
        s >= e ==> e <= interpolated(s, e, t, d) <= s,
        s < e ==> s <= interpolated(s, e, t, d) <= e,
{
    if s >= e {
        lemma_fraction_le(s - e, t as int, d as int);
    } else {
        lemma_fraction_le(e - s, t as int, d as int);
    }
}

/// Tests `row_buildable`: whether `dashboard_row_at` can build the row of
/// `intent` at second `now`.
pub fn row_buildable_at(intent: &EngineIntent, now: i64) -> (res: bool)
    ensures
        res == row_buildable(*intent, now as int),
{
    if !can_shorten(str_or_empty(&intent.sell_token)) || !can_shorten(str_or_empty(&intent.buy_token))
        || !can_shorten(intent.id.as_str()) {
        return false;
    }
    let buy_ok = match (
        &intent.buy_amount_start,
        &intent.buy_amount_end,
        intent.decay_start_unix,
        intent.decay_end_unix,
    ) {
        (Some(start), Some(end), Some(ds), Some(de)) => {
            if ds < now && now < de {
                match (
                    parse_u128_chars(&chars_of(start.as_str())),
                    parse_u128_chars(&chars_of(end.as_str())),
                ) {
                    (Some(s), Some(e)) => {
                        if de as i128 - ds as i128 > i64::MAX as i128 {
                            false
                        } else {
                            let diff = if s >= e { s - e } else { e - s };
                            diff.checked_mul((now - ds) as u128).is_some()
                        }
                    },
                    _ => true,
                }
            } else {
                true
            }
        },
        _ => true,
    };
    let decay_ok = match intent.decay_end_unix {
        None => true,
        Some(de) => i64::MIN as i128 <= de as i128 - now as i128 && de as i128 - now as i128
            <= i64::MAX as i128,
    };
    let excl_ok = match intent.exclusive_until_unix {
        None => true,
        Some(until) => !(now < until) || until as i128 - now as i128 <= i64::MAX as i128,
    };
    buy_ok && decay_ok && excl_ok
}

} // verus!
