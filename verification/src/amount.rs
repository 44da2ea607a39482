use vstd::prelude::*;

use crate::text::{
    all_digits, chars_of, digits_value, is_digit, parse_u128, parse_u128_chars, string_of,
    trim_chars, trimmed,
};

verus! {

/// `n` zero digits.
pub open spec fn zeros(n: nat) -> Seq<char> {
    Seq::new(n, |i: int| '0')
}

/// `s` without its trailing `0` characters.
pub open spec fn strip_trailing_zeros(s: Seq<char>) -> Seq<char>
    decreases s.len(),
{
    if s.len() > 0 && s.last() == '0' {
        strip_trailing_zeros(s.drop_last())
    } else {
        s
    }
}

/// The display text of an amount given in base units ("atoms") of a token
/// with `decimals` decimals: the trimmed amount when it is empty, when the
/// decimals are unknown or zero, or when it is not all ASCII digits;
/// otherwise the amount with a decimal point put `decimals` digits from
/// the right, trailing fractional zeros and a bare point dropped, and a
/// leading `0` when there is no whole part.
pub open spec fn amount_text(amount: Seq<char>, decimals: Option<u8>) -> Seq<char> {
    let t = trimmed(amount);
    if t.len() == 0 {
        Seq::empty()
    } else {
        match decimals {
            None => t,
            Some(d) => if !all_digits(t) || d == 0 {
                t
            } else if t.len() <= d {
                let frac = strip_trailing_zeros(zeros((d - t.len()) as nat) + t);
                if frac.len() == 0 {
                    seq!['0']
                } else {
                    seq!['0', '.'] + frac
                }
            } else {
                let whole = t.take(t.len() - d);
                let frac = strip_trailing_zeros(t.skip(t.len() - d));
                if frac.len() == 0 {
                    whole
                } else {
                    whole + seq!['.'] + frac
                }
            },
        }
    }
}

/// Drops trailing `0` characters from `v`.
fn drop_trailing_zeros(v: &mut Vec<char>)
    ensures
        final(v)@ == strip_trailing_zeros(old(v)@),
{
    while v.len() > 0 && v[v.len() - 1] == '0'
        invariant
            strip_trailing_zeros(v@) == strip_trailing_zeros(old(v)@),
        decreases v.len(),
    {
        let ghost before = v@;
        v.pop();
        assert(v@ =~= before.drop_last());
    }
}

/// Whether every character of `v` is an ASCII digit.
pub fn chars_all_digits(v: &Vec<char>) -> (res: bool)
    ensures
        res == all_digits(v@),
{
    let mut i: usize = 0;
    while i < v.len()
        invariant
            i <= v.len(),
            forall|j: int| 0 <= j < i ==> is_digit(#[trigger] v@[j]),
        decreases v.len() - i,
    {
        if !('0' <= v[i] && v[i] <= '9') {
            assert(!is_digit(v@[i as int]));
            return false;
        }
        i += 1;
    }
    true
}

fn push_range(out: &mut Vec<char>, v: &Vec<char>, from: usize, to: usize)
    requires
        from <= to <= v.len(),
    ensures
        final(out)@ == old(out)@ + v@.subrange(from as int, to as int),
{
    let mut i = from;
    while i < to
        invariant
            from <= i <= to <= v.len(),
            out@ == old(out)@ + v@.subrange(from as int, i as int),
        decreases to - i,
    {
        out.push(v[i]);
        assert(v@.subrange(from as int, i + 1) =~= v@.subrange(from as int, i as int).push(
            v@[i as int],
        ));
        i += 1;
    }
}

/// Formats an amount of token base units as a decimal number of whole
/// tokens, for display.
pub fn format_amount_atoms(amount: &str, decimals: Option<u8>) -> (res: String)
    ensures
        res@ == amount_text(amount@, decimals),
{
    let t = trim_chars(amount);
    if t.len() == 0 {
        return String::new();
    }
    let d: u8 = match decimals {
        None => {
            return string_of(&t);
        },
        Some(d) => d,
    };
    if !chars_all_digits(&t) || d == 0 {
        return string_of(&t);
    }
    let n = t.len();
    let du = d as usize;
    let mut out: Vec<char> = Vec::new();
    if n <= du {
        let mut frac: Vec<char> = Vec::new();
        let mut k: usize = 0;
        while k < du - n
            invariant
                n <= du,
                k <= du - n,
                frac@ == zeros(k as nat),
            decreases du - n - k,
        {
            frac.push('0');
            assert(frac@ =~= zeros((k + 1) as nat));
            k += 1;
        }
        push_range(&mut frac, &t, 0, n);
        assert(t@.subrange(0, n as int) =~= t@);
        drop_trailing_zeros(&mut frac);
        if frac.len() == 0 {
            out.push('0');
            assert(out@ =~= seq!['0']);
        } else {
            out.push('0');
            out.push('.');
            let ghost pre = out@;
            push_range(&mut out, &frac, 0, frac.len());
            assert(frac@.subrange(0, frac@.len() as int) =~= frac@);
            assert(pre =~= seq!['0', '.']);
        }
        return string_of(&out);
    }
    let cut = n - du;
    push_range(&mut out, &t, 0, cut);
    let mut frac: Vec<char> = Vec::new();
    push_range(&mut frac, &t, cut, n);
    assert(frac@ =~= t@.skip(cut as int));
    assert(out@ =~= t@.take(cut as int));
    drop_trailing_zeros(&mut frac);
    if frac.len() > 0 {
        out.push('.');
        let ghost pre = out@;
        push_range(&mut out, &frac, 0, frac.len());
        assert(frac@.subrange(0, frac@.len() as int) =~= frac@);
        assert(out@ =~= t@.take(cut as int) + seq!['.'] + frac@);
    }
    string_of(&out)
}

/// The base-unit amount that `amount` spells: its trimmed form when that
/// is one or more ASCII digits whose value fits in a `u128`.
pub open spec fn atoms_value(amount: Seq<char>) -> Option<u128> {
    let t = trimmed(amount);
    if t.len() > 0 && all_digits(t) && digits_value(t) <= u128::MAX {
        Some(digits_value(t) as u128)
    } else {
        None
    }
}

/// Reads an amount of token base units; `None` when it is not a plain
/// digit string or does not fit in a `u128`.
pub fn parse_atoms(amount: &str) -> (res: Option<u128>)
    ensures
        res == atoms_value(amount@),
{
    let t = trim_chars(amount);
    if t.len() == 0 {
        return None;
    }
    if !chars_all_digits(&t) {
        return None;
    }
    let r = parse_u128_chars(&t);
    proof {
        if t@.len() > 1 && t@[0] == '+' {
            assert(!is_digit(t@[0]));
        }
    }
    r
}

} // verus!

verus! {

/// `s` with a `,` put before every group of three characters, counted from
/// the right.
pub open spec fn group3(s: Seq<char>) -> Seq<char>
    decreases s.len(),
{
    if s.len() <= 3 {
        s
    } else {
        group3(s.take(s.len() - 3)) + seq![','] + s.skip(s.len() - 3)
    }
}

/// The index of the first `c` in `s` at or after `from`, or `s.len()`.
pub open spec fn find_from(s: Seq<char>, c: char, from: int) -> int
    decreases s.len() - from,
{
    if from >= s.len() {
        s.len() as int
    } else if s[from] == c {
        from
    } else {
        find_from(s, c, from + 1)
    }
}

/// The text of a number rounded to a fixed count of decimals, with its
/// integer digits grouped by thousands: an optional leading `-`, the part
/// before the first `.` grouped by `group3`, and, when there is a `.`, the
/// point and the text up to the next `.`.
pub open spec fn grouped_number(rounded: Seq<char>) -> Seq<char> {
    let neg = rounded.len() > 0 && rounded[0] == '-';
    let sign = if neg { seq!['-'] } else { Seq::<char>::empty() };
    let rest = if neg { rounded.drop_first() } else { rounded };
    let dot = find_from(rest, '.', 0);
    let int_part = rest.take(dot);
    if dot < rest.len() {
        let next = find_from(rest, '.', dot + 1);
        sign + group3(int_part) + seq!['.'] + rest.subrange(dot + 1, next)
    } else {
        sign + group3(int_part)
    }
}

fn find_char(v: &Vec<char>, c: char, from: usize) -> (res: usize)
    requires
        from <= v.len(),
    ensures
        res == find_from(v@, c, from as int),
        from <= res <= v.len(),
    decreases v.len() - from,
{
    if from >= v.len() {
        v.len()
    } else if v[from] == c {
        from
    } else {
        find_char(v, c, from + 1)
    }
}

fn push_grouped(v: &Vec<char>, from: usize, end: usize, out: &mut Vec<char>)
    requires
        from <= end <= v.len(),
    ensures
        final(out)@ == old(out)@ + group3(v@.subrange(from as int, end as int)),
    decreases end - from,
{
    let ghost s = v@.subrange(from as int, end as int);
    if end - from <= 3 {
        push_range(out, v, from, end);
    } else {
        push_grouped(v, from, end - 3, out);
        out.push(',');
        let ghost mid = out@;
        push_range(out, v, end - 3, end);
        assert(s.take(s.len() - 3) =~= v@.subrange(from as int, end - 3));
        assert(s.skip(s.len() - 3) =~= v@.subrange(end - 3, end as int));
        assert(out@ =~= old(out)@ + (group3(s.take(s.len() - 3)) + seq![','] + s.skip(s.len() - 3)));
    }
}

/// Groups the integer digits of a rounded number by thousands, as the
/// dashboard shows dollar values.
pub fn group_thousands(rounded: &str) -> (res: String)
    ensures
        res@ == grouped_number(rounded@),
{
    let v = chars_of(rounded);
    let neg = v.len() > 0 && v[0] == '-';
    let start: usize = if neg { 1 } else { 0 };
    let ghost rest = if neg { v@.drop_first() } else { v@ };
    let mut body: Vec<char> = Vec::new();
    push_range(&mut body, &v, start, v.len());
    assert(body@ =~= rest);
    let mut out: Vec<char> = Vec::new();
    if neg {
        out.push('-');
    }
    let dot = find_char(&body, '.', 0);
    push_grouped(&body, 0, dot, &mut out);
    assert(body@.subrange(0, dot as int) =~= body@.take(dot as int));
    if dot < body.len() {
        let next = find_char(&body, '.', dot + 1);
        out.push('.');
        push_range(&mut out, &body, dot + 1, next);
    }
    assert(out@ =~= grouped_number(v@));
    string_of(&out)
}

/// Taking the commas out of `group3(s)` gives back `s`, when `s` has none.
pub proof fn lemma_group3_commas_removed(s: Seq<char>)
    requires
        forall|i: int| 0 <= i < s.len() ==> s[i] != ',',
    ensures
        group3(s).filter(|c: char| c != ',') == s,
    decreases s.len(),
{
    if s.len() > 3 {
        let a = s.take(s.len() - 3);
        let b = s.skip(s.len() - 3);
        assert forall|i: int| 0 <= i < a.len() implies a[i] != ',' by {
            assert(a[i] == s[i]);
        }
        lemma_group3_commas_removed(a);
        let f = |c: char| c != ',';
        Seq::filter_distributes_over_add(group3(a) + seq![','], b, f);
        Seq::filter_distributes_over_add(group3(a), seq![','], f);
        assert(seq![','].filter(f) =~= Seq::<char>::empty()) by {
            reveal_with_fuel(Seq::<_>::filter, 2);
            assert(seq![','].drop_last() =~= Seq::<char>::empty());
            assert(seq![','].last() == ',');
        }
        assert forall|i: int| 0 <= i < b.len() implies f(b[i]) by {
            assert(b[i] == s[i + s.len() - 3]);
        }
        lemma_filter_keeps_all(b, f);
        assert(a + b =~= s);
    } else {
        lemma_filter_keeps_all(s, |c: char| c != ',');
    }
}

/// `g` is digits grouped by thousands: a first group of one to three
/// characters, then groups of exactly three, each after a comma.
pub open spec fn grouped_by_thousands(g: Seq<char>) -> bool {
    &&& g.len() % 4 != 0
    &&& forall|i: int| 0 <= i < g.len() ==> (#[trigger] g[i] == ',' <==> (g.len() - i) % 4 == 0)
}

/// Grouping a non-empty run without commas gives it in groups of three
/// from the right.
pub proof fn lemma_group3_grouped(s: Seq<char>)
    requires
        s.len() > 0,
        forall|i: int| 0 <= i < s.len() ==> s[i] != ',',
    ensures
        grouped_by_thousands(group3(s)),
    decreases s.len(),
{
    if s.len() > 3 {
        let a = s.take(s.len() - 3);
        let b = s.skip(s.len() - 3);
        assert forall|i: int| 0 <= i < a.len() implies a[i] != ',' by {
            assert(a[i] == s[i]);
        }
        lemma_group3_grouped(a);
        let ga = group3(a);
        let g = group3(s);
        assert(g == ga + seq![','] + b);
        assert forall|i: int| 0 <= i < g.len() implies (#[trigger] g[i] == ',' <==> (g.len() - i) % 4
            == 0) by {
            if i < ga.len() {
                assert(g[i] == ga[i]);
                assert((g.len() - i) % 4 == (ga.len() - i) % 4);
            } else if i > ga.len() {
                assert(g[i] == b[i - ga.len() - 1]);
                assert(b[i - ga.len() - 1] == s[s.len() - 3 + (i - ga.len() - 1)]);
            }
        }
    }
}

/// The minus sign that a rounded number's text starts with, if any.
pub open spec fn sign_part(rounded: Seq<char>) -> Seq<char> {
    if rounded.len() > 0 && rounded[0] == '-' {
        seq!['-']
    } else {
        Seq::<char>::empty()
    }
}

/// A rounded number's text after its minus sign.
pub open spec fn unsigned_part(rounded: Seq<char>) -> Seq<char> {
    if rounded.len() > 0 && rounded[0] == '-' {
        rounded.drop_first()
    } else {
        rounded
    }
}

/// No character of `s` is a comma.
pub open spec fn comma_free(s: Seq<char>) -> bool {
    forall|i: int| 0 <= i < s.len() ==> s[i] != ','
}

/// `s` holds at most one point.
pub open spec fn at_most_one_point(s: Seq<char>) -> bool {
    forall|i: int, j: int| 0 <= i < j < s.len() && s[i] == '.' ==> s[j] != '.'
}

proof fn lemma_unsigned_part(rounded: Seq<char>)
    requires
        comma_free(rounded),
        at_most_one_point(rounded),
    ensures
        rounded == sign_part(rounded) + unsigned_part(rounded),
        comma_free(unsigned_part(rounded)),
        at_most_one_point(unsigned_part(rounded)),
        comma_free(sign_part(rounded)),
{
    let r = unsigned_part(rounded);
    if rounded.len() > 0 && rounded[0] == '-' {
        assert forall|i: int| 0 <= i < r.len() implies r[i] != ',' by {
            assert(r[i] == rounded[i + 1]);
        }
        assert forall|i: int, j: int| 0 <= i < j < r.len() && r[i] == '.' implies r[j] != '.' by {
            assert(r[i] == rounded[i + 1]);
            assert(r[j] == rounded[j + 1]);
        }
    }
    assert(rounded =~= sign_part(rounded) + r);
}

proof fn lemma_after_point(r: Seq<char>)
    requires
        comma_free(r),
        at_most_one_point(r),
    ensures
        ({
            let dot = find_from(r, '.', 0);
            &&& 0 <= dot <= r.len()
            &&& comma_free(r.take(dot))
            &&& comma_free(r.skip(dot))
            &&& dot < r.len() ==> seq!['.'] + r.subrange(dot + 1, find_from(r, '.', dot + 1))
                == r.skip(dot)
            &&& dot == r.len() ==> r.skip(dot) == Seq::<char>::empty()
        }),
{
    let dot = find_from(r, '.', 0);
    lemma_find_from(r, '.', 0);
    assert forall|i: int| 0 <= i < r.take(dot).len() implies r.take(dot)[i] != ',' by {
        assert(r.take(dot)[i] == r[i]);
    }
    assert forall|i: int| 0 <= i < r.skip(dot).len() implies r.skip(dot)[i] != ',' by {
        assert(r.skip(dot)[i] == r[dot + i]);
    }
    if dot < r.len() {
        lemma_find_from(r, '.', dot + 1);
        assert(find_from(r, '.', dot + 1) == r.len());
        assert(seq!['.'] + r.subrange(dot + 1, r.len() as int) =~= r.skip(dot));
    } else {
        assert(r.skip(dot) =~= Seq::<char>::empty());
    }
}

proof fn lemma_filter_commas_out(sign: Seq<char>, g: Seq<char>, body: Seq<char>, tail: Seq<char>)
    requires
        comma_free(sign),
        comma_free(tail),
        g.filter(|c: char| c != ',') == body,
    ensures
        (sign + g + tail).filter(|c: char| c != ',') == sign + body + tail,
{
    let f = |c: char| c != ',';
    lemma_filter_keeps_all(tail, f);
    lemma_filter_keeps_all(sign, f);
    Seq::filter_distributes_over_add(sign + g, tail, f);
    Seq::filter_distributes_over_add(sign, g, f);
}

/// The integer digits of a rounded number's text are grouped, and taking
/// the commas out of the grouped text gives the text back: for text with
/// no commas, at most one point, and at least one character before the
/// point (after an optional minus sign), the grouped text is the sign, the
/// integer part grouped by thousands, and the rest as it was.
pub proof fn lemma_grouped_number_law(rounded: Seq<char>)
    requires
        comma_free(rounded),
        at_most_one_point(rounded),
        unsigned_part(rounded).len() > 0,
        unsigned_part(rounded)[0] != '.',
    ensures
        ({
            let rest = unsigned_part(rounded);
            let dot = find_from(rest, '.', 0);
            &&& grouped_number(rounded) == sign_part(rounded) + group3(rest.take(dot)) + rest.skip(
                dot,
            )
            &&& grouped_by_thousands(group3(rest.take(dot)))
            &&& grouped_number(rounded).filter(|c: char| c != ',') == rounded
        }),
{
    lemma_unsigned_part(rounded);
    let sign = sign_part(rounded);
    let rest = unsigned_part(rounded);
    lemma_after_point(rest);
    let dot = find_from(rest, '.', 0);
    let ip = rest.take(dot);
    let tail = rest.skip(dot);
    lemma_find_from(rest, '.', 0);
    assert(dot > 0);
    lemma_group3_grouped(ip);
    lemma_group3_commas_removed(ip);
    assert(grouped_number(rounded) =~= sign + group3(ip) + tail);
    lemma_filter_commas_out(sign, group3(ip), ip, tail);
    assert(sign + ip + tail =~= rounded);
}

proof fn lemma_find_from(s: Seq<char>, c: char, from: int)
    requires
        0 <= from <= s.len(),
    ensures
        from <= find_from(s, c, from) <= s.len(),
        find_from(s, c, from) < s.len() ==> s[find_from(s, c, from)] == c,
        forall|k: int| from <= k < find_from(s, c, from) ==> s[k] != c,
        (forall|k: int| from <= k < s.len() ==> s[k] != c) ==> find_from(s, c, from) == s.len(),
    decreases s.len() - from,
{
    if from < s.len() && s[from] != c {
        lemma_find_from(s, c, from + 1);
    }
}

proof fn lemma_filter_keeps_all(s: Seq<char>, f: spec_fn(char) -> bool)
    requires
        forall|i: int| 0 <= i < s.len() ==> f(s[i]),
    ensures
        s.filter(f) == s,
    decreases s.len(),
{
    reveal(Seq::filter);
    if s.len() > 0 {
        lemma_filter_keeps_all(s.drop_last(), f);
        assert(s.drop_last().push(s.last()) =~= s);
    } else {
        assert(s.filter(f) =~= s);
    }
}

/// Padding the stripped form of `s` back with zeros gives `s` again.
pub proof fn lemma_strip_pads_back(s: Seq<char>)
    ensures
        strip_trailing_zeros(s).len() <= s.len(),
        s == strip_trailing_zeros(s) + zeros((s.len() - strip_trailing_zeros(s).len()) as nat),
    decreases s.len(),
{
    if s.len() > 0 && s.last() == '0' {
        lemma_strip_pads_back(s.drop_last());
        let r = strip_trailing_zeros(s.drop_last());
        assert(zeros((s.drop_last().len() - r.len()) as nat).push('0') =~= zeros(
            (s.len() - r.len()) as nat,
        ));
        assert(s.drop_last().push('0') =~= s);
    } else {
        assert(s =~= s + zeros(0));
    }
}

/// Formatting keeps the digits of an amount: for an amount of digits
/// longer than `d` > 0 decimals, the text shown is its whole part, then,
/// unless the last `d` digits are all zero, a point and those digits
/// without trailing zeros; padding them back with zeros gives the last `d`
/// digits again.
pub proof fn lemma_amount_text_keeps_digits(amount: Seq<char>, d: u8)
    requires
        all_digits(trimmed(amount)),
        0 < d < trimmed(amount).len(),
    ensures
        ({
            let t = trimmed(amount);
            let whole = t.take(t.len() - d);
            let tail = t.skip(t.len() - d);
            let f = strip_trailing_zeros(tail);
            &&& tail == f + zeros((d - f.len()) as nat)
            &&& amount_text(amount, Some(d)) == (if f.len() == 0 {
                whole
            } else {
                whole + seq!['.'] + f
            })
        }),
{
    let t = trimmed(amount);
    lemma_strip_pads_back(t.skip(t.len() - d));
}

} // verus!
