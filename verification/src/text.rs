use vstd::prelude::*;
use vstd::std_specs::iter::IteratorSpec;
use vstd::utf8::is_ascii_chars;

verus! {

broadcast use vstd::string::group_string_axioms;

/// The characters of `s`, in order.
pub fn chars_of(s: &str) -> (res: Vec<char>)
    ensures
        res@ == s@,
{
    let mut res: Vec<char> = Vec::new();
    let mut it = s.chars();
    let ghost all = s@;
    loop
        invariant
            it.remaining() == all.skip(res@.len() as int),
            res@ == all.take(res@.len() as int),
            res@.len() <= all.len(),
            all == s@,
        ensures
            res@ == all,
        decreases all.len() - res@.len(),
    {
        match it.next() {
            Some(c) => {
                res.push(c);
            },
            None => {
                assert(all.skip(res@.len() as int).len() == 0);
                assert(res@ =~= all);
                break;
            },
        }
    }
    res
}

} // verus!

verus! {

/// Appends one character to a `String` (std `String::push`).
#[verifier::external_body]
pub(crate) fn push_char(s: &mut String, c: char)
    ensures
        final(s)@ == old(s)@.push(c),
{
    s.push(c);
}

/// A `String` holding exactly the characters of `v`.
pub fn string_of(v: &Vec<char>) -> (res: String)
    ensures
        res@ == v@,
{
    let mut res = String::new();
    let mut i: usize = 0;
    while i < v.len()
        invariant
            i <= v.len(),
            res@ == v@.take(i as int),
        decreases v.len() - i,
    {
        push_char(&mut res, v[i]);
        assert(v@.take(i + 1) =~= v@.take(i as int).push(v@[i as int]));
        i += 1;
    }
    assert(v@.take(v.len() as int) =~= v@);
    res
}

/// Whether `c` has the Unicode `White_Space` property, the set that
/// `char::is_whitespace` and `str::trim` use.
pub open spec fn is_white_space(c: char) -> bool {
    let u = c as u32;
    ||| 0x9 <= u <= 0xD
    ||| u == 0x20
    ||| u == 0x85
    ||| u == 0xA0
    ||| u == 0x1680
    ||| 0x2000 <= u <= 0x200A
    ||| u == 0x2028
    ||| u == 0x2029
    ||| u == 0x202F
    ||| u == 0x205F
    ||| u == 0x3000
}

/// `s` without its leading white space.
pub open spec fn trim_front(s: Seq<char>) -> Seq<char>
    decreases s.len(),
{
    if s.len() > 0 && is_white_space(s[0]) {
        trim_front(s.drop_first())
    } else {
        s
    }
}

/// `s` without its trailing white space.
pub open spec fn trim_back(s: Seq<char>) -> Seq<char>
    decreases s.len(),
{
    if s.len() > 0 && is_white_space(s.last()) {
        trim_back(s.drop_last())
    } else {
        s
    }
}

/// `s` without leading and trailing white space, as `str::trim` gives it.
pub open spec fn trimmed(s: Seq<char>) -> Seq<char> {
    trim_back(trim_front(s))
}

/// Exec test for the Unicode `White_Space` property.
pub fn white_space(c: char) -> (b: bool)
    ensures
        b == is_white_space(c),
{
    let u = c as u32;
    (0x9 <= u && u <= 0xD) || u == 0x20 || u == 0x85 || u == 0xA0 || u == 0x1680 || (0x2000 <= u
        && u <= 0x200A) || u == 0x2028 || u == 0x2029 || u == 0x202F || u == 0x205F || u == 0x3000
}

proof fn lemma_trim_front_skip(s: Seq<char>, i: int)
    requires
        0 <= i <= s.len(),
        forall|j: int| 0 <= j < i ==> is_white_space(#[trigger] s[j]),
    ensures
        trim_front(s) == trim_front(s.skip(i)),
    decreases i,
{
    if i > 0 {
        assert(s.drop_first().skip(i - 1) =~= s.skip(i));
        assert forall|j: int| 0 <= j < i - 1 implies is_white_space(#[trigger] s.drop_first()[j]) by {
            assert(s.drop_first()[j] == s[j + 1]);
        }
        lemma_trim_front_skip(s.drop_first(), i - 1);
    } else {
        assert(s.skip(0) =~= s);
    }
}

proof fn lemma_trim_back_take(s: Seq<char>, k: int)
    requires
        0 <= k <= s.len(),
        forall|j: int| k <= j < s.len() ==> is_white_space(#[trigger] s[j]),
    ensures
        trim_back(s) == trim_back(s.take(k)),
    decreases s.len() - k,
{
    if k < s.len() {
        assert(s.drop_last().take(k) =~= s.take(k));
        assert forall|j: int| k <= j < s.len() - 1 implies is_white_space(#[trigger] s.drop_last()[j]) by {
            assert(s.drop_last()[j] == s[j]);
        }
        lemma_trim_back_take(s.drop_last(), k);
    } else {
        assert(s.take(k) =~= s);
    }
}

/// The characters of `s` with leading and trailing white space removed.
pub fn trim_chars(s: &str) -> (res: Vec<char>)
    ensures
        res@ == trimmed(s@),
{
    let v = chars_of(s);
    trim_vec(&v)
}

/// `v` with leading and trailing white space removed.
pub fn trim_vec(v: &Vec<char>) -> (res: Vec<char>)
    ensures
        res@ == trimmed(v@),
{
    let n = v.len();
    let mut i: usize = 0;
    while i < n && white_space(v[i])
        invariant
            n == v@.len(),
            i <= n,
            forall|j: int| 0 <= j < i ==> is_white_space(#[trigger] v@[j]),
        decreases n - i,
    {
        i += 1;
    }
    proof {
        lemma_trim_front_skip(v@, i as int);
        assert(trim_front(v@.skip(i as int)) == v@.skip(i as int));
    }
    let mut k: usize = n;
    while k > i && white_space(v[k - 1])
        invariant
            n == v@.len(),
            i <= k <= n,
            forall|j: int| k <= j < n ==> is_white_space(#[trigger] v@[j]),
        decreases k,
    {
        k -= 1;
    }
    let ghost mid = v@.skip(i as int);
    proof {
        assert forall|j: int| k - i <= j < mid.len() implies is_white_space(#[trigger] mid[j]) by {
            assert(mid[j] == v@[j + i]);
        }
        lemma_trim_back_take(mid, k - i);
        assert(mid.take(k - i) =~= v@.subrange(i as int, k as int));
        let t = v@.subrange(i as int, k as int);
        if t.len() > 0 {
            assert(t.last() == v@[k - 1]);
        }
    }
    let mut res: Vec<char> = Vec::new();
    let mut p: usize = i;
    while p < k
        invariant
            i <= p <= k <= n,
            n == v@.len(),
            res@ == v@.subrange(i as int, p as int),
        decreases k - p,
    {
        res.push(v[p]);
        assert(v@.subrange(i as int, p + 1) =~= v@.subrange(i as int, p as int).push(v@[p as int]));
        p += 1;
    }
    res
}

} // verus!

verus! {

/// The ASCII digit for `d`, which is below ten.
pub open spec fn digit_char(d: nat) -> char {
    (d + 48) as char
}

/// Whether `c` is one of the ASCII digits `0`..=`9`.
pub open spec fn is_digit(c: char) -> bool {
    '0' <= c <= '9'
}

/// Whether every character of `s` is an ASCII digit.
pub open spec fn all_digits(s: Seq<char>) -> bool {
    forall|i: int| 0 <= i < s.len() ==> is_digit(#[trigger] s[i])
}

/// The number that the decimal digits `s` spell.
pub open spec fn digits_value(s: Seq<char>) -> nat
    decreases s.len(),
{
    if s.len() == 0 {
        0
    } else {
        digits_value(s.drop_last()) * 10 + ((s.last() as int - 48) as nat)
    }
}

/// The shortest decimal notation of `n`.
pub open spec fn decimal(n: nat) -> Seq<char>
    decreases n,
{
    if n < 10 {
        seq![digit_char(n)]
    } else {
        decimal(n / 10).push(digit_char(n % 10))
    }
}

/// Decimal notation of a signed integer, with a leading `-` when negative.
pub open spec fn int_decimal(n: int) -> Seq<char> {
    if n < 0 {
        seq!['-'] + decimal((-n) as nat)
    } else {
        decimal(n as nat)
    }
}

/// What `str::parse::<u128>` gives for `s`: an optional `+`, then one or
/// more ASCII digits whose value fits in a `u128`.
pub open spec fn parse_u128(s: Seq<char>) -> Option<u128> {
    let body = if s.len() > 1 && s[0] == '+' {
        s.drop_first()
    } else {
        s
    };
    if body.len() > 0 && all_digits(body) && digits_value(body) <= u128::MAX {
        Some(digits_value(body) as u128)
    } else {
        None
    }
}

fn digit_of(d: u128) -> (c: char)
    requires
        d < 10,
    ensures
        c == digit_char(d as nat),
        is_digit(c),
{
    let b: u8 = d as u8 + 48u8;
    b as char
}

fn push_decimal(n: u128, out: &mut Vec<char>)
    ensures
        final(out)@ == old(out)@ + decimal(n as nat),
    decreases n,
{
    if n >= 10 {
        push_decimal(n / 10, out);
    }
    let c = digit_of(n % 10);
    out.push(c);
    proof {
        if n >= 10 {
            assert(decimal(n as nat) == decimal((n / 10) as nat).push(digit_char((n % 10) as nat)));
        }
    }
}

/// Decimal notation of an unsigned integer.
pub fn decimal_u128(n: u128) -> (res: Vec<char>)
    ensures
        res@ == decimal(n as nat),
{
    let mut out: Vec<char> = Vec::new();
    push_decimal(n, &mut out);
    assert(out@ =~= decimal(n as nat));
    out
}

/// Decimal notation of a signed integer.
pub fn decimal_i64(n: i64) -> (res: Vec<char>)
    ensures
        res@ == int_decimal(n as int),
{
    let mut out: Vec<char> = Vec::new();
    if n < 0 {
        out.push('-');
        let m: u128 = (0i128 - n as i128) as u128;
        push_decimal(m, &mut out);
    } else {
        push_decimal(n as u128, &mut out);
    }
    assert(out@ =~= int_decimal(n as int));
    out
}

proof fn lemma_digits_value_push(s: Seq<char>, c: char)
    ensures
        digits_value(s.push(c)) == digits_value(s) * 10 + ((c as int - 48) as nat),
{
    assert(s.push(c).drop_last() =~= s);
}

proof fn lemma_digits_value_monotone(s: Seq<char>, k: int)
    requires
        0 <= k <= s.len(),
        all_digits(s),
    ensures
        digits_value(s.take(k)) <= digits_value(s),
    decreases s.len() - k,
{
    if k < s.len() {
        lemma_digits_value_monotone(s.drop_last(), k);
        assert(s.drop_last().take(k) =~= s.take(k));
        assert(is_digit(s[s.len() - 1]));
    } else {
        assert(s.take(k) =~= s);
    }
}

/// `str::parse::<u128>`, over the characters of `s`.
pub fn parse_u128_chars(s: &Vec<char>) -> (res: Option<u128>)
    ensures
        res == parse_u128(s@),
{
    let n = s.len();
    let start: usize = if n > 1 && s[0] == '+' { 1 } else { 0 };
    let ghost body = if s@.len() > 1 && s@[0] == '+' { s@.drop_first() } else { s@ };
    assert(body =~= s@.skip(start as int));
    if start >= n {
        return None;
    }
    let mut acc: u128 = 0;
    let mut i: usize = start;
    while i < n
        invariant
            start <= i <= n,
            n == s@.len(),
            body =~= s@.skip(start as int),
            body == (if s@.len() > 1 && s@[0] == '+' { s@.drop_first() } else { s@ }),
            body.len() > 0,
            all_digits(body.take(i - start)),
            acc as nat == digits_value(body.take(i - start)),
        decreases n - i,
    {
        let c = s[i];
        proof {
            assert(body[i - start] == s@[i as int]);
            assert(body.take(i + 1 - start) =~= body.take(i - start).push(c));
            lemma_digits_value_push(body.take(i - start), c);
        }
        if !('0' <= c && c <= '9') {
            proof {
                assert(!is_digit(body[i - start]));
                assert(!all_digits(body));
            }
            return None;
        }
        let d: u128 = (c as u32 - 48) as u128;
        match acc.checked_mul(10) {
            Some(a) => match a.checked_add(d) {
                Some(b) => {
                    acc = b;
                },
                None => {
                    proof {
                        if all_digits(body) {
                            lemma_digits_value_monotone(body, i + 1 - start);
                        }
                    }
                    return None;
                },
            },
            None => {
                proof {
                    if all_digits(body) {
                        lemma_digits_value_monotone(body, i + 1 - start);
                    }
                }
                return None;
            },
        }
        i += 1;
    }
    assert(body.take(n - start) =~= body);
    Some(acc)
}

} // verus!

verus! {

/// Name for what `str::to_lowercase` returns for the characters `s`
/// (full Unicode lowercase mapping).
pub uninterp spec fn lowercase(s: Seq<char>) -> Seq<char>;

/// `c` with an ASCII capital `A`-`Z` turned into its small letter; any
/// other character as it is.
pub open spec fn ascii_lower_char(c: char) -> char {
    if 'A' <= c && c <= 'Z' {
        ((c as int) + 32) as char
    } else {
        c
    }
}

/// `c` with an ASCII small letter `a`-`z` turned into its capital; any
/// other character as it is.
pub open spec fn ascii_upper_char(c: char) -> char {
    if 'a' <= c && c <= 'z' {
        ((c as int) - 32) as char
    } else {
        c
    }
}

/// `s` with its ASCII capitals made small.
pub open spec fn ascii_lower(s: Seq<char>) -> Seq<char> {
    s.map_values(|c: char| ascii_lower_char(c))
}

/// `s` with its ASCII small letters made capitals.
pub open spec fn ascii_upper(s: Seq<char>) -> Seq<char> {
    s.map_values(|c: char| ascii_upper_char(c))
}

/// The lowercase form of `s`: letter by letter on ASCII text, and the
/// named Unicode mapping otherwise.
pub open spec fn lowered(s: Seq<char>) -> Seq<char> {
    if is_ascii_chars(s) {
        ascii_lower(s)
    } else {
        lowercase(s)
    }
}

/// `str::to_lowercase`: the Unicode lowercase form of `s`, whose
/// characters are named by `lowercase`. std defines it by the Unicode
/// lowercase mapping, which turns the ASCII capitals `A`-`Z` into `a`-`z`
/// and leaves every other ASCII character as it is; so on ASCII text the
/// result is stated letter by letter. The mapping turns each character
/// into one or more characters (std: "some characters can expand into
/// multiple characters"), so the result is empty exactly when `s` is.
/// Beyond that, only the name is stated.
#[verifier::external_body]
pub(crate) fn to_lowercase(s: &str) -> (res: String)
    ensures
        res@ == lowercase(s@),
        is_ascii_chars(s@) ==> res@ == ascii_lower(s@),
        (res@.len() == 0) == (s@.len() == 0),
{
    s.to_lowercase()
}

/// Turning ASCII text to capitals and then to lowercase gives what turning
/// it to lowercase gives; the capitals are ASCII text too.
pub proof fn lemma_lowered_ignores_ascii_case(s: Seq<char>)
    requires
        is_ascii_chars(s),
    ensures
        is_ascii_chars(ascii_upper(s)),
        lowered(ascii_upper(s)) == lowered(s),
{
    let u = ascii_upper(s);
    assert forall|k: int| 0 <= k < u.len() implies '\0' <= #[trigger] u[k] <= '\u{7f}' by {
        assert(u[k] == ascii_upper_char(s[k]));
    }
    assert(ascii_lower(u) =~= ascii_lower(s)) by {
        assert forall|k: int| 0 <= k < s.len() implies #[trigger] ascii_lower(u)[k] == ascii_lower(s)[k] by {
            assert(u[k] == ascii_upper_char(s[k]));
        }
    }
}

/// Whether two character sequences are equal.
pub fn chars_eq(a: &Vec<char>, b: &Vec<char>) -> (res: bool)
    ensures
        res == (a@ == b@),
{
    if a.len() != b.len() {
        return false;
    }
    let mut i: usize = 0;
    while i < a.len()
        invariant
            a@.len() == b@.len(),
            i <= a@.len(),
            forall|j: int| 0 <= j < i ==> a@[j] == b@[j],
        decreases a.len() - i,
    {
        if a[i] != b[i] {
            return false;
        }
        i += 1;
    }
    assert(a@ =~= b@);
    true
}

/// Whether the characters `a` spell the string `b`.
pub fn chars_eq_str(a: &Vec<char>, b: &str) -> (res: bool)
    ensures
        res == (a@ == b@),
{
    let bc = chars_of(b);
    chars_eq(a, &bc)
}

/// Whether two strings hold the same characters.
pub fn str_eq(a: &str, b: &str) -> (res: bool)
    ensures
        res == (a@ == b@),
{
    let ac = chars_of(a);
    chars_eq_str(&ac, b)
}

} // verus!
