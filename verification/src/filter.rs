use vstd::prelude::*;

use crate::text::{
    ascii_upper, chars_eq, chars_of, lemma_lowered_ignores_ascii_case, lowered, string_of, to_lowercase,
    trim_vec, trimmed,
};

verus! {

broadcast use vstd::string::group_string_axioms;

/// A set of source names, each held once.
#[derive(Debug)]
pub struct SourceSet {
    pub names: Vec<String>,
}

/// The characters of each name.
pub open spec fn name_views(names: Seq<String>) -> Seq<Seq<char>> {
    names.map_values(|s: String| s@)
}

impl SourceSet {
    pub open spec fn wf(&self) -> bool {
        name_views(self.names@).no_duplicates()
    }

    /// The names in the set.
    pub open spec fn members(&self) -> Set<Seq<char>> {
        name_views(self.names@).to_set()
    }

    /// An empty set.
    pub fn new() -> (res: SourceSet)
        ensures
            res.wf(),
            res.members() == Set::<Seq<char>>::empty(),
    {
        let res = SourceSet { names: Vec::new() };
        assert(name_views(res.names@) =~= Seq::<Seq<char>>::empty());
        assert(res.members() =~= Set::<Seq<char>>::empty());
        res
    }

    /// Whether `name` is in the set.
    pub fn contains(&self, name: &str) -> (res: bool)
        ensures
            res == self.members().contains(name@),
    {
        let target = chars_of(name);
        let mut i: usize = 0;
        while i < self.names.len()
            invariant
                i <= self.names@.len(),
                target@ == name@,
                forall|j: int| 0 <= j < i ==> (#[trigger] self.names@[j])@ != name@,
            decreases self.names.len() - i,
        {
            let c = chars_of(self.names[i].as_str());
            if chars_eq(&c, &target) {
                assert(name_views(self.names@)[i as int] == name@);
                return true;
            }
            i += 1;
        }
        assert forall|j: int| 0 <= j < name_views(self.names@).len() implies name_views(self.names@)[j] != name@ by {
            assert(name_views(self.names@)[j] == self.names@[j]@);
        }
        false
    }

    /// Adds `name` to the set.
    pub fn insert(&mut self, name: String)
        requires
            old(self).wf(),
        ensures
            final(self).wf(),
            final(self).members() == old(self).members().insert(name@),
    {
        if self.contains(name.as_str()) {
            assert(self.members().insert(name@) =~= self.members());
            return;
        }
        let ghost before = name_views(self.names@);
        let ghost nv = name@;
        self.names.push(name);
        assert(name_views(self.names@) =~= before.push(nv));
        assert(!before.contains(nv));
        assert(self.members() =~= old(self).members().insert(nv)) by {
            assert forall|x: Seq<char>| self.members().contains(x) <==> old(self).members().contains(x) || x == nv by {
                if self.members().contains(x) {
                    let k = choose|k: int| 0 <= k < before.push(nv).len() && before.push(nv)[k] == x;
                    if k < before.len() {
                        assert(before[k] == x);
                    }
                }
                if old(self).members().contains(x) {
                    let k = choose|k: int| 0 <= k < before.len() && before[k] == x;
                    assert(before.push(nv)[k] == x);
                }
                if x == nv {
                    assert(before.push(nv)[before.len() as int] == x);
                }
            }
        }
    }

    /// The number of names in the set.
    pub fn len(&self) -> (res: usize)
        requires
            self.wf(),
        ensures
            res == self.members().len(),
    {
        proof {
            name_views(self.names@).unique_seq_to_set();
        }
        self.names.len()
    }
}

/// The comma-separated pieces of `s`, as `str::split(',')` gives them.
pub open spec fn comma_pieces(s: Seq<char>) -> Seq<Seq<char>>
    decreases s.len(),
{
    if s.len() == 0 {
        seq![Seq::empty()]
    } else if s.last() == ',' {
        comma_pieces(s.drop_last()).push(Seq::empty())
    } else {
        let p = comma_pieces(s.drop_last());
        p.update(p.len() - 1, p.last().push(s.last()))
    }
}

proof fn lemma_comma_pieces_nonempty(s: Seq<char>)
    ensures
        comma_pieces(s).len() >= 1,
    decreases s.len(),
{
    if s.len() > 0 {
        lemma_comma_pieces_nonempty(s.drop_last());
    }
}

/// The source name that a piece stands for: trimmed and lowercased.
pub open spec fn piece_name(p: Seq<char>) -> Seq<char> {
    lowered(trimmed(p))
}

/// The non-empty names among `pieces`.
pub open spec fn names_in(pieces: Seq<Seq<char>>) -> Set<Seq<char>> {
    Set::new(
        |n: Seq<char>|
            exists|j: int| 0 <= j < pieces.len() && n == piece_name(#[trigger] pieces[j]) && n.len() > 0,
    )
}

/// Piece `j` of the comma-separated list `v` is not blank and names `n`.
pub open spec fn piece_names(v: Seq<char>, j: int, n: Seq<char>) -> bool {
    &&& 0 <= j < comma_pieces(v).len()
    &&& trimmed(comma_pieces(v)[j]).len() > 0
    &&& n == piece_name(comma_pieces(v)[j])
}

/// Each of `pieces` names a non-empty source exactly when it is not blank.
pub open spec fn names_follow_blanks(pieces: Seq<Seq<char>>) -> bool {
    forall|j: int|
        0 <= j < pieces.len() ==> (piece_name(#[trigger] pieces[j]).len() > 0 <==> trimmed(
            pieces[j],
        ).len() > 0)
}

/// The source names that a comma-separated list names.
pub open spec fn listed_sources(s: Seq<char>) -> Set<Seq<char>> {
    names_in(comma_pieces(s))
}

proof fn lemma_names_in_push(ps: Seq<Seq<char>>, p: Seq<char>)
    ensures
        names_in(ps.push(p)) == (if piece_name(p).len() > 0 {
            names_in(ps).insert(piece_name(p))
        } else {
            names_in(ps)
        }),
{
    let q = ps.push(p);
    let rhs = if piece_name(p).len() > 0 {
        names_in(ps).insert(piece_name(p))
    } else {
        names_in(ps)
    };
    assert forall|n: Seq<char>| names_in(q).contains(n) <==> rhs.contains(n) by {
        if names_in(q).contains(n) {
            let j = choose|j: int| 0 <= j < q.len() && n == piece_name(#[trigger] q[j]) && n.len() > 0;
            if j < ps.len() {
                assert(q[j] == ps[j]);
            }
        }
        if names_in(ps).contains(n) {
            let j = choose|j: int| 0 <= j < ps.len() && n == piece_name(#[trigger] ps[j]) && n.len() > 0;
            assert(q[j] == ps[j]);
        }
        if piece_name(p).len() > 0 && n == piece_name(p) {
            assert(q[ps.len() as int] == p);
        }
    }
    assert(names_in(q) =~= rhs);
}

proof fn lemma_listed_by_pieces(v: Seq<char>)
    requires
        names_follow_blanks(comma_pieces(v)),
    ensures
        listed_sources(v) == Set::<Seq<char>>::empty() <==> forall|j: int|
            0 <= j < comma_pieces(v).len() ==> trimmed(#[trigger] comma_pieces(v)[j]).len() == 0,
        forall|n: Seq<char>|
            #![trigger listed_sources(v).contains(n)]
            listed_sources(v).contains(n) <==> exists|j: int| piece_names(v, j, n),
{
    let ps = comma_pieces(v);
    assert forall|n: Seq<char>| listed_sources(v).contains(n) <==> exists|j: int| piece_names(v, j, n) by {
        if listed_sources(v).contains(n) {
            let j = choose|j: int| 0 <= j < ps.len() && n == piece_name(#[trigger] ps[j]) && n.len() > 0;
            assert(piece_names(v, j, n));
        }
        if exists|j: int| piece_names(v, j, n) {
            let j = choose|j: int| piece_names(v, j, n);
            assert(piece_name(ps[j]).len() > 0);
        }
    }
    if listed_sources(v) == Set::<Seq<char>>::empty() {
        assert forall|j: int| 0 <= j < ps.len() implies trimmed(#[trigger] ps[j]).len() == 0 by {
            if trimmed(ps[j]).len() > 0 {
                assert(piece_names(v, j, piece_name(ps[j])));
                assert(listed_sources(v).contains(piece_name(ps[j])));
            }
        }
    }
    if forall|j: int| 0 <= j < ps.len() ==> trimmed(#[trigger] ps[j]).len() == 0 {
        assert forall|n: Seq<char>| !listed_sources(v).contains(n) by {
            if listed_sources(v).contains(n) {
                let j = choose|j: int| piece_names(v, j, n);
                assert(trimmed(ps[j]).len() == 0);
            }
        }
        assert(listed_sources(v) =~= Set::<Seq<char>>::empty());
    }
}

fn add_piece(set: &mut SourceSet, piece: &Vec<char>)
    requires
        old(set).wf(),
    ensures
        final(set).wf(),
        final(set).members() == (if piece_name(piece@).len() > 0 {
            old(set).members().insert(piece_name(piece@))
        } else {
            old(set).members()
        }),
        piece_name(piece@).len() > 0 <==> trimmed(piece@).len() > 0,
{
    let t = trim_vec(piece);
    let ts = string_of(&t);
    let name = to_lowercase(ts.as_str());
    if !name.as_str().is_empty() {
        set.insert(name);
    }
}

/// Reads a comma-separated list of source names, each trimmed and
/// lowercased, empty ones dropped; `None` when no name is left, which is
/// exactly when every piece is blank. A source is then allowed when there
/// is no filter or some non-blank piece lowercases to its lowercase name.
pub fn parse_source_filter(v: &str) -> (res: Option<SourceSet>)
    ensures
        match res {
            None => listed_sources(v@) == Set::<Seq<char>>::empty(),
            Some(f) => f.wf() && f.members() == listed_sources(v@) && f.members()
                != Set::<Seq<char>>::empty(),
        },
        res is None <==> forall|j: int|
            0 <= j < comma_pieces(v@).len() ==> trimmed(#[trigger] comma_pieces(v@)[j]).len() == 0,
        forall|n: Seq<char>|
            #![trigger listed_sources(v@).contains(n)]
            listed_sources(v@).contains(n) <==> exists|j: int| piece_names(v@, j, n),
        forall|s: Seq<char>|
            #![trigger allowed(res, s)]
            allowed(res, s) <==> (res is None || exists|j: int| piece_names(v@, j, lowered(s))),
{
    let chars = chars_of(v);
    let mut set = SourceSet::new();
    let mut cur: Vec<char> = Vec::new();
    let mut i: usize = 0;
    while i < chars.len()
        invariant
            i <= chars@.len(),
            chars@ == v@,
            set.wf(),
            comma_pieces(chars@.take(i as int)).len() >= 1,
            cur@ == comma_pieces(chars@.take(i as int)).last(),
            set.members() == names_in(comma_pieces(chars@.take(i as int)).drop_last()),
            names_follow_blanks(comma_pieces(chars@.take(i as int)).drop_last()),
        decreases chars.len() - i,
    {
        let c = chars[i];
        let ghost pre = chars@.take(i as int);
        let ghost ps = comma_pieces(pre);
        assert(chars@.take(i + 1).drop_last() =~= pre);
        assert(chars@.take(i + 1).last() == c);
        if c == ',' {
            proof {
                lemma_names_in_push(ps.drop_last(), ps.last());
                assert(ps.drop_last().push(ps.last()) =~= ps);
                assert(comma_pieces(chars@.take(i + 1)).drop_last() =~= ps);
            }
            add_piece(&mut set, &cur);
            cur = Vec::new();
        } else {
            cur.push(c);
            proof {
                let q = comma_pieces(chars@.take(i + 1));
                assert(q.drop_last() =~= ps.drop_last());
            }
        }
        i += 1;
    }
    let ghost ps = comma_pieces(chars@.take(i as int));
    proof {
        lemma_names_in_push(ps.drop_last(), ps.last());
        assert(ps.drop_last().push(ps.last()) =~= ps);
        assert(chars@.take(i as int) =~= v@);
    }
    add_piece(&mut set, &cur);
    proof {
        assert(names_follow_blanks(ps)) by {
            assert forall|j: int| 0 <= j < ps.len() implies (piece_name(#[trigger] ps[j]).len() > 0
                <==> trimmed(ps[j]).len() > 0) by {
                if j < ps.len() - 1 {
                    assert(ps.drop_last()[j] == ps[j]);
                }
            }
        }
        lemma_listed_by_pieces(v@);
    }
    if set.names.len() == 0 {
        proof {
            assert(name_views(set.names@) =~= Seq::<Seq<char>>::empty());
            assert(set.members() =~= Set::<Seq<char>>::empty());
        }
        None
    } else {
        proof {
            assert(set.members().contains(name_views(set.names@)[0]));
        }
        Some(set)
    }
}

/// Whether an intent from `source` is shown: always without a filter,
/// else when the lowercase source is in the filter.
pub open spec fn allowed(filter: Option<SourceSet>, source: Seq<char>) -> bool {
    match filter {
        None => true,
        Some(f) => f.members().contains(lowered(source)),
    }
}

/// Whether the dashboard shows intents from `source`.
pub fn source_allowed(filter: &Option<SourceSet>, source: &str) -> (res: bool)
    ensures
        res == allowed(*filter, source@),
{
    match filter {
        None => true,
        Some(set) => {
            let lower = to_lowercase(source);
            set.contains(lower.as_str())
        },
    }
}

/// What a key press does to the dashboard: `q` quits, `u` shows only the
/// `uniswapx` source, `a` shows all sources; other keys change nothing.
/// Returns the new filter and whether to quit.
pub fn next_filter_on_key(filter: Option<SourceSet>, key: char) -> (res: (Option<SourceSet>, bool))
    requires
        match filter {
            Some(f) => f.wf(),
            None => true,
        },
    ensures
        key == 'q' ==> res.1 && res.0 == filter,
        key == 'u' ==> (!res.1 && (res.0 matches Some(f) && f.wf() && f.members() == set![
            "uniswapx"@,
        ])),
        key == 'a' ==> !res.1 && res.0 is None,
        key != 'q' && key != 'u' && key != 'a' ==> !res.1 && res.0 == filter,
{
    if key == 'q' {
        return (filter, true);
    }
    if key == 'u' {
        let mut set = SourceSet::new();
        set.insert("uniswapx".to_owned());
        assert(set.members() =~= set!["uniswapx"@]);
        return (Some(set), false);
    }
    if key == 'a' {
        return (None, false);
    }
    (filter, false)
}

/// Lexicographic order on character sequences (a proper prefix comes
/// first).
pub open spec fn lex_lt(a: Seq<char>, b: Seq<char>) -> bool
    decreases a.len(),
{
    if a.len() == 0 {
        b.len() > 0
    } else if b.len() == 0 {
        false
    } else if a[0] != b[0] {
        a[0] < b[0]
    } else {
        lex_lt(a.drop_first(), b.drop_first())
    }
}

fn lex_less(a: &Vec<char>, b: &Vec<char>) -> (res: bool)
    ensures
        res == lex_lt(a@, b@),
{
    let mut i: usize = 0;
    assert(a@.skip(0) =~= a@);
    assert(b@.skip(0) =~= b@);
    while i < a.len() && i < b.len() && a[i] == b[i]
        invariant
            i <= a@.len(),
            i <= b@.len(),
            lex_lt(a@, b@) == lex_lt(a@.skip(i as int), b@.skip(i as int)),
        decreases a.len() - i,
    {
        proof {
            assert(a@.skip(i as int).drop_first() =~= a@.skip(i + 1));
            assert(b@.skip(i as int).drop_first() =~= b@.skip(i + 1));
        }
        i += 1;
    }
    proof {
        if i < a@.len() {
            assert(a@.skip(i as int)[0] == a@[i as int]);
        }
        if i < b@.len() {
            assert(b@.skip(i as int)[0] == b@[i as int]);
        }
    }
    if i == a.len() {
        i < b.len()
    } else if i == b.len() {
        false
    } else {
        a[i] < b[i]
    }
}

/// `s` with `x` put after the last element not greater than it.
pub open spec fn insert_lex(s: Seq<Seq<char>>, x: Seq<char>) -> Seq<Seq<char>>
    decreases s.len(),
{
    if s.len() == 0 {
        seq![x]
    } else if !lex_lt(x, s.last()) {
        s.push(x)
    } else {
        insert_lex(s.drop_last(), x).push(s.last())
    }
}

/// `s` sorted lexicographically (insertion sort).
pub open spec fn sort_lex(s: Seq<Seq<char>>) -> Seq<Seq<char>>
    decreases s.len(),
{
    if s.len() == 0 {
        s
    } else {
        insert_lex(sort_lex(s.drop_last()), s.last())
    }
}

/// The elements of `q` separated by commas.
pub open spec fn join_commas(q: Seq<Seq<char>>) -> Seq<char>
    decreases q.len(),
{
    if q.len() == 0 {
        Seq::empty()
    } else if q.len() == 1 {
        q[0]
    } else {
        join_commas(q.drop_last()) + seq![','] + q.last()
    }
}

proof fn lemma_insert_lex_at(s: Seq<Seq<char>>, x: Seq<char>, j: int)
    requires
        0 <= j <= s.len(),
        forall|k: int| j <= k < s.len() ==> lex_lt(x, #[trigger] s[k]),
        j == 0 || !lex_lt(x, s[j - 1]),
    ensures
        insert_lex(s, x) == s.insert(j, x),
    decreases s.len(),
{
    if s.len() == 0 {
        assert(s.insert(j, x) =~= seq![x]);
    } else if j == s.len() {
        assert(s.insert(j, x) =~= s.push(x));
    } else {
        assert(lex_lt(x, s[s.len() - 1]));
        let d = s.drop_last();
        assert forall|k: int| j <= k < d.len() implies lex_lt(x, #[trigger] d[k]) by {
            assert(d[k] == s[k]);
        }
        if j > 0 {
            assert(d[j - 1] == s[j - 1]);
        }
        lemma_insert_lex_at(d, x, j);
        assert(d.insert(j, x).push(s.last()) =~= s.insert(j, x));
    }
}

/// The label of the dashboard's filter: `all` without one, else its names
/// in lexicographic order, separated by commas.
pub open spec fn filter_label_text(filter: Option<SourceSet>) -> Seq<char> {
    match filter {
        None => "all"@,
        Some(f) => if f.members().len() == 1 && f.members().contains("uniswapx"@) {
            "uniswapx"@
        } else {
            join_commas(sort_lex(name_views(f.names@)))
        },
    }
}

/// The label that the dashboard shows for its filter.
pub fn filter_label(filter: &Option<SourceSet>) -> (res: String)
    requires
        match filter {
            Some(f) => f.wf(),
            None => true,
        },
    ensures
        res@ == filter_label_text(*filter),
{
    let f = match filter {
        None => return "all".to_owned(),
        Some(f) => f,
    };
    if f.len() == 1 && f.contains("uniswapx") {
        return "uniswapx".to_owned();
    }
    let ghost views = name_views(f.names@);
    let mut sorted: Vec<Vec<char>> = Vec::new();
    let n = f.names.len();
    let mut i: usize = 0;
    while i < n
        invariant
            n == f.names@.len(),
            views == name_views(f.names@),
            i <= n,
            sorted@.map_values(|v: Vec<char>| v@) == sort_lex(views.take(i as int)),
        decreases n - i,
    {
        let x = chars_of(f.names[i].as_str());
        let mut j = sorted.len();
        let ghost sv = sorted@.map_values(|v: Vec<char>| v@);
        while j > 0 && lex_less(&x, &sorted[j - 1])
            invariant
                j <= sorted@.len(),
                sv == sorted@.map_values(|v: Vec<char>| v@),
                forall|k: int| j <= k < sv.len() ==> lex_lt(x@, #[trigger] sv[k]),
            decreases j,
        {
            assert(sv[j - 1] == sorted@[j - 1]@);
            j -= 1;
        }
        proof {
            if j > 0 {
                assert(sv[j - 1] == sorted@[j - 1]@);
            }
            lemma_insert_lex_at(sv, x@, j as int);
            assert(views.take(i + 1).drop_last() =~= views.take(i as int));
            assert(views.take(i + 1).last() == x@);
        }
        let ghost xv = x@;
        sorted.insert(j, x);
        assert(sorted@.map_values(|v: Vec<char>| v@) =~= sv.insert(j as int, xv));
        i += 1;
    }
    assert(views.take(n as int) =~= views);
    let ghost q = sorted@.map_values(|v: Vec<char>| v@);
    let mut out: Vec<char> = Vec::new();
    let mut k: usize = 0;
    while k < sorted.len()
        invariant
            k <= sorted@.len(),
            q == sorted@.map_values(|v: Vec<char>| v@),
            out@ == join_commas(q.take(k as int)),
        decreases sorted.len() - k,
    {
        let ghost pre = out@;
        if k > 0 {
            out.push(',');
        }
        let w = &sorted[k];
        let mut p: usize = 0;
        let ghost mid = out@;
        while p < w.len()
            invariant
                p <= w@.len(),
                out@ == mid + w@.take(p as int),
            decreases w.len() - p,
        {
            out.push(w[p]);
            assert(w@.take(p + 1) =~= w@.take(p as int).push(w@[p as int]));
            p += 1;
        }
        proof {
            assert(w@.take(w@.len() as int) =~= w@);
            assert(q[k as int] == w@);
            assert(q.take(k + 1).drop_last() =~= q.take(k as int));
            assert(q.take(k + 1).last() == w@);
            if k == 0 {
                assert(q.take(1) =~= seq![w@]);
                assert(out@ =~= w@);
            } else {
                assert(out@ =~= pre + seq![','] + w@);
            }
        }
        k += 1;
    }
    assert(q.take(sorted@.len() as int) =~= q);
    string_of(&out)
}

/// With the filter that the `u` key sets, exactly the sources whose
/// lowercase name is `uniswapx` are shown; without a filter, every source
/// is.
pub proof fn lemma_uniswapx_filter(f: SourceSet, source: Seq<char>)
    requires
        f.members() == set!["uniswapx"@],
    ensures
        allowed(Some(f), source) <==> lowered(source) == "uniswapx"@,
        allowed(None, source),
{
}

/// Whether a source is shown ignores ASCII case: an ASCII source name
/// written in capitals is shown exactly when the name itself is.
pub proof fn lemma_allowed_ignores_ascii_case(filter: Option<SourceSet>, source: Seq<char>)
    requires
        vstd::utf8::is_ascii_chars(source),
    ensures
        allowed(filter, ascii_upper(source)) == allowed(filter, source),
{
    lemma_lowered_ignores_ascii_case(source);
}

/// A filter's label is made of its own names only: "all" without a
/// filter; otherwise its names in lexicographic order joined by commas,
/// so that a filter holding just the name `n` is labelled `n`.
pub proof fn lemma_filter_label_names(f: SourceSet, n: Seq<char>)
    requires
        f.wf(),
    ensures
        filter_label_text(None) == "all"@,
        filter_label_text(Some(f)) == join_commas(sort_lex(name_views(f.names@))),
        f.members() == set![n] ==> filter_label_text(Some(f)) == n,
{
    let ns = name_views(f.names@);
    ns.unique_seq_to_set();
    if f.members() == set![n] {
        lemma_single_name(ns, n);
    }
    if f.members().len() == 1 && f.members().contains("uniswapx"@) {
        let u = "uniswapx"@;
        assert(ns.contains(u));
        let k = choose|k: int| 0 <= k < ns.len() && ns[k] == u;
        assert(ns.len() == 1);
        assert(ns[0] == u);
        assert(ns =~= seq![u]);
        assert(f.members() =~= set![u]) by {
            assert forall|m: Seq<char>| f.members().contains(m) <==> set![u].contains(m) by {
                if ns.contains(m) {
                    let j = choose|j: int| 0 <= j < ns.len() && ns[j] == m;
                }
            }
        }
        lemma_single_name(ns, u);
    }
}

/// A filter holding two names is labelled with the lexicographically
/// smaller one, a comma, and the other.
pub proof fn lemma_filter_label_two_names(f: SourceSet, a: Seq<char>, b: Seq<char>)
    requires
        f.wf(),
        f.members() == set![a, b],
        lex_lt(a, b),
    ensures
        filter_label_text(Some(f)) == a + seq![','] + b,
{
    let ns = name_views(f.names@);
    lemma_filter_label_names(f, a);
    lemma_lex_asymmetric(a, b);
    assert(a != b) by {
        if a == b {
            lemma_lex_asymmetric(a, a);
        }
    }
    ns.unique_seq_to_set();
    assert(set![a, b].len() == 2) by {
        assert(set![a, b] == set![a].insert(b));
    }
    assert(ns.len() == 2);
    assert(ns.to_set().contains(ns[0]));
    assert(ns.to_set().contains(ns[1]));
    assert(ns.to_set().contains(a));
    assert(ns.to_set().contains(b));
    assert(ns[0] != ns[1]);
    let sorted = seq![a, b];
    assert(seq![ns[0]].drop_last() =~= Seq::<Seq<char>>::empty());
    assert(ns.drop_last() =~= seq![ns[0]]);
    assert(sort_lex(seq![ns[0]]) == seq![ns[0]]) by {
        assert(sort_lex(Seq::<Seq<char>>::empty()) == Seq::<Seq<char>>::empty());
        assert(insert_lex(Seq::<Seq<char>>::empty(), ns[0]) == seq![ns[0]]);
    }
    if ns[0] == a {
        assert(ns[1] == b);
        assert(seq![a].push(b) =~= sorted);
    } else {
        assert(ns[0] == b && ns[1] == a);
        assert(seq![b].drop_last() =~= Seq::<Seq<char>>::empty());
        assert(insert_lex(Seq::<Seq<char>>::empty(), a) == seq![a]);
        assert(seq![a].push(b) =~= sorted);
    }
    assert(sort_lex(ns) == sorted);
    assert(sorted.drop_last() =~= seq![a]);
    assert(join_commas(seq![a]) == a);
}

proof fn lemma_single_name(ns: Seq<Seq<char>>, n: Seq<char>)
    requires
        ns.no_duplicates(),
        ns.to_set() == set![n],
    ensures
        ns == seq![n],
        join_commas(sort_lex(ns)) == n,
{
    assert(ns.to_set().contains(n));
    assert(ns.contains(n));
    assert(ns.len() >= 1);
    if ns.len() >= 2 {
        assert(ns.to_set().contains(ns[0]));
        assert(ns.to_set().contains(ns[1]));
        assert(ns[0] == ns[1]);
    }
    assert(ns[0] == n) by {
        assert(ns.to_set().contains(ns[0]));
    }
    assert(ns =~= seq![n]);
    assert(ns.drop_last() =~= Seq::<Seq<char>>::empty());
    assert(sort_lex(ns.drop_last()) == Seq::<Seq<char>>::empty());
    assert(insert_lex(Seq::<Seq<char>>::empty(), n) == seq![n]);
    assert(sort_lex(ns) == seq![n]);
}

/// A parsed filter holds no empty name.
pub proof fn lemma_listed_sources_nonempty(s: Seq<char>, n: Seq<char>)
    requires
        listed_sources(s).contains(n),
    ensures
        n.len() > 0,
{
}

proof fn lemma_lex_asymmetric(a: Seq<char>, b: Seq<char>)
    ensures
        lex_lt(a, b) ==> !lex_lt(b, a),
    decreases a.len(),
{
    if a.len() > 0 && b.len() > 0 && a[0] == b[0] {
        lemma_lex_asymmetric(a.drop_first(), b.drop_first());
    }
}

proof fn lemma_lex_cotransitive(a: Seq<char>, b: Seq<char>, c: Seq<char>)
    ensures
        lex_lt(a, c) ==> lex_lt(a, b) || lex_lt(b, c),
    decreases a.len(),
{
    if a.len() > 0 && b.len() > 0 && c.len() > 0 && a[0] == b[0] && b[0] == c[0] {
        lemma_lex_cotransitive(a.drop_first(), b.drop_first(), c.drop_first());
    }
}

/// Names come in lexicographic order.
pub open spec fn lex_sorted(q: Seq<Seq<char>>) -> bool {
    forall|i: int, j: int| 0 <= i < j < q.len() ==> !lex_lt(#[trigger] q[j], #[trigger] q[i])
}

proof fn lemma_insert_lex_bounded(s: Seq<Seq<char>>, x: Seq<char>, y: Seq<char>)
    requires
        forall|k: int| 0 <= k < s.len() ==> !lex_lt(y, #[trigger] s[k]),
        !lex_lt(y, x),
    ensures
        forall|k: int| 0 <= k < insert_lex(s, x).len() ==> !lex_lt(y, #[trigger] insert_lex(s, x)[k]),
    decreases s.len(),
{
    if s.len() > 0 && lex_lt(x, s.last()) {
        let d = s.drop_last();
        assert forall|k: int| 0 <= k < d.len() implies !lex_lt(y, #[trigger] d[k]) by {
            assert(d[k] == s[k]);
        }
        lemma_insert_lex_bounded(d, x, y);
        let r = insert_lex(d, x);
        assert forall|k: int| 0 <= k < r.push(s.last()).len() implies !lex_lt(y, #[trigger] r.push(s.last())[k]) by {
            if k == r.len() {
                assert(s.last() == s[s.len() - 1]);
            } else {
                assert(r.push(s.last())[k] == r[k]);
            }
        }
    } else if s.len() > 0 {
        assert forall|k: int| 0 <= k < s.push(x).len() implies !lex_lt(y, #[trigger] s.push(x)[k]) by {
            if k < s.len() {
                assert(s.push(x)[k] == s[k]);
            }
        }
    } else {
        assert(insert_lex(s, x) =~= seq![x]);
    }
}

proof fn lemma_insert_lex_sorted(s: Seq<Seq<char>>, x: Seq<char>)
    requires
        lex_sorted(s),
    ensures
        lex_sorted(insert_lex(s, x)),
        insert_lex(s, x).to_multiset() == s.to_multiset().insert(x),
    decreases s.len(),
{
    broadcast use vstd::seq_lib::group_to_multiset_ensures;

    if s.len() == 0 {
        assert(seq![x] =~= s.push(x));
    } else if !lex_lt(x, s.last()) {
        let r = s.push(x);
        assert forall|i: int, j: int| 0 <= i < j < r.len() implies !lex_lt(#[trigger] r[j], #[trigger] r[i]) by {
            if j == s.len() {
                if i < s.len() - 1 {
                    lemma_lex_cotransitive(x, s.last(), s[i]);
                }
            }
        }
    } else {
        let d = s.drop_last();
        let l = s.last();
        assert(lex_sorted(d)) by {
            assert forall|i: int, j: int| 0 <= i < j < d.len() implies !lex_lt(#[trigger] d[j], #[trigger] d[i]) by {
                assert(d[i] == s[i] && d[j] == s[j]);
            }
        }
        lemma_insert_lex_sorted(d, x);
        assert forall|k: int| 0 <= k < d.len() implies !lex_lt(l, #[trigger] d[k]) by {
            assert(d[k] == s[k]);
            assert(s[s.len() - 1] == l);
        }
        lemma_lex_asymmetric(x, l);
        lemma_insert_lex_bounded(d, x, l);
        assert(d.push(l) =~= s);
        assert(insert_lex(d, x).push(l).to_multiset() =~= s.to_multiset().insert(x));
    }
}

/// The filter's label lists its names in lexicographic order, each as
/// often as the filter holds it: sorting only reorders.
pub proof fn lemma_sort_lex(s: Seq<Seq<char>>)
    ensures
        lex_sorted(sort_lex(s)),
        sort_lex(s).to_multiset() == s.to_multiset(),
    decreases s.len(),
{
    broadcast use vstd::seq_lib::group_to_multiset_ensures;

    if s.len() > 0 {
        lemma_sort_lex(s.drop_last());
        lemma_insert_lex_sorted(sort_lex(s.drop_last()), s.last());
        assert(s.drop_last().push(s.last()) =~= s);
    }
}

} // verus!
