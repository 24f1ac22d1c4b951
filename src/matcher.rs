use vstd::prelude::*;

verus! {

/// The lower case of a character, as Unicode maps it: one or more characters.
pub uninterp spec fn lower_of(c: char) -> Seq<char>;

/// Characters after which a match counts as the start of a word.
pub open spec fn is_separator(c: char) -> bool {
    c == ' ' || c == '-' || c == '_' || c == '/' || c == '.' || c == ':'
}

/// Whether text character `t` matches query character `q`.
pub open spec fn chars_match(t: char, q: char, case_sensitive: bool) -> bool {
    if case_sensitive {
        t == q
    } else {
        lower_of(t) == lower_of(q)
    }
}

/// Whether a query is compared case-sensitively: always when asked, and with
/// smart case whenever the query holds an upper-case character.
pub open spec fn effective_case(q: Seq<char>, case_sensitive: bool, smart_case: bool) -> bool {
    case_sensitive || (smart_case && exists|i: int|
        0 <= i < q.len() && uppercase_of(#[trigger] q[i]))
}

/// Leftmost subsequence match of `q[j..]` in `t[i..]`: each query character is
/// matched to the first matching text character after the previous one.
pub open spec fn greedy_from(t: Seq<char>, q: Seq<char>, cs: bool, i: int, j: int) -> Option<
    Seq<usize>,
>
    decreases t.len() - i,
{
    if j >= q.len() {
        Some(Seq::empty())
    } else if i >= t.len() || i < 0 {
        None
    } else if chars_match(t[i], q[j], cs) {
        match greedy_from(t, q, cs, i + 1, j + 1) {
            Some(p) => Some(seq![i as usize] + p),
            None => None,
        }
    } else {
        greedy_from(t, q, cs, i + 1, j)
    }
}

/// The highlight positions of `q` in `t`, or `None` when the characters of `q`
/// do not all appear in `t` in order.
pub open spec fn match_positions(t: Seq<char>, q: Seq<char>, cs: bool) -> Option<Seq<usize>> {
    greedy_from(t, q, cs, 0, 0)
}

/// Positions are character indices into the text, strictly increasing, and the
/// text character at the k-th position matches the k-th query character.
pub open spec fn valid_positions(t: Seq<char>, q: Seq<char>, cs: bool, p: Seq<usize>) -> bool {
    &&& p.len() == q.len()
    &&& forall|k: int| 0 <= k < p.len() ==> (#[trigger] p[k] as int) < t.len()
    &&& forall|k: int, l: int| 0 <= k < l < p.len() ==> #[trigger] p[k] < #[trigger] p[l]
    &&& forall|k: int| 0 <= k < p.len() ==> chars_match(t[#[trigger] p[k] as int], q[k], cs)
}

pub proof fn lemma_greedy_valid(t: Seq<char>, q: Seq<char>, cs: bool, i: int, j: int)
    requires
        0 <= i,
        0 <= j <= q.len(),
        t.len() <= usize::MAX,
        greedy_from(t, q, cs, i, j) is Some,
    ensures
        ({
            let p = greedy_from(t, q, cs, i, j)->0;
            &&& p.len() == q.len() - j
            &&& forall|k: int| 0 <= k < p.len() ==> i <= (#[trigger] p[k] as int) < t.len()
            &&& forall|k: int, l: int| 0 <= k < l < p.len() ==> #[trigger] p[k] < #[trigger] p[l]
            &&& forall|k: int| 0 <= k < p.len() ==> chars_match(t[#[trigger] p[k] as int], q[j + k], cs)
        }),
    decreases t.len() - i,
{
    if j < q.len() {
        if chars_match(t[i], q[j], cs) {
            lemma_greedy_valid(t, q, cs, i + 1, j + 1);
            let rest = greedy_from(t, q, cs, i + 1, j + 1)->0;
            let p = seq![i as usize] + rest;
            assert(p[0] as int == i);
            assert forall|k: int| 0 <= k < p.len() implies chars_match(
                t[#[trigger] p[k] as int],
                q[j + k],
                cs,
            ) by {
                if k > 0 {
                    assert(p[k] == rest[k - 1]);
                }
            }
            assert forall|k: int, l: int| 0 <= k < l < p.len() implies #[trigger] p[k] < #[trigger] p[l] by {
                if k > 0 {
                    assert(p[k] == rest[k - 1]);
                }
                assert(p[l] == rest[l - 1]);
            }
            assert forall|k: int| 0 <= k < p.len() implies i <= (#[trigger] p[k] as int) < t.len() by {
                if k > 0 {
                    assert(p[k] == rest[k - 1]);
                }
            }
        } else {
            lemma_greedy_valid(t, q, cs, i + 1, j);
        }
    }
}

/// What a match found is: its positions are valid highlights for the query.
pub proof fn lemma_match_positions_valid(t: Seq<char>, q: Seq<char>, cs: bool)
    requires
        t.len() <= usize::MAX,
        match_positions(t, q, cs) is Some,
    ensures
        valid_positions(t, q, cs, match_positions(t, q, cs)->0),
{
    lemma_greedy_valid(t, q, cs, 0, 0);
}

/// The score that one matched character adds: one for the match, two more
/// when it starts a word, two more when it continues the previous match.
pub open spec fn char_bonus(t: Seq<char>, p: Seq<usize>, k: int) -> nat {
    1 + (if p[k] == 0 || is_separator(t[p[k] - 1]) {
        2nat
    } else {
        0nat
    }) + (if k > 0 && p[k] == p[k - 1] + 1 {
        2nat
    } else {
        0nat
    })
}

pub open spec fn score_upto(t: Seq<char>, p: Seq<usize>, k: int) -> nat
    decreases k,
{
    if k <= 0 {
        0
    } else {
        score_upto(t, p, k - 1) + char_bonus(t, p, k - 1)
    }
}

/// The score of a match, saturated to the range of `u64`.
pub open spec fn match_score(t: Seq<char>, p: Seq<usize>) -> u64 {
    let s = score_upto(t, p, p.len() as int);
    if s > u64::MAX {
        u64::MAX
    } else {
        s as u64
    }
}

/// Relies on char::to_lowercase: the characters of the lower case of `c`,
/// which depend on `c` alone.
#[verifier::external_body]
fn char_to_lowercase(c: char) -> (r: String)
    ensures
        r@ == lower_of(c),
{
    c.to_lowercase().collect()
}

fn same_char(t: char, q: char, case_sensitive: bool) -> (r: bool)
    ensures
        r == chars_match(t, q, case_sensitive),
{
    if case_sensitive {
        t == q
    } else {
        char_to_lowercase(t) == char_to_lowercase(q)
    }
}

fn separator(c: char) -> (r: bool)
    ensures
        r == is_separator(c),
{
    c == ' ' || c == '-' || c == '_' || c == '/' || c == '.' || c == ':'
}

/// The characters of a string, one by one.
pub fn chars_of(s: &str) -> (r: Vec<char>)
    ensures
        r@ == s@,
        s@.len() <= usize::MAX,
{
    let n = s.unicode_len();
    let mut r: Vec<char> = Vec::new();
    let mut i: usize = 0;
    while i < n
        invariant
            n == s@.len(),
            i <= n,
            r@ == s@.subrange(0, i as int),
        decreases n - i,
    {
        r.push(s.get_char(i));
        i = i + 1;
    }
    assert(r@ =~= s@);
    r
}

/// Whether a character has Unicode's Uppercase property.
pub uninterp spec fn uppercase_of(c: char) -> bool;

/// Relies on char::is_uppercase: whether the character has Unicode's
/// Uppercase property, which depends on the character alone.
#[verifier::external_body]
fn char_is_uppercase(c: char) -> (r: bool)
    ensures
        r == uppercase_of(c),
{
    c.is_uppercase()
}

/// Whether the query asks for case-sensitive comparison under the given options.
pub fn is_case_sensitive(q: &Vec<char>, case_sensitive: bool, smart_case: bool) -> (r: bool)
    ensures
        r == effective_case(q@, case_sensitive, smart_case),
{
    if case_sensitive {
        return true;
    }
    if !smart_case {
        return false;
    }
    let mut i: usize = 0;
    while i < q.len()
        invariant
            !case_sensitive,
            smart_case,
            i <= q@.len(),
            forall|k: int| 0 <= k < i ==> !uppercase_of(#[trigger] q@[k]),
        decreases q.len() - i,
    {
        if char_is_uppercase(q[i]) {
            assert(uppercase_of(q@[i as int]));
            assert(exists|k: int| 0 <= k < q@.len() && uppercase_of(#[trigger] q@[k]));
            return true;
        }
        i = i + 1;
    }
    false
}

/// The leftmost highlight positions of `q` in `t`, or `None` when `q` is not a
/// subsequence of `t` under the given case rule.
pub fn fuzzy_positions(t: &Vec<char>, q: &Vec<char>, cs: bool) -> (r: Option<Vec<usize>>)
    ensures
        match r {
            Some(p) => match_positions(t@, q@, cs) == Some(p@),
            None => match_positions(t@, q@, cs) is None,
        },
{
    let mut positions: Vec<usize> = Vec::new();
    let mut i: usize = 0;
    let mut j: usize = 0;
    while i < t.len() && j < q.len()
        invariant
            i <= t@.len(),
            j <= q@.len(),
            positions@.len() == j,
            match_positions(t@, q@, cs) == match greedy_from(t@, q@, cs, i as int, j as int) {
                Some(p) => Some(positions@ + p),
                None => None,
            },
        decreases t.len() - i,
    {
        if same_char(t[i], q[j], cs) {
            let ghost before = positions@;
            positions.push(i);
            proof {
                match greedy_from(t@, q@, cs, i + 1, j + 1) {
                    Some(p) => {
                        assert(before + (seq![i] + p) =~= positions@ + p);
                    },
                    None => {},
                }
            }
            j = j + 1;
        } else {
            assert(!chars_match(t@[i as int], q@[j as int], cs));
            assert(greedy_from(t@, q@, cs, i as int, j as int) == greedy_from(t@, q@, cs, i + 1, j as int));
        }
        i = i + 1;
    }
    if j == q.len() {
        assert(positions@ + Seq::<usize>::empty() =~= positions@);
        Some(positions)
    } else {
        None
    }
}

/// The score of the highlight positions `p` in `t`.
pub fn score_positions(t: &Vec<char>, p: &Vec<usize>) -> (r: u64)
    requires
        forall|k: int| 0 <= k < p@.len() ==> (#[trigger] p@[k] as int) < t@.len(),
    ensures
        r == match_score(t@, p@),
{
    let mut s: u64 = 0;
    let mut k: usize = 0;
    while k < p.len()
        invariant
            k <= p@.len(),
            forall|k: int| 0 <= k < p@.len() ==> (#[trigger] p@[k] as int) < t@.len(),
            s as int == if score_upto(t@, p@, k as int) > u64::MAX {
                u64::MAX as int
            } else {
                score_upto(t@, p@, k as int) as int
            },
        decreases p.len() - k,
    {
        let pos = p[k];
        let mut b: u64 = 1;
        if pos == 0 || separator(t[pos - 1]) {
            b = b + 2;
        }
        if k > 0 && p[k - 1] < pos && pos - p[k - 1] == 1 {
            b = b + 2;
        }
        assert(b == char_bonus(t@, p@, k as int));
        s = s.saturating_add(b);
        k = k + 1;
    }
    s
}

/// One match of a query against a candidate: the candidate's index, the
/// match's score and the character positions to highlight.
pub struct StringMatch {
    pub candidate_id: usize,
    pub score: u64,
    pub positions: Vec<usize>,
}

/// The candidates' texts as character sequences.
pub open spec fn candidate_texts(cands: Seq<String>) -> Seq<Seq<char>> {
    cands.map_values(|s: String| s@)
}

pub open spec fn cand_positions(tv: Seq<Seq<char>>, q: Seq<char>, cs: bool, c: int) -> Option<
    Seq<usize>,
> {
    match_positions(tv[c], q, cs)
}

pub open spec fn cand_score(tv: Seq<Seq<char>>, q: Seq<char>, cs: bool, c: int) -> u64 {
    match_score(tv[c], cand_positions(tv, q, cs, c)->0)
}

/// Order of rank: higher score first, then shorter text, then lower index.
pub open spec fn key_before(sa: int, la: int, a: int, sb: int, lb: int, b: int) -> bool {
    sa > sb || (sa == sb && (la < lb || (la == lb && a < b)))
}

/// Candidate `a` ranks before candidate `b` for the query.
pub open spec fn ranks_before(tv: Seq<Seq<char>>, q: Seq<char>, cs: bool, a: int, b: int) -> bool {
    key_before(
        cand_score(tv, q, cs, a) as int,
        tv[a].len() as int,
        a,
        cand_score(tv, q, cs, b) as int,
        tv[b].len() as int,
        b,
    )
}

/// `m` is the match of the candidate it names: its positions and score.
pub open spec fn is_match_entry(tv: Seq<Seq<char>>, q: Seq<char>, cs: bool, m: StringMatch) -> bool {
    &&& m.candidate_id < tv.len()
    &&& cand_positions(tv, q, cs, m.candidate_id as int) == Some(m.positions@)
    &&& m.score == cand_score(tv, q, cs, m.candidate_id as int)
}

/// `r` holds, best first, the matches of the candidates that match, as many
/// as `max` allows: every matching candidate left out ranks after all of `r`.
pub open spec fn is_top_matches(
    tv: Seq<Seq<char>>,
    q: Seq<char>,
    cs: bool,
    max: nat,
    r: Seq<StringMatch>,
) -> bool {
    &&& r.len() <= max
    &&& forall|k: int| 0 <= k < r.len() ==> is_match_entry(tv, q, cs, #[trigger] r[k])
    &&& forall|k: int, l: int|
        0 <= k < l < r.len() ==> ranks_before(
            tv,
            q,
            cs,
            #[trigger] r[k].candidate_id as int,
            #[trigger] r[l].candidate_id as int,
        )
    &&& forall|c: int|
        0 <= c < tv.len() && cand_positions(tv, q, cs, c) is Some ==> #[trigger] covers(
            tv,
            q,
            cs,
            max,
            r,
            c,
        )
}

/// Candidate `c` is in `r`, or `r` is full and all of it ranks before `c`.
pub open spec fn covers(
    tv: Seq<Seq<char>>,
    q: Seq<char>,
    cs: bool,
    max: nat,
    r: Seq<StringMatch>,
    c: int,
) -> bool {
    ||| exists|k: int| 0 <= k < r.len() && #[trigger] r[k].candidate_id == c
    ||| (r.len() == max && forall|k: int|
        0 <= k < r.len() ==> ranks_before(tv, q, cs, #[trigger] r[k].candidate_id as int, c))
}

/// `r` is ranked and holds only matches of candidates before `c`.
pub open spec fn ranked_prefix(
    tv: Seq<Seq<char>>,
    q: Seq<char>,
    cs: bool,
    max: nat,
    r: Seq<StringMatch>,
    c: int,
) -> bool {
    &&& r.len() <= max
    &&& forall|k: int|
        0 <= k < r.len() ==> is_match_entry(tv, q, cs, #[trigger] r[k]) && r[k].candidate_id < c
    &&& forall|k: int, l: int|
        0 <= k < l < r.len() ==> ranks_before(
            tv,
            q,
            cs,
            #[trigger] r[k].candidate_id as int,
            #[trigger] r[l].candidate_id as int,
        )
}

fn ranked_before(sa: u64, la: usize, a: usize, sb: u64, lb: usize, b: usize) -> (r: bool)
    ensures
        r == key_before(sa as int, la as int, a as int, sb as int, lb as int, b as int),
{
    sa > sb || (sa == sb && (la < lb || (la == lb && a < b)))
}

fn entry_before(
    e: &StringMatch,
    m: &StringMatch,
    texts: &Vec<Vec<char>>,
    Ghost(tv): Ghost<Seq<Seq<char>>>,
    Ghost(q): Ghost<Seq<char>>,
    Ghost(cs): Ghost<bool>,
) -> (r: bool)
    requires
        texts@.len() == tv.len(),
        forall|i: int| 0 <= i < tv.len() ==> (#[trigger] texts@[i])@ == tv[i],
        is_match_entry(tv, q, cs, *e),
        is_match_entry(tv, q, cs, *m),
    ensures
        r == ranks_before(tv, q, cs, e.candidate_id as int, m.candidate_id as int),
{
    let le = texts[e.candidate_id].len();
    let lm = texts[m.candidate_id].len();
    assert(texts@[e.candidate_id as int]@ == tv[e.candidate_id as int]);
    assert(texts@[m.candidate_id as int]@ == tv[m.candidate_id as int]);
    ranked_before(e.score, le, e.candidate_id, m.score, lm, m.candidate_id)
}

#[verifier::rlimit(60)]
proof fn lemma_insert_ranked(
    tv: Seq<Seq<char>>,
    q: Seq<char>,
    cs: bool,
    max: nat,
    old_r: Seq<StringMatch>,
    k: int,
    m: StringMatch,
)
    requires
        0 <= k <= old_r.len(),
        k < max,
        ranked_prefix(tv, q, cs, max, old_r, m.candidate_id as int),
        is_match_entry(tv, q, cs, m),
        forall|l: int| 0 <= l < k ==> ranks_before(tv, q, cs, #[trigger] old_r[l].candidate_id as int, m.candidate_id as int),
        forall|l: int| k <= l < old_r.len() ==> ranks_before(tv, q, cs, m.candidate_id as int, #[trigger] old_r[l].candidate_id as int),
    ensures
        ({
            let ins = old_r.insert(k, m);
            let fin = if ins.len() > max { ins.drop_last() } else { ins };
            &&& ranked_prefix(tv, q, cs, max, fin, m.candidate_id + 1)
            &&& covers(tv, q, cs, max, fin, m.candidate_id as int)
            &&& forall|c: int|
                0 <= c < m.candidate_id && #[trigger] covers(tv, q, cs, max, old_r, c)
                    ==> covers(tv, q, cs, max, fin, c)
        }),
{
    let c = m.candidate_id as int;
    let ins = old_r.insert(k, m);
    let fin = if ins.len() > max { ins.drop_last() } else { ins };
    old_r.insert_ensures(k, m);
    assert forall|a: int, b: int| 0 <= a < b < ins.len() implies ranks_before(
        tv, q, cs, #[trigger] ins[a].candidate_id as int, #[trigger] ins[b].candidate_id as int) by {
        if b < k {
        } else if b == k {
        } else if a < k {
            assert(ins[b] == old_r[b - 1]);
        } else if a == k {
            assert(ins[b] == old_r[b - 1]);
        } else {
            assert(ins[a] == old_r[a - 1]);
            assert(ins[b] == old_r[b - 1]);
        }
    }
    assert forall|a: int| 0 <= a < ins.len() implies is_match_entry(tv, q, cs, #[trigger] ins[a]) && ins[a].candidate_id < c + 1 by {
        if a > k {
            assert(ins[a] == old_r[a - 1]);
        }
    }
    assert(forall|a: int| 0 <= a < fin.len() ==> fin[a] == ins[a]);
    assert(fin[k] == m);
    assert forall|cc: int| 0 <= cc < c && #[trigger] covers(tv, q, cs, max, old_r, cc)
        implies covers(tv, q, cs, max, fin, cc) by {
        if exists|j: int| 0 <= j < old_r.len() && #[trigger] old_r[j].candidate_id == cc {
            let j = choose|j: int| 0 <= j < old_r.len() && #[trigger] old_r[j].candidate_id == cc;
            let j2 = if j < k { j } else { j + 1 };
            assert(ins[j2].candidate_id == cc);
            if j2 < fin.len() {
                assert(fin[j2].candidate_id == cc);
            } else {
                assert forall|a: int| 0 <= a < fin.len() implies ranks_before(tv, q, cs, #[trigger] fin[a].candidate_id as int, cc) by {
                    assert(ins[a] == fin[a]);
                }
            }
        } else {
            assert(old_r.len() == max);
            assert(ranks_before(tv, q, cs, old_r[k].candidate_id as int, cc));
            assert forall|a: int| 0 <= a < fin.len() implies ranks_before(tv, q, cs, #[trigger] fin[a].candidate_id as int, cc) by {
                assert(ins[a] == fin[a]);
                if a > k {
                    assert(ins[a] == old_r[a - 1]);
                }
            }
        }
    }
    assert(fin[k].candidate_id == c);
}

/// Adds the match `m` of a candidate that comes after every candidate in `r`,
/// keeping in `r` the best `max` of them in rank order.
fn insert_ranked(
    r: &mut Vec<StringMatch>,
    m: StringMatch,
    max: usize,
    texts: &Vec<Vec<char>>,
    Ghost(tv): Ghost<Seq<Seq<char>>>,
    Ghost(q): Ghost<Seq<char>>,
    Ghost(cs): Ghost<bool>,
)
    requires
        max > 0,
        texts@.len() == tv.len(),
        forall|i: int| 0 <= i < tv.len() ==> (#[trigger] texts@[i])@ == tv[i],
        ranked_prefix(tv, q, cs, max as nat, old(r)@, m.candidate_id as int),
        is_match_entry(tv, q, cs, m),
    ensures
        ranked_prefix(tv, q, cs, max as nat, final(r)@, m.candidate_id + 1),
        covers(tv, q, cs, max as nat, final(r)@, m.candidate_id as int),
        forall|c: int|
            0 <= c < m.candidate_id && #[trigger] covers(tv, q, cs, max as nat, old(r)@, c)
                ==> covers(tv, q, cs, max as nat, final(r)@, c),
{
    let ghost old_r = r@;
    let ghost c = m.candidate_id as int;
    let mut k: usize = 0;
    while k < r.len() && entry_before(&r[k], &m, texts, Ghost(tv), Ghost(q), Ghost(cs))
        invariant
            k <= r@.len(),
            r@ == old_r,
            c == m.candidate_id,
            texts@.len() == tv.len(),
            forall|i: int| 0 <= i < tv.len() ==> (#[trigger] texts@[i])@ == tv[i],
            ranked_prefix(tv, q, cs, max as nat, old_r, c),
            is_match_entry(tv, q, cs, m),
            forall|l: int| 0 <= l < k ==> ranks_before(tv, q, cs, #[trigger] old_r[l].candidate_id as int, c),
        decreases r.len() - k,
    {
        k = k + 1;
    }
    proof {
        if k < old_r.len() {
            assert(!ranks_before(tv, q, cs, old_r[k as int].candidate_id as int, c));
            assert forall|l: int| k <= l < old_r.len() implies ranks_before(tv, q, cs, c, #[trigger] old_r[l].candidate_id as int) by {
                if l > k {
                    assert(ranks_before(tv, q, cs, old_r[k as int].candidate_id as int, old_r[l].candidate_id as int));
                }
            }
        }
    }
    if k >= max {
        return;
    }
    proof {
        lemma_insert_ranked(tv, q, cs, max as nat, old_r, k as int, m);
    }
    r.insert(k, m);
    if r.len() > max {
        r.pop();
    }
}

/// Matches `query` against every candidate, each identified by its index.
///
/// An empty query matches every candidate, in the given order, with no
/// highlights and a score of zero, whatever `max_results` is. Otherwise a
/// candidate matches when the query's characters appear in it in order,
/// compared by their Unicode lower case unless the query is case-sensitive;
/// the result holds the best `max_results` matches, best first.
pub fn match_strings(
    candidates: &Vec<String>,
    query: &str,
    case_sensitive: bool,
    smart_case: bool,
    max_results: usize,
) -> (r: Vec<StringMatch>)
    ensures
        query@.len() == 0 ==> {
            &&& r@.len() == candidates@.len()
            &&& forall|k: int|
                0 <= k < r@.len() ==> (#[trigger] r@[k]).candidate_id == k && r@[k].score == 0
                    && r@[k].positions@.len() == 0
        },
        query@.len() > 0 ==> is_top_matches(
            candidate_texts(candidates@),
            query@,
            effective_case(query@, case_sensitive, smart_case),
            max_results as nat,
            r@,
        ),
        query@.len() > 0 ==> forall|k: int|
            0 <= k < r@.len() ==> valid_positions(
                candidates@[(#[trigger] r@[k]).candidate_id as int]@,
                query@,
                effective_case(query@, case_sensitive, smart_case),
                r@[k].positions@,
            ),
{
    let qv = chars_of(query);
    let n = candidates.len();
    let mut r: Vec<StringMatch> = Vec::new();
    if qv.len() == 0 {
        let mut i: usize = 0;
        while i < n
            invariant
                n == candidates@.len(),
                i <= n,
                r@.len() == i,
                forall|k: int|
                    0 <= k < i ==> (#[trigger] r@[k]).candidate_id == k && r@[k].score == 0
                        && r@[k].positions@.len() == 0,
            decreases n - i,
        {
            r.push(StringMatch { candidate_id: i, score: 0, positions: Vec::new() });
            i = i + 1;
        }
        return r;
    }
    let cs = is_case_sensitive(&qv, case_sensitive, smart_case);
    let ghost tv = candidate_texts(candidates@);
    let mut texts: Vec<Vec<char>> = Vec::new();
    let mut i: usize = 0;
    while i < n
        invariant
            n == candidates@.len(),
            tv == candidate_texts(candidates@),
            i <= n,
            texts@.len() == i,
            forall|j: int| 0 <= j < i ==> (#[trigger] texts@[j])@ == tv[j],
            forall|j: int| 0 <= j < i ==> (#[trigger] tv[j]).len() <= usize::MAX,
        decreases n - i,
    {
        texts.push(chars_of(candidates[i].as_str()));
        i = i + 1;
    }
    if max_results == 0 {
        return r;
    }
    proof {
        assert forall|j: int| 0 <= j < n implies (#[trigger] tv[j]).len() <= usize::MAX by {}
    }
    let mut c: usize = 0;
    while c < n
        invariant
            n == tv.len(),
            qv@ == query@,
            max_results > 0,
            c <= n,
            texts@.len() == tv.len(),
            forall|j: int| 0 <= j < tv.len() ==> (#[trigger] texts@[j])@ == tv[j],
            forall|j: int| 0 <= j < tv.len() ==> (#[trigger] tv[j]).len() <= usize::MAX,
            tv == candidate_texts(candidates@),
            ranked_prefix(tv, qv@, cs, max_results as nat, r@, c as int),
            forall|cc: int|
                0 <= cc < c && cand_positions(tv, qv@, cs, cc) is Some ==> #[trigger] covers(
                    tv,
                    qv@,
                    cs,
                    max_results as nat,
                    r@,
                    cc,
                ),
        decreases n - c,
    {
        let t = &texts[c];
        let tl = t.len();
        assert(t@ == tv[c as int]);
        match fuzzy_positions(t, &qv, cs) {
            Some(p) => {
                proof {
                    lemma_match_positions_valid(t@, qv@, cs);
                }
                let score = score_positions(t, &p);
                let ghost before = r@;
                insert_ranked(
                    &mut r,
                    StringMatch { candidate_id: c, score, positions: p },
                    max_results,
                    &texts,
                    Ghost(tv),
                    Ghost(qv@),
                    Ghost(cs),
                );
                proof {
                    assert forall|cc: int|
                        0 <= cc < c + 1 && cand_positions(tv, qv@, cs, cc) is Some implies #[trigger] covers(
                        tv,
                        qv@,
                        cs,
                        max_results as nat,
                        r@,
                        cc,
                    ) by {
                        if cc < c {
                            assert(covers(tv, qv@, cs, max_results as nat, before, cc));
                        }
                    }
                }
            },
            None => {},
        }
        c = c + 1;
    }
    proof {
        assert forall|k: int| 0 <= k < r@.len() implies valid_positions(
            candidates@[(#[trigger] r@[k]).candidate_id as int]@,
            query@,
            cs,
            r@[k].positions@,
        ) by {
            let id = r@[k].candidate_id as int;
            assert(is_match_entry(tv, qv@, cs, r@[k]));
            lemma_match_positions_valid(tv[id], qv@, cs);
        }
    }
    r
}

} // verus!
