//! Choosing among several candidates that a fuzzy search scored about equally.
//!
//! The candidates are ordered from the longest key to the shortest. A key that a
//! shorter key is a (reordered) prefix of points to that shorter key; starting from
//! the strongest candidate, the search follows these edges down to the sinks, the
//! candidates that no shorter candidate prefixes, and keeps the strongest sink. If
//! that sink prefixes the best-scoring answer, the answer wins after all.
use crate::fuzzy::{byte_len, is_prefix, spec_is_prefix, FuzzKey};
use crate::script::{name_key, ScriptInfo};
use crate::text::str_eq;
use crate::util::{count_false, lemma_count_false_bound, lemma_count_false_mono, lemma_count_false_set};
use crate::Either;
use vstd::prelude::*;

verus! {

/// An object that fuzzy search can rank against others of its kind.
pub trait MultiFuzzObj: FuzzKey {
    spec fn spec_beats(&self, other: &Self) -> bool;

    fn beats(&self, other: &Self) -> (r: bool)
        ensures
            r == self.spec_beats(other),
    ;
}

/// The separator of the parts of a key.
pub open spec fn key_sep() -> Seq<char> {
    seq!['/']
}

/// Length in bytes of the key of `x`.
pub open spec fn key_len<T: FuzzKey>(x: T) -> usize {
    byte_len(x.spec_fuzz_key())
}

/// `s` with `x` placed after every leading candidate whose key is at least as
/// long as that of `x`.
pub open spec fn insert_by_len<T: FuzzKey>(s: Seq<(T, bool)>, x: (T, bool)) -> Seq<(T, bool)>
    decreases s.len(),
{
    if s.len() == 0 {
        seq![x]
    } else if key_len(s[0].0) >= key_len(x.0) {
        seq![s[0]] + insert_by_len(s.drop_first(), x)
    } else {
        seq![x] + s
    }
}

/// Stable sort from the longest key to the shortest.
pub open spec fn sort_by_len<T: FuzzKey>(s: Seq<(T, bool)>) -> Seq<(T, bool)>
    decreases s.len(),
{
    if s.len() == 0 {
        s
    } else {
        insert_by_len(sort_by_len(s.drop_last()), s.last())
    }
}

/// Keys never grow along `s`.
pub open spec fn longest_first<T: FuzzKey>(s: Seq<(T, bool)>) -> bool {
    forall|i: int, j: int| 0 <= i < j < s.len() ==> key_len(#[trigger] s[i].0) >= key_len(#[trigger] s[j].0)
}

/// Among the first `k` candidates, the position of the strongest one; of several
/// that nothing beats, the first.
pub open spec fn max_pos<T: MultiFuzzObj>(c: Seq<(T, bool)>, k: int) -> int
    decreases k,
{
    if k <= 1 {
        0
    } else {
        let m = max_pos(c, k - 1);
        if c[k - 1].0.spec_beats(&c[m].0) {
            k - 1
        } else {
            m
        }
    }
}

/// Among the first `k` candidates, the position of the last one marked as the
/// answer (0 when none is).
pub open spec fn ans_pos<T>(c: Seq<(T, bool)>, k: int) -> int
    decreases k,
{
    if k <= 1 {
        0
    } else if c[k - 1].1 {
        k - 1
    } else {
        ans_pos(c, k - 1)
    }
}

/// The position `ans_pos` picks lies among the first `k`; unless it is 0 with
/// no candidate marked, it holds a marked candidate and none after it is marked.
pub proof fn law_ans_pos_is_last_marked<T>(c: Seq<(T, bool)>, k: int)
    requires
        1 <= k <= c.len(),
    ensures
        0 <= ans_pos(c, k) < k,
        forall|j: int| ans_pos(c, k) < j < k ==> !(#[trigger] c[j]).1,
        ans_pos(c, k) != 0 ==> c[ans_pos(c, k)].1,
    decreases k,
{
    if k > 1 {
        law_ans_pos_is_last_marked(c, k - 1);
    }
}

/// When `beats` is a strict order (never true of a candidate against itself,
/// and transitive), no candidate among the first `k` beats the one at `max_pos`,
/// which lies among them.
pub proof fn law_max_pos_unbeaten<T: MultiFuzzObj>(c: Seq<(T, bool)>, k: int)
    requires
        1 <= k <= c.len(),
        forall|a: T| !#[trigger] a.spec_beats(&a),
        forall|a: T, b: T, d: T| #[trigger] a.spec_beats(&b) && #[trigger] b.spec_beats(&d) ==> a.spec_beats(&d),
    ensures
        0 <= max_pos(c, k) < k,
        forall|j: int| 0 <= j < k ==> !(#[trigger] c[j]).0.spec_beats(&c[max_pos(c, k)].0),
    decreases k,
{
    if k > 1 {
        law_max_pos_unbeaten(c, k - 1);
        let m0 = max_pos(c, k - 1);
        let m = max_pos(c, k);
        assert forall|j: int| 0 <= j < k implies !(#[trigger] c[j]).0.spec_beats(&c[m].0) by {
            if m == k - 1 && j < k - 1 && c[j].0.spec_beats(&c[m].0) {
                assert(c[m].0.spec_beats(&c[m0].0));
                assert(c[j].0.spec_beats(&c[m0].0));
                assert(!(c[j]).0.spec_beats(&c[m0].0));
            }
            if j == m {
                assert(!c[m].0.spec_beats(&c[m].0));
            }
        }
    }
}

/// When `beats` is a strict weak order (never true of a candidate against
/// itself, transitive, and such that not beating is transitive too), the
/// candidate at `max_pos` beats every candidate before it: of the best ones, it
/// is the first.
pub proof fn law_max_pos_first_best<T: MultiFuzzObj>(c: Seq<(T, bool)>, k: int)
    requires
        1 <= k <= c.len(),
        forall|a: T| !#[trigger] a.spec_beats(&a),
        forall|a: T, b: T, d: T| #[trigger] a.spec_beats(&b) && #[trigger] b.spec_beats(&d) ==> a.spec_beats(&d),
        forall|a: T, b: T, d: T|
            !#[trigger] a.spec_beats(&b) && !#[trigger] b.spec_beats(&d) ==> !a.spec_beats(&d),
    ensures
        forall|j: int| 0 <= j < max_pos(c, k) ==> c[max_pos(c, k)].0.spec_beats(&(#[trigger] c[j]).0),
    decreases k,
{
    if k > 1 {
        law_max_pos_first_best(c, k - 1);
        law_max_pos_unbeaten(c, k - 1);
        let m0 = max_pos(c, k - 1);
        let m = max_pos(c, k);
        if m != m0 {
            assert(m == k - 1 && c[m].0.spec_beats(&c[m0].0));
            assert forall|j: int| 0 <= j < m implies c[m].0.spec_beats(&(#[trigger] c[j]).0) by {
                if j < m0 {
                    assert(c[m0].0.spec_beats(&c[j].0));
                } else if j > m0 {
                    assert(!c[j].0.spec_beats(&c[m0].0));
                    if !c[m].0.spec_beats(&c[j].0) {
                        assert(!c[m].0.spec_beats(&c[m0].0));
                    }
                }
            }
        }
    }
}

/// An edge of the search: the shorter key of candidate `i` is a prefix of the key
/// of candidate `cur`.
pub open spec fn extends<T: FuzzKey>(c: Seq<(T, bool)>, cur: int, i: int) -> bool {
    key_len(c[i].0) != key_len(c[cur].0) && spec_is_prefix(
        c[i].0.spec_fuzz_key(),
        c[cur].0.spec_fuzz_key(),
        key_sep(),
    )
}

/// The best sink so far after reaching sink `off`.
pub open spec fn pick_sink<T: MultiFuzzObj>(c: Seq<(T, bool)>, off: int, best: Option<int>) -> Option<int> {
    match best {
        Some(b) => if c[off].0.spec_beats(&c[b].0) {
            Some(off)
        } else {
            Some(b)
        },
        None => Some(off),
    }
}

/// Depth-first search from candidate `off`: marks it visited, searches every
/// unvisited later candidate it has an edge to, and, when there is none, counts it
/// as a sink. Returns the visited marks and the best sink. The fuel bounds the
/// depth; each nested visit is to a candidate not visited before.
pub open spec fn dag_sink<T: MultiFuzzObj>(
    c: Seq<(T, bool)>,
    fuel: nat,
    off: int,
    visited: Seq<bool>,
    best: Option<int>,
) -> (Seq<bool>, Option<int>)
    decreases fuel, c.len() + 1,
{
    if fuel == 0 || !(0 <= off < c.len()) {
        (visited, best)
    } else {
        dag_sink_from(c, fuel, off, off + 1, visited.update(off, true), best, false)
    }
}

/// The loop of `dag_sink` at candidate `cur`, from position `i` on; `found` tells
/// whether an edge was followed already.
pub open spec fn dag_sink_from<T: MultiFuzzObj>(
    c: Seq<(T, bool)>,
    fuel: nat,
    cur: int,
    i: int,
    visited: Seq<bool>,
    best: Option<int>,
    found: bool,
) -> (Seq<bool>, Option<int>)
    decreases fuel, c.len() - i,
{
    if i < 0 || i >= c.len() {
        if found {
            (visited, best)
        } else {
            (visited, pick_sink(c, cur, best))
        }
    } else if fuel > 0 && !visited[i] && extends(c, cur, i) {
        let r = dag_sink(c, (fuel - 1) as nat, i, visited, best);
        dag_sink_from(c, fuel, cur, i + 1, r.0, r.1, true)
    } else {
        dag_sink_from(c, fuel, cur, i + 1, visited, best, found)
    }
}

/// The candidates of a multi-match in search order: the others, then the answer,
/// sorted from the longest key to the shortest.
pub open spec fn multifuzz_candidates<T: FuzzKey>(ans: T, others: Seq<T>) -> Seq<(T, bool)> {
    sort_by_len(others.map_values(|t: T| (t, false)).push((ans, true)))
}

/// Position of the candidate that the multi-match resolves to.
pub open spec fn multifuzz_pos<T: MultiFuzzObj>(ans: T, others: Seq<T>) -> int {
    let c = multifuzz_candidates(ans, others);
    let n = c.len() as int;
    let a = ans_pos(c, n);
    let sink = dag_sink(c, c.len(), max_pos(c, n), Seq::new(c.len(), |j: int| false), None).1->0;
    if spec_is_prefix(c[sink].0.spec_fuzz_key(), c[a].0.spec_fuzz_key(), key_sep()) {
        a
    } else {
        sink
    }
}

/// Inserting at the first position whose key is shorter than that of `x`.
proof fn lemma_insert_at<T: FuzzKey>(s: Seq<(T, bool)>, x: (T, bool), p: int)
    requires
        0 <= p <= s.len(),
        forall|i: int| 0 <= i < p ==> key_len(#[trigger] s[i].0) >= key_len(x.0),
        p < s.len() ==> key_len(s[p].0) < key_len(x.0),
    ensures
        insert_by_len(s, x) == s.take(p).push(x) + s.skip(p),
    decreases p,
{
    if p == 0 {
        if s.len() > 0 {
            assert(s.take(0).push(x) + s.skip(0) =~= seq![x] + s);
        } else {
            assert(s.take(0).push(x) + s.skip(0) =~= seq![x]);
        }
    } else {
        let t = s.drop_first();
        assert forall|i: int| 0 <= i < p - 1 implies key_len(#[trigger] t[i].0) >= key_len(x.0) by {
            assert(t[i] == s[i + 1]);
        }
        if p - 1 < t.len() {
            assert(t[p - 1] == s[p]);
        }
        lemma_insert_at(t, x, p - 1);
        assert(s.take(p).push(x) + s.skip(p) =~= seq![s[0]] + (t.take(p - 1).push(x) + t.skip(p - 1)));
    }
}

/// Inserting keeps the longest keys first.
proof fn lemma_insert_longest_first<T: FuzzKey>(s: Seq<(T, bool)>, x: (T, bool))
    requires
        longest_first(s),
    ensures
        longest_first(insert_by_len(s, x)),
        insert_by_len(s, x).to_multiset() == s.to_multiset().insert(x),
        insert_by_len(s, x).len() == s.len() + 1,
    decreases s.len(),
{
    broadcast use vstd::seq_lib::group_to_multiset_ensures;
    let r = insert_by_len(s, x);
    if s.len() == 0 {
        assert(s.to_multiset() =~= vstd::multiset::Multiset::empty());
        assert(r =~= seq![x]);
        assert(seq![x] =~= Seq::<(T, bool)>::empty().push(x));
    } else if key_len(s[0].0) >= key_len(x.0) {
        let t = s.drop_first();
        assert forall|i: int, j: int| 0 <= i < j < t.len() implies key_len(#[trigger] t[i].0) >= key_len(#[trigger] t[j].0) by {
            assert(t[i] == s[i + 1] && t[j] == s[j + 1]);
        }
        lemma_insert_longest_first(t, x);
        let u = insert_by_len(t, x);
        assert(r == seq![s[0]] + u);
        assert forall|i: int, j: int| 0 <= i < j < r.len() implies key_len(#[trigger] r[i].0) >= key_len(#[trigger] r[j].0) by {
            if i == 0 {
                assert(r[j] == u[j - 1]);
                assert(u.to_multiset().count(u[j - 1]) > 0);
                assert(u.to_multiset() == t.to_multiset().insert(x));
                if u[j - 1] != x {
                    assert(t.to_multiset().count(u[j - 1]) > 0);
                    assert(t.contains(u[j - 1]));
                    let k = choose|k: int| 0 <= k < t.len() && t[k] == u[j - 1];
                    assert(s[k + 1] == t[k]);
                }
            } else {
                assert(r[i] == u[i - 1] && r[j] == u[j - 1]);
            }
        }
        assert(s =~= seq![s[0]] + t);
        vstd::seq_lib::lemma_multiset_commutative(seq![s[0]], t);
        vstd::seq_lib::lemma_multiset_commutative(seq![s[0]], u);
        assert(seq![s[0]].to_multiset() =~= vstd::multiset::Multiset::singleton(s[0])) by {
            assert(seq![s[0]] =~= Seq::<(T, bool)>::empty().push(s[0]));
            assert(Seq::<(T, bool)>::empty().to_multiset() =~= vstd::multiset::Multiset::empty());
        }
        assert(r.to_multiset() =~= s.to_multiset().insert(x));
    } else {
        assert forall|i: int, j: int| 0 <= i < j < r.len() implies key_len(#[trigger] r[i].0) >= key_len(#[trigger] r[j].0) by {
            if i == 0 {
                assert(r[j] == s[j - 1]);
                if j - 1 > 0 {
                    assert(key_len(s[0].0) >= key_len(s[j - 1].0));
                }
            } else {
                assert(r[i] == s[i - 1] && r[j] == s[j - 1]);
            }
        }
        vstd::seq_lib::lemma_multiset_commutative(seq![x], s);
        assert(seq![x].to_multiset() =~= vstd::multiset::Multiset::singleton(x)) by {
            assert(seq![x] =~= Seq::<(T, bool)>::empty().push(x));
            assert(Seq::<(T, bool)>::empty().to_multiset() =~= vstd::multiset::Multiset::empty());
        }
        assert(r.to_multiset() =~= s.to_multiset().insert(x));
    }
}

/// The sort orders the candidates from the longest key to the shortest and keeps
/// every candidate.
pub proof fn lemma_sort_by_len<T: FuzzKey>(s: Seq<(T, bool)>)
    ensures
        longest_first(sort_by_len(s)),
        sort_by_len(s).to_multiset() == s.to_multiset(),
        sort_by_len(s).len() == s.len(),
    decreases s.len(),
{
    broadcast use vstd::seq_lib::group_to_multiset_ensures;
    if s.len() > 0 {
        lemma_sort_by_len(s.drop_last());
        lemma_insert_longest_first(sort_by_len(s.drop_last()), s.last());
        assert(s =~= s.drop_last().push(s.last()));
    }
}

/// The best sink as positions.
pub open spec fn opt_int(o: Option<usize>) -> Option<int> {
    match o {
        Some(b) => Some(b as int),
        None => None,
    }
}

/// Keys and their lengths in bytes stand beside the candidates.
pub open spec fn keys_match<T: FuzzKey>(c: Seq<(T, bool)>, keys: Seq<String>, lens: Seq<usize>) -> bool {
    &&& keys.len() == c.len()
    &&& lens.len() == c.len()
    &&& forall|j: int| 0 <= j < c.len() ==> (#[trigger] keys[j])@ == c[j].0.spec_fuzz_key()
    &&& forall|j: int| 0 <= j < c.len() ==> #[trigger] lens[j] == key_len(c[j].0)
}

fn key_byte_len(s: &str) -> (r: usize)
    ensures
        r == byte_len(s@),
{
    s.len()
}

fn insert_candidate<T: FuzzKey>(
    cands: &mut Vec<(T, bool)>,
    keys: &mut Vec<String>,
    lens: &mut Vec<usize>,
    x: T,
    is_ans: bool,
)
    requires
        keys_match(old(cands)@, old(keys)@, old(lens)@),
    ensures
        final(cands)@ == insert_by_len(old(cands)@, (x, is_ans)),
        keys_match(final(cands)@, final(keys)@, final(lens)@),
{
    let k = x.fuzz_key();
    let kl = key_byte_len(k.as_str());
    let mut p: usize = 0;
    while p < lens.len() && lens[p] >= kl
        invariant
            keys_match(cands@, keys@, lens@),
            kl == key_len(x),
            p <= lens@.len(),
            forall|i: int| 0 <= i < p ==> key_len(#[trigger] cands@[i].0) >= key_len(x),
        decreases lens@.len() - p,
    {
        p = p + 1;
    }
    proof {
        lemma_insert_at(cands@, (x, is_ans), p as int);
    }
    let ghost c0 = cands@;
    let ghost k0 = keys@;
    let ghost l0 = lens@;
    cands.insert(p, (x, is_ans));
    keys.insert(p, k);
    lens.insert(p, kl);
    assert(cands@ =~= c0.take(p as int).push((x, is_ans)) + c0.skip(p as int));
    assert forall|j: int| 0 <= j < cands@.len() implies (#[trigger] keys@[j])@ == cands@[j].0.spec_fuzz_key()
        && lens@[j] == key_len(cands@[j].0) by {
        if j < p {
            assert(keys@[j] == k0[j] && lens@[j] == l0[j] && cands@[j] == c0[j]);
        } else if j > p {
            assert(keys@[j] == k0[j - 1] && lens@[j] == l0[j - 1] && cands@[j] == c0[j - 1]);
        }
    }
}

/// The candidates in search order, with their keys and key lengths.
fn sort_candidates<T: FuzzKey>(ans: T, others: Vec<T>) -> (r: (Vec<(T, bool)>, Vec<String>, Vec<usize>))
    ensures
        r.0@ == multifuzz_candidates(ans, others@),
        keys_match(r.0@, r.1@, r.2@),
{
    let ghost orig = others@;
    let ghost pairs = orig.map_values(|t: T| (t, false));
    let mut rest = others;
    let mut cands: Vec<(T, bool)> = Vec::new();
    let mut keys: Vec<String> = Vec::new();
    let mut lens: Vec<usize> = Vec::new();
    let ghost mut k: int = 0;
    assert(pairs.take(0) =~= Seq::<(T, bool)>::empty());
    while rest.len() > 0
        invariant
            pairs == orig.map_values(|t: T| (t, false)),
            0 <= k <= orig.len(),
            rest@ == orig.skip(k),
            cands@ == sort_by_len(pairs.take(k)),
            keys_match(cands@, keys@, lens@),
        decreases rest@.len(),
    {
        let x = rest.remove(0);
        assert(x == orig[k]);
        insert_candidate(&mut cands, &mut keys, &mut lens, x, false);
        proof {
            assert(pairs.take(k + 1).drop_last() =~= pairs.take(k));
            assert(pairs.take(k + 1).last() == (x, false));
            assert(rest@ =~= orig.skip(k + 1));
            k = k + 1;
        }
    }
    assert(pairs.take(k) =~= pairs);
    let ghost before = cands@;
    insert_candidate(&mut cands, &mut keys, &mut lens, ans, true);
    assert(pairs.push((ans, true)).drop_last() =~= pairs);
    (cands, keys, lens)
}

/// Positions of the strongest candidate (the first of several) and of the answer.
fn find_max_and_ans_pos<T: MultiFuzzObj>(c: &Vec<(T, bool)>) -> (r: (usize, usize))
    requires
        c@.len() > 0,
    ensures
        r.0 == max_pos(c@, c@.len() as int),
        r.1 == ans_pos(c@, c@.len() as int),
        r.0 < c@.len(),
        r.1 < c@.len(),
{
    let mut max: usize = 0;
    let mut ans: usize = 0;
    let mut i: usize = 1;
    while i < c.len()
        invariant
            1 <= i <= c@.len(),
            max == max_pos(c@, i as int),
            ans == ans_pos(c@, i as int),
            max < i,
            ans < i,
        decreases c@.len() - i,
    {
        if c[i].1 {
            ans = i;
        }
        if c[i].0.beats(&c[max].0) {
            max = i;
        }
        i = i + 1;
    }
    (max, ans)
}

/// The depth-first search of `dag_sink`, from candidate `offset`.
fn find_dag_sink<T: MultiFuzzObj>(
    offset: usize,
    c: &Vec<(T, bool)>,
    keys: &Vec<String>,
    lens: &Vec<usize>,
    visited: &mut Vec<bool>,
    best: &mut Option<usize>,
    Ghost(fuel): Ghost<nat>,
)
    requires
        offset < c@.len(),
        keys_match(c@, keys@, lens@),
        old(visited)@.len() == c@.len(),
        !old(visited)@[offset as int],
        fuel >= count_false(old(visited)@),
        *old(best) matches Some(b) ==> b < c@.len(),
    ensures
        (final(visited)@, opt_int(*final(best))) == dag_sink(
            c@,
            fuel,
            offset as int,
            old(visited)@,
            opt_int(*old(best)),
        ),
        final(visited)@.len() == c@.len(),
        forall|j: int| 0 <= j < c@.len() && old(visited)@[j] ==> final(visited)@[j],
        *final(best) matches Some(b) && b < c@.len(),
    decreases fuel,
{
    proof {
        lemma_count_false_set(old(visited)@, offset as int);
        reveal_strlit("/");
    }
    assert("/"@ =~= key_sep());
    let ghost v0 = visited@;
    let ghost b0 = opt_int(*best);
    let n = c.len();
    visited.set(offset, true);
    let cur_len = lens[offset];
    let mut found = false;
    let mut i: usize = offset + 1;
    while i < c.len()
        invariant
            offset < i <= c@.len(),
            keys_match(c@, keys@, lens@),
            cur_len == key_len(c@[offset as int].0),
            "/"@ == key_sep(),
            visited@.len() == c@.len(),
            v0.len() == c@.len(),
            forall|j: int| 0 <= j < c@.len() && v0[j] ==> visited@[j],
            visited@[offset as int],
            count_false(visited@) < fuel,
            found ==> best.is_some(),
            *best matches Some(b) ==> b < c@.len(),
            dag_sink_from(c@, fuel, offset as int, i as int, visited@, opt_int(*best), found)
                == dag_sink(c@, fuel, offset as int, v0, b0),
        decreases c@.len() - i,
    {
        if !visited[i] && lens[i] != cur_len && is_prefix(keys[i].as_str(), keys[offset].as_str(), "/") {
            found = true;
            let ghost vb = visited@;
            find_dag_sink(i, c, keys, lens, visited, best, Ghost((fuel - 1) as nat));
            proof {
                lemma_count_false_mono(vb, visited@);
            }
        }
        i = i + 1;
    }
    if !found {
        match *best {
            Some(b) => {
                if c[offset].0.beats(&c[b].0) {
                    *best = Some(offset);
                }
            },
            None => {
                *best = Some(offset);
            },
        }
    }
}

/// Resolves a multi-match of fuzzy search: `ans` scored best, `others` scored
/// close to it. Returns the candidate at `multifuzz_pos`, which is `ans` or one of
/// `others`.
pub fn the_multifuzz_algo<T: MultiFuzzObj>(ans: T, others: Vec<T>) -> (r: T)
    ensures
        r == multifuzz_candidates(ans, others@)[multifuzz_pos(ans, others@)].0,
        r == ans || others@.contains(r),
{
    let ghost og = others@;
    let (mut cands, keys, lens) = sort_candidates(ans, others);
    let ghost c = cands@;
    let n = cands.len();
    proof {
        lemma_sort_by_len(og.map_values(|t: T| (t, false)).push((ans, true)));
    }
    let (max, ans_at) = find_max_and_ans_pos(&cands);
    let mut visited: Vec<bool> = Vec::new();
    while visited.len() < n
        invariant
            visited@.len() <= n,
            forall|j: int| 0 <= j < visited@.len() ==> !visited@[j],
        decreases n - visited@.len(),
    {
        visited.push(false);
    }
    assert(visited@ =~= Seq::new(c.len(), |j: int| false));
    proof {
        lemma_count_false_bound(visited@);
    }
    let mut best: Option<usize> = None;
    find_dag_sink(max, &cands, &keys, &lens, &mut visited, &mut best, Ghost(c.len()));
    let mut ret = best.unwrap();
    proof {
        reveal_strlit("/");
    }
    assert("/"@ =~= key_sep());
    if is_prefix(keys[ret].as_str(), keys[ans_at].as_str(), "/") {
        ret = ans_at;
    }
    let (obj, _) = cands.remove(ret);
    proof {
        let x = c[ret as int];
        assert(c.to_multiset().count(x) > 0) by {
            broadcast use vstd::seq_lib::group_to_multiset_ensures;
            assert(c.contains(x));
        }
        let pairs = og.map_values(|t: T| (t, false));
        assert(pairs.push((ans, true)).to_multiset().count(x) > 0);
        assert(pairs.push((ans, true)).contains(x)) by {
            broadcast use vstd::seq_lib::group_to_multiset_ensures;
        }
        let k = choose|k: int| 0 <= k < pairs.len() + 1 && pairs.push((ans, true))[k] == x;
        if k < pairs.len() {
            assert(og[k] == obj);
        }
    }
    obj
}

impl FuzzKey for ScriptInfo {
    open spec fn spec_fuzz_key(&self) -> Seq<char> {
        name_key(self.name@)
    }

    fn fuzz_key(&self) -> (r: String) {
        self.name.key()
    }
}

impl<'a> FuzzKey for &'a ScriptInfo {
    open spec fn spec_fuzz_key(&self) -> Seq<char> {
        name_key(self.name@)
    }

    fn fuzz_key(&self) -> (r: String) {
        self.name.key()
    }
}

impl<'a> MultiFuzzObj for &'a ScriptInfo {
    /// The script used more lately wins.
    open spec fn spec_beats(&self, other: &Self) -> bool {
        self.spec_last_time() > other.spec_last_time()
    }

    fn beats(&self, other: &Self) -> (r: bool) {
        self.last_time() > other.last_time()
    }
}

/// Comparing scripts by when they were last used is a strict weak order, so the
/// laws on `max_pos` hold of scripts.
pub proof fn lemma_script_beats_strict_weak<'a>()
    ensures
        forall|a: &'a ScriptInfo| !#[trigger] a.spec_beats(&a),
        forall|a: &'a ScriptInfo, b: &'a ScriptInfo, d: &'a ScriptInfo|
            #[trigger] a.spec_beats(&b) && #[trigger] b.spec_beats(&d) ==> a.spec_beats(&d),
        forall|a: &'a ScriptInfo, b: &'a ScriptInfo, d: &'a ScriptInfo|
            !#[trigger] a.spec_beats(&b) && !#[trigger] b.spec_beats(&d) ==> !a.spec_beats(&d),
{
}

impl MultiFuzzObj for ScriptInfo {
    /// The script used more lately wins.
    open spec fn spec_beats(&self, other: &Self) -> bool {
        self.spec_last_time() > other.spec_last_time()
    }

    fn beats(&self, other: &Self) -> (r: bool) {
        self.last_time() > other.last_time()
    }
}

/// Among the first `k` scripts, the position of the last one used most lately.
pub open spec fn last_latest(c: Seq<&ScriptInfo>, k: int) -> int
    decreases k,
{
    if k <= 1 {
        0
    } else {
        let m = last_latest(c, k - 1);
        if c[k - 1].spec_last_time() >= c[m].spec_last_time() {
            k - 1
        } else {
            m
        }
    }
}

/// When the search text is a lone `.` and every candidate is anonymous, prefixes
/// mean nothing (`.1` must not hide `.10`), so the script used most lately wins at
/// once, the last of several; otherwise the candidates are handed back for
/// `the_multifuzz_algo`.
pub fn handle_special_dot_anonymous<'a>(pattern: &str, ans: &'a ScriptInfo, others: Vec<&'a ScriptInfo>) -> (r: Either<
    &'a ScriptInfo,
    (&'a ScriptInfo, Vec<&'a ScriptInfo>),
>)
    ensures
        ({
            let special = pattern@ == seq!['.'] && ans.name@ is Ok && forall|j: int|
                0 <= j < others@.len() ==> (#[trigger] others@[j]).name@ is Ok;
            let c = seq![ans] + others@;
            match r {
                Either::One(x) => special && x == c[last_latest(c, c.len() as int)],
                Either::Two((a, o)) => !special && a == ans && o@ == others@,
            }
        }),
{
    proof {
        reveal_strlit(".");
    }
    assert("."@ =~= seq!['.']);
    if !str_eq(pattern, ".") {
        return Either::Two((ans, others));
    }
    if !ans.name.is_anonymous() {
        return Either::Two((ans, others));
    }
    let mut i: usize = 0;
    while i < others.len()
        invariant
            i <= others@.len(),
            forall|j: int| 0 <= j < i ==> (#[trigger] others@[j]).name@ is Ok,
        decreases others@.len() - i,
    {
        if !others[i].name.is_anonymous() {
            return Either::Two((ans, others));
        }
        i = i + 1;
    }
    let ghost c = seq![ans] + others@;
    let mut all = others;
    all.insert(0, ans);
    assert(all@ =~= c);
    let mut m: usize = 0;
    let mut k: usize = 1;
    while k < all.len()
        invariant
            all@ == c,
            1 <= k <= c.len(),
            m == last_latest(c, k as int),
            m < k,
        decreases c.len() - k,
    {
        if all[k].last_time() >= all[m].last_time() {
            m = k;
        }
        k = k + 1;
    }
    Either::One(all.remove(m))
}

proof fn lemma_last_latest(c: Seq<&ScriptInfo>, k: int)
    requires
        1 <= k <= c.len(),
    ensures
        0 <= last_latest(c, k) < k,
        forall|j: int| 0 <= j < k ==> (#[trigger] c[j]).spec_last_time() <= c[last_latest(c, k)].spec_last_time(),
        forall|j: int|
            last_latest(c, k) < j < k ==> (#[trigger] c[j]).spec_last_time() < c[last_latest(c, k)].spec_last_time(),
    decreases k,
{
    if k > 1 {
        lemma_last_latest(c, k - 1);
    }
}

/// Searching anonymous scripts with a lone `.` settles on the script used most
/// lately: one of the candidates, used no earlier than any of them, and the last
/// of them when several were used at that time.
pub proof fn law_dot_picks_latest<'a>(ans: &'a ScriptInfo, others: Seq<&'a ScriptInfo>)
    requires
        ans.name@ is Ok,
        forall|j: int| 0 <= j < others.len() ==> (#[trigger] others[j]).name@ is Ok,
    ensures
        ({
            let r = spec_resolve_multi(seq!['.'], ans, others);
            &&& r == ans || exists|j: int| 0 <= j < others.len() && r == others[j]
            &&& r.spec_last_time() >= ans.spec_last_time()
            &&& forall|j: int| 0 <= j < others.len() ==> r.spec_last_time() >= (#[trigger] others[j]).spec_last_time()
            &&& forall|j: int|
                0 <= j < others.len() && r.spec_last_time() == (#[trigger] others[j]).spec_last_time() ==> exists|i: int|
                    j <= i < others.len() && r == others[i]
        }),
{
    let c = seq![ans] + others;
    lemma_last_latest(c, c.len() as int);
    let m = last_latest(c, c.len() as int);
    let r = c[m];
    assert(c[0] == ans);
    assert forall|j: int| 0 <= j < others.len() implies r.spec_last_time() >= (#[trigger] others[j]).spec_last_time() by {
        assert(c[j + 1] == others[j]);
    }
    if m > 0 {
        assert(r == others[m - 1]);
    }
    assert forall|j: int|
        0 <= j < others.len() && r.spec_last_time() == (#[trigger] others[j]).spec_last_time() implies exists|i: int|
        j <= i < others.len() && r == others[i] by {
        assert(c[j + 1] == others[j]);
        assert(m >= j + 1);
        assert(r == others[m - 1]);
    }
}

/// The script that a multi-match of fuzzy search for `pattern` settles on: among
/// anonymous scripts searched by a lone `.`, the one used most lately; otherwise
/// the pick of `the_multifuzz_algo`.
pub open spec fn spec_resolve_multi<'a>(pattern: Seq<char>, ans: &'a ScriptInfo, others: Seq<&'a ScriptInfo>) -> &'a ScriptInfo {
    let special = pattern == seq!['.'] && ans.name@ is Ok && forall|j: int|
        0 <= j < others.len() ==> (#[trigger] others[j]).name@ is Ok;
    let c = seq![ans] + others;
    if special {
        c[last_latest(c, c.len() as int)]
    } else {
        multifuzz_candidates(ans, others)[multifuzz_pos(ans, others)].0
    }
}

/// Resolves a multi-match of fuzzy search over scripts.
pub fn resolve_multi_fuzz<'a>(pattern: &str, ans: &'a ScriptInfo, others: Vec<&'a ScriptInfo>) -> (r: &'a ScriptInfo)
    ensures
        r == spec_resolve_multi(pattern@, ans, others@),
{
    match handle_special_dot_anonymous(pattern, ans, others) {
        Either::One(r) => r,
        Either::Two((a, o)) => the_multifuzz_algo(a, o),
    }
}

} // verus!
