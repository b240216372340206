//! Fuzzy search over script names. A name is split on the separator and every
//! reordering of its parts is scored, so `b/a` finds `a/b`.
use crate::text::{blen, from_chars, join, join_seq, split, split_seq, starts_with, to_chars};
use vstd::prelude::*;
use vstd::string::StringSliceAdditionalSpecFns;

verus! {

/// All orderings of `s`: first every ordering that starts with `s[0]`, then those
/// that start with `s[1]`, and so on, each followed by the orderings of the rest.
pub open spec fn perms<A>(s: Seq<A>) -> Seq<Seq<A>>
    decreases s.len(), s.len() + 1,
{
    if s.len() == 0 {
        seq![Seq::<A>::empty()]
    } else {
        perms_from(s, 0)
    }
}

/// The orderings of `s` that start with `s[i]`, `s[i + 1]`, ...
pub open spec fn perms_from<A>(s: Seq<A>, i: int) -> Seq<Seq<A>>
    decreases s.len(), s.len() - i,
{
    if i < 0 || i >= s.len() {
        Seq::empty()
    } else {
        perms(s.remove(i)).map_values(|p: Seq<A>| seq![s[i]] + p) + perms_from(s, i + 1)
    }
}

/// The texts obtained by joining every ordering of the parts of `s` with `sep`.
pub open spec fn reorder_texts(s: Seq<char>, sep: Seq<char>) -> Seq<Seq<char>> {
    perms(split_seq(s, sep)).map_values(|p: Seq<Seq<char>>| join_seq(p, sep))
}

/// Length in bytes as `str::len` reports it.
pub open spec fn byte_len(s: Seq<char>) -> usize {
    blen(s) as usize
}

/// `prefix` is not longer than `target` (in bytes) and some reordering of `target`
/// starts with some reordering of `prefix`.
pub open spec fn spec_is_prefix(prefix: Seq<char>, target: Seq<char>, sep: Seq<char>) -> bool {
    &&& byte_len(prefix) <= byte_len(target)
    &&& exists|i: int, j: int|
        0 <= i < reorder_texts(target, sep).len() && 0 <= j < reorder_texts(prefix, sep).len()
            && (#[trigger] reorder_texts(prefix, sep)[j]).is_prefix_of(
            #[trigger] reorder_texts(target, sep)[i],
        )
}

fn copy_parts(v: &Vec<Vec<char>>, skip: usize) -> (r: Vec<Vec<char>>)
    requires
        skip <= v@.len(),
    ensures
        r.deep_view() == if skip < v@.len() {
            v.deep_view().remove(skip as int)
        } else {
            v.deep_view()
        },
        r@.len() == if skip < v@.len() {
            v@.len() - 1
        } else {
            v@.len() as int
        },
{
    let mut r: Vec<Vec<char>> = Vec::new();
    let mut i: usize = 0;
    let ghost dv = v.deep_view();
    while i < v.len()
        invariant
            dv == v.deep_view(),
            i <= v@.len(),
            skip <= v@.len(),
            r.deep_view() == if skip < i {
                dv.take(i as int).remove(skip as int)
            } else {
                dv.take(i as int)
            },
        decreases v@.len() - i,
    {
        let ghost old_r = r.deep_view();
        if i != skip {
            let c = crate::text::sub_chars(v[i].as_slice(), 0, v[i].len());
            assert(c@ =~= v[i as int]@);
            assert(c.deep_view() =~= dv[i as int]);
            r.push(c);
            assert(r.deep_view() =~= old_r.push(dv[i as int]));
        }
        if skip < i {
            assert(dv.take(i + 1).remove(skip as int) =~= dv.take(i as int).remove(skip as int).push(
                dv[i as int],
            ));
        } else if skip == i {
            assert(dv.take(i + 1).remove(skip as int) =~= dv.take(i as int));
        } else {
            assert(dv.take(i + 1) =~= dv.take(i as int).push(dv[i as int]));
        }
        i = i + 1;
    }
    assert(dv.take(v@.len() as int) =~= dv);
    assert(r@.len() == r.deep_view().len());
    r
}

/// All orderings of the parts, in the order of `perms`.
pub fn reorders(parts: &Vec<Vec<char>>) -> (r: Vec<Vec<Vec<char>>>)
    ensures
        r.deep_view() == perms(parts.deep_view()),
    decreases parts@.len(),
{
    let ghost s = parts.deep_view();
    let mut r: Vec<Vec<Vec<char>>> = Vec::new();
    if parts.len() == 0 {
        let e: Vec<Vec<char>> = Vec::new();
        assert(e.deep_view() =~= Seq::<Seq<char>>::empty());
        r.push(e);
        assert(r.deep_view() =~= seq![Seq::<Seq<char>>::empty()]);
        return r;
    }
    let mut i: usize = 0;
    assert(r.deep_view() + perms_from(s, 0) =~= perms_from(s, 0));
    while i < parts.len()
        invariant
            s == parts.deep_view(),
            s.len() == parts@.len(),
            s.len() > 0,
            i <= s.len(),
            r.deep_view() + perms_from(s, i as int) == perms(s),
        decreases s.len() - i,
    {
        let rest = copy_parts(parts, i);
        let sub = reorders(&rest);
        let ghost sub_dv = sub.deep_view();
        let ghost mapped = sub_dv.map_values(|p: Seq<Seq<char>>| seq![s[i as int]] + p);
        let ghost r0 = r.deep_view();
        let mut k: usize = 0;
        while k < sub.len()
            invariant
                sub_dv == sub.deep_view(),
                sub_dv.len() == sub@.len(),
                mapped == sub_dv.map_values(|p: Seq<Seq<char>>| seq![s[i as int]] + p),
                s == parts.deep_view(),
                i < parts@.len(),
                k <= sub_dv.len(),
                r.deep_view() == r0 + mapped.take(k as int),
            decreases sub_dv.len() - k,
        {
            let head = crate::text::sub_chars(parts[i].as_slice(), 0, parts[i].len());
            assert(parts@[i as int].deep_view() =~= parts@[i as int]@);
            assert(head.deep_view() =~= head@);
            let mut one: Vec<Vec<char>> = Vec::new();
            one.push(head);
            let mut m: usize = 0;
            let ghost p = sub_dv[k as int];
            assert(head@ =~= s[i as int]);
            assert(one.deep_view() =~= seq![s[i as int]]);
            while m < sub[k].len()
                invariant
                    sub_dv == sub.deep_view(),
                    k < sub@.len(),
                    p == sub_dv[k as int],
                    p.len() == sub@[k as int]@.len(),
                    m <= p.len(),
                    one.deep_view() == seq![s[i as int]] + p.take(m as int),
                decreases p.len() - m,
            {
                let c = crate::text::sub_chars(sub[k][m].as_slice(), 0, sub[k][m].len());
                assert(sub@[k as int]@[m as int].deep_view() =~= sub@[k as int]@[m as int]@);
                assert(p[m as int] == sub@[k as int]@[m as int].deep_view());
                assert(c.deep_view() =~= c@);
                assert(c@ =~= p[m as int]);
                let ghost old_one = one.deep_view();
                one.push(c);
                assert(one.deep_view() =~= old_one.push(p[m as int]));
                assert(p.take(m + 1) =~= p.take(m as int).push(p[m as int]));
                m = m + 1;
            }
            assert(p.take(p.len() as int) =~= p);
            let ghost old_r = r.deep_view();
            r.push(one);
            assert(r.deep_view() =~= old_r.push(mapped[k as int]));
            assert(mapped.take(k + 1) =~= mapped.take(k as int).push(mapped[k as int]));
            k = k + 1;
        }
        assert(mapped.take(sub_dv.len() as int) =~= mapped);
        assert(perms_from(s, i as int) == perms(s.remove(i as int)).map_values(
            |p: Seq<Seq<char>>| seq![s[i as int]] + p,
        ) + perms_from(s, i + 1));
        assert(r.deep_view() + perms_from(s, i + 1) =~= r0 + perms_from(s, i as int));
        i = i + 1;
    }
    assert(perms_from(s, i as int) =~= Seq::<Seq<Seq<char>>>::empty());
    assert(r.deep_view() =~= perms(s));
    r
}

/// Every reordering of the `sep`-separated parts of `choice`, joined back with
/// `sep`, in the order of `perms`.
pub fn foreach_reorder(choice: &str, sep: &str) -> (r: Vec<String>)
    requires
        sep@.len() > 0,
    ensures
        r.deep_view() == reorder_texts(choice@, sep@),
{
    let c = to_chars(choice);
    let s = to_chars(sep);
    let parts = split(c.as_slice(), s.as_slice());
    let all = reorders(&parts);
    let ghost ps = all.deep_view();
    let ghost target = reorder_texts(choice@, sep@);
    let mut r: Vec<String> = Vec::new();
    let mut i: usize = 0;
    while i < all.len()
        invariant
            ps == all.deep_view(),
            ps == perms(split_seq(choice@, sep@)),
            target == ps.map_values(|p: Seq<Seq<char>>| join_seq(p, sep@)),
            s@ == sep@,
            i <= ps.len(),
            r.deep_view() == target.take(i as int),
        decreases ps.len() - i,
    {
        let j = join(&all[i], s.as_slice());
        assert(all[i as int].deep_view() == ps[i as int]);
        let t = from_chars(j.as_slice());
        let ghost old_r = r.deep_view();
        r.push(t);
        assert(r.deep_view() =~= old_r.push(target[i as int]));
        assert(target.take(i + 1) =~= target.take(i as int).push(target[i as int]));
        i = i + 1;
    }
    assert(target.take(ps.len() as int) =~= target);
    r
}

/// Whether some reordering of `target` starts with some reordering of `prefix`,
/// `prefix` being no longer than `target`.
pub fn is_prefix(prefix: &str, target: &str, sep: &str) -> (r: bool)
    requires
        sep@.len() > 0,
    ensures
        r == spec_is_prefix(prefix@, target@, sep@),
{
    let pl = prefix.len();
    let tl = target.len();
    assert(pl == byte_len(prefix@) && tl == byte_len(target@)) by {
        assert(prefix.spec_bytes() == vstd::utf8::encode_utf8(prefix@));
        assert(target.spec_bytes() == vstd::utf8::encode_utf8(target@));
    }
    if pl > tl {
        return false;
    }
    let ts = foreach_reorder(target, sep);
    let ps = foreach_reorder(prefix, sep);
    let ghost tv = reorder_texts(target@, sep@);
    let ghost pv = reorder_texts(prefix@, sep@);
    let mut i: usize = 0;
    while i < ts.len()
        invariant
            ts.deep_view() == tv,
            ps.deep_view() == pv,
            tv == reorder_texts(target@, sep@),
            pv == reorder_texts(prefix@, sep@),
            i <= tv.len(),
            byte_len(prefix@) <= byte_len(target@),
            forall|a: int, b: int|
                0 <= a < i && 0 <= b < pv.len() ==> !(#[trigger] pv[b]).is_prefix_of(#[trigger] tv[a]),
        decreases tv.len() - i,
    {
        let t = to_chars(ts[i].as_str());
        let mut j: usize = 0;
        while j < ps.len()
            invariant
                ts.deep_view() == tv,
                ps.deep_view() == pv,
                tv == reorder_texts(target@, sep@),
                pv == reorder_texts(prefix@, sep@),
                i < tv.len(),
                byte_len(prefix@) <= byte_len(target@),
                t@ == tv[i as int],
                j <= pv.len(),
                forall|a: int, b: int|
                    0 <= a < i && 0 <= b < pv.len() ==> !(#[trigger] pv[b]).is_prefix_of(#[trigger] tv[a]),
                forall|b: int| 0 <= b < j ==> !(#[trigger] pv[b]).is_prefix_of(tv[i as int]),
            decreases pv.len() - j,
        {
            let p = to_chars(ps[j].as_str());
            if starts_with(t.as_slice(), p.as_slice()) {
                assert(pv[j as int].is_prefix_of(tv[i as int]));
                assert(reorder_texts(prefix@, sep@)[j as int].is_prefix_of(
                    reorder_texts(target@, sep@)[i as int],
                ));
                return true;
            }
            j = j + 1;
        }
        i = i + 1;
    }
    false
}

/// Name for the score that `fuzzy_matcher`'s default `SkimMatcherV2` gives to
/// `choice` for `pattern` (`None` when it does not match).
pub uninterp spec fn skim_score(choice: Seq<char>, pattern: Seq<char>) -> Option<i64>;

/// Scores `choice` against `pattern` with `SkimMatcherV2::default().fuzzy_match`.
/// The score is a function of the two texts, named `skim_score`; the source shows
/// that it fits an `i32`, that an empty pattern scores 0 and that a non-empty
/// pattern never matches an empty choice.
#[verifier::external_body]
fn skim_match(choice: &str, pattern: &str) -> (r: Option<i64>)
    ensures
        r == skim_score(choice@, pattern@),
        r matches Some(x) ==> i32::MIN <= x <= i32::MAX,
        pattern@.len() == 0 ==> r == Some(0i64),
        choice@.len() == 0 && pattern@.len() > 0 ==> r is None,
{
    fuzzy_matcher::FuzzyMatcher::fuzzy_match(
        &fuzzy_matcher::skim::SkimMatcherV2::default(),
        choice,
        pattern,
    )
}

/// The better of two optional scores.
pub open spec fn better(a: Option<i64>, b: Option<i64>) -> Option<i64> {
    match (a, b) {
        (None, x) => x,
        (Some(x), None) => Some(x),
        (Some(x), Some(y)) => Some(if x < y {
            y
        } else {
            x
        }),
    }
}

/// Best of a list of optional scores.
pub open spec fn best_of(v: Seq<Option<i64>>) -> Option<i64>
    decreases v.len(),
{
    if v.len() == 0 {
        None
    } else {
        better(best_of(v.drop_last()), v.last())
    }
}

/// Score of `choice` for `pattern`: the best score over its reorderings.
pub open spec fn spec_my_fuzz(choice: Seq<char>, pattern: Seq<char>, sep: Seq<char>) -> Option<i64> {
    best_of(reorder_texts(choice, sep).map_values(|t: Seq<char>| skim_score(t, pattern)))
}

fn my_fuzz(choice: &str, pattern: &str, sep: &str) -> (r: Option<i64>)
    requires
        sep@.len() > 0,
    ensures
        r == spec_my_fuzz(choice@, pattern@, sep@),
        r matches Some(x) ==> i32::MIN <= x <= i32::MAX,
        choice@.len() == 0 && pattern@.len() > 0 ==> r is None,
{
    proof {
        if choice@.len() == 0 {
            lemma_empty_reorder(choice@, sep@);
        }
    }
    let texts = foreach_reorder(choice, sep);
    let ghost tv = texts.deep_view();
    let ghost scores = tv.map_values(|t: Seq<char>| skim_score(t, pattern@));
    let mut ans: Option<i64> = None;
    let mut i: usize = 0;
    while i < texts.len()
        invariant
            tv == texts.deep_view(),
            tv == reorder_texts(choice@, sep@),
            scores == tv.map_values(|t: Seq<char>| skim_score(t, pattern@)),
            i <= tv.len(),
            ans == best_of(scores.take(i as int)),
            ans matches Some(x) ==> i32::MIN <= x <= i32::MAX,
            choice@.len() == 0 ==> tv == seq![choice@],
            choice@.len() == 0 && pattern@.len() > 0 ==> ans is None,
        decreases tv.len() - i,
    {
        let score = skim_match(texts[i].as_str(), pattern);
        assert(scores.take(i + 1).drop_last() =~= scores.take(i as int));
        assert(scores[i as int] == score);
        match score {
            Some(sc) => {
                match ans {
                    Some(a) => {
                        ans = Some(if a < sc {
                            sc
                        } else {
                            a
                        });
                    },
                    None => {
                        ans = Some(sc);
                    },
                }
            },
            None => {},
        }
        i = i + 1;
    }
    assert(scores.take(tv.len() as int) =~= scores);
    ans
}

/// The text that fuzzy search compares.
pub trait FuzzKey {
    spec fn spec_fuzz_key(&self) -> Seq<char>;

    fn fuzz_key(&self) -> (r: String)
        ensures
            r@ == self.spec_fuzz_key(),
    ;
}

impl FuzzKey for String {
    open spec fn spec_fuzz_key(&self) -> Seq<char> {
        self@
    }

    fn fuzz_key(&self) -> (r: String) {
        self.clone()
    }
}

/// Outcome of a fuzzy search: a clear winner with a high or a low score, or a best
/// candidate with others scoring close to it.
#[derive(Debug)]
pub enum FuzzResult<T> {
    High(T),
    Low(T),
    Multi { ans: T, others: Vec<T> },
}

impl<T> FuzzResult<T> {
    /// The best candidate.
    pub fn get_ans(self) -> (r: T)
        ensures
            r == match self {
                FuzzResult::High(t) => t,
                FuzzResult::Low(t) => t,
                FuzzResult::Multi { ans, .. } => ans,
            },
    {
        match self {
            FuzzResult::High(t) => t,
            FuzzResult::Low(t) => t,
            FuzzResult::Multi { ans, .. } => ans,
        }
    }
}

/// A score at most this high is a weak match.
pub open spec fn mid_score() -> int {
    1000
}

/// Integer division rounding toward zero, as `i64` division does.
pub open spec fn trunc_div(a: int, b: int) -> int {
    if a >= 0 {
        a / b
    } else {
        -((-a) / b)
    }
}

/// Score of one candidate key: the best score of its reorderings, times 100,
/// divided by the key's length in characters; 0 when nothing matches.
pub open spec fn key_score(k: Seq<char>, name: Seq<char>, sep: Seq<char>) -> int {
    match spec_my_fuzz(k, name, sep) {
        Some(s) => trunc_div(s * 100, k.len() as int),
        None => 0,
    }
}

/// Largest of 0 and the scores.
pub open spec fn max_score(v: Seq<int>) -> int
    decreases v.len(),
{
    if v.len() == 0 {
        0
    } else if max_score(v.drop_last()) < v.last() {
        v.last()
    } else {
        max_score(v.drop_last())
    }
}

/// First position of `x` in `v` (`v.len()` when absent).
pub open spec fn first_pos(v: Seq<int>, x: int) -> int
    decreases v.len(),
{
    if v.len() == 0 {
        0
    } else if first_pos(v.drop_last(), x) < v.len() - 1 {
        first_pos(v.drop_last(), x)
    } else if v.last() == x {
        v.len() - 1
    } else {
        v.len() as int
    }
}

/// A score close enough to the best one to make the search ambiguous: above 70% of
/// it.
pub open spec fn close_to_best(score: int, best: int) -> bool {
    best * 7 < score * 10
}

/// Positions other than `ans` whose score is close to the best one, in order.
pub open spec fn close_positions(v: Seq<int>, best: int, ans: int) -> Seq<int>
    decreases v.len(),
{
    if v.len() == 0 {
        Seq::empty()
    } else {
        close_positions(v.drop_last(), best, ans) + if v.len() - 1 != ans && close_to_best(
            v.last(),
            best,
        ) {
            seq![v.len() - 1]
        } else {
            Seq::<int>::empty()
        }
    }
}

/// The search may not divide by zero: with an empty name, no key may be empty.
pub open spec fn fuzz_ok(keys: Seq<Seq<char>>, name: Seq<char>) -> bool {
    name.len() > 0 || forall|i: int| 0 <= i < keys.len() ==> (#[trigger] keys[i]).len() > 0
}

/// An empty text has a single reordering: itself.
proof fn lemma_empty_reorder(k: Seq<char>, sep: Seq<char>)
    requires
        k.len() == 0,
        sep.len() > 0,
    ensures
        reorder_texts(k, sep) == seq![k],
{
    let parts = split_seq(k, sep);
    crate::text::lemma_find_sub_none(k, sep);
    assert(parts =~= seq![k]);
    let ps = perms(parts);
    assert(parts.remove(0) =~= Seq::<Seq<char>>::empty());
    assert(perms(parts.remove(0)) == seq![Seq::<Seq<char>>::empty()]);
    assert(perms_from(parts, 1) =~= Seq::<Seq<Seq<char>>>::empty());
    assert(perms(parts.remove(0)).map_values(|p: Seq<Seq<char>>| seq![parts[0]] + p) =~= seq![
        seq![k],
    ]);
    assert(ps =~= seq![seq![k]]);
    assert(join_seq(seq![k], sep) == k);
    assert(reorder_texts(k, sep) =~= seq![k]);
}

/// The keys of the candidates.
pub open spec fn fuzz_keys<T: FuzzKey>(items: Seq<T>) -> Seq<Seq<char>> {
    items.map_values(|t: T| t.spec_fuzz_key())
}

/// The score of every candidate's key against `name`.
pub open spec fn fuzz_scores<T: FuzzKey>(items: Seq<T>, name: Seq<char>, sep: Seq<char>) -> Seq<int> {
    fuzz_keys(items).map_values(|k: Seq<char>| key_score(k, name, sep))
}

/// Fuzzy search: scores every candidate by its key and returns the best one, with
/// the candidates scoring close to it when there are any; `None` when nothing
/// scores above 0. With an empty name, no key may be empty (the score of a key is
/// divided by its length).
pub fn fuzz<T: FuzzKey>(name: &str, items: Vec<T>, sep: &str) -> (r: Option<FuzzResult<T>>)
    requires
        sep@.len() > 0,
        fuzz_ok(fuzz_keys(items@), name@),
    ensures
        ({
            let scores = fuzz_scores(items@, name@, sep@);
            let best = max_score(scores);
            let ans = first_pos(scores, best);
            let others = close_positions(scores, best, ans);
            match r {
                None => best == 0,
                Some(FuzzResult::High(t)) => best > mid_score() && others.len() == 0 && 0 <= ans < items@.len() && t == items@[ans],
                Some(FuzzResult::Low(t)) => 0 < best <= mid_score() && others.len() == 0 && 0 <= ans < items@.len() && t == items@[ans],
                Some(FuzzResult::Multi { ans: a, others: o }) => best > 0 && others.len() > 0 && 0 <= ans < items@.len() && a == items@[ans]
                    && o@ == others.map_values(|k: int| items@[k]),
            }
        }),
{
    let ghost keys = fuzz_keys(items@);
    let ghost scores = fuzz_scores(items@, name@, sep@);
    let mut vals: Vec<i64> = Vec::new();
    let mut best: i64 = 0;
    let mut i: usize = 0;
    while i < items.len()
        invariant
            sep@.len() > 0,
            keys == fuzz_keys(items@),
            scores == fuzz_scores(items@, name@, sep@),
            fuzz_ok(keys, name@),
            i <= items@.len(),
            vals@.len() == i,
            forall|j: int| 0 <= j < i ==> vals@[j] as int == scores[j],
            forall|j: int| 0 <= j < i ==> -0x1_0000_0000_00 <= #[trigger] vals@[j] <= 0x1_0000_0000_00,
            best as int == max_score(scores.take(i as int)),
            0 <= best <= 0x1_0000_0000_00,
        decreases items@.len() - i,
    {
        let key = items[i].fuzz_key();
        assert(key@ == keys[i as int]);
        let sc = my_fuzz(key.as_str(), name, sep);
        let kc = to_chars(key.as_str());
        let len = kc.len();
        let v: i64 = match sc {
            Some(x) => {
                if len == 0 {
                    proof {
                        lemma_empty_reorder(key@, sep@);
                        assert(name@.len() > 0);
                    }
                }
                let n = (x as i64) * 100;
                proof {
                    assert(len > 0);
                }
                if n >= 0 {
                    let q = (n as u64) / (len as u64);
                    q as i64
                } else {
                    let q = ((-n) as u64) / (len as u64);
                    -(q as i64)
                }
            },
            None => 0,
        };
        proof {
            if let Some(x) = sc {
                assert(key@.len() > 0);
            }
            assert(v as int == scores[i as int]);
            assert(scores.take(i + 1).drop_last() =~= scores.take(i as int));
        }
        vals.push(v);
        if best < v {
            best = v;
        }
        i = i + 1;
    }
    assert(scores.take(items@.len() as int) =~= scores);
    if best == 0 {
        return None;
    }
    let ghost vs = vals@.map_values(|x: i64| x as int);
    assert(vs =~= scores);
    let mut ans: Option<T> = None;
    let mut multi: Vec<T> = Vec::new();
    let mut rest = items;
    let ghost all = rest@;
    let mut j: usize = 0;
    let ghost mut ans_pos: int = -1;
    while j < vals.len()
        invariant
            vs == scores,
            vals@.len() == all.len(),
            forall|k: int| 0 <= k < vals@.len() ==> vals@[k] as int == scores[k],
            best as int == max_score(scores),
            best > 0,
            best <= 0x1_0000_0000_00,
            forall|k: int| 0 <= k < vals@.len() ==> -0x1_0000_0000_00 <= #[trigger] vals@[k] <= 0x1_0000_0000_00,
            scores.len() == all.len(),
            j <= all.len(),
            rest@ == all.skip(j as int),
            ans is None ==> first_pos(scores.take(j as int), best as int) == j,
            ans matches Some(t) ==> 0 <= ans_pos < j && first_pos(scores.take(j as int), best as int) == ans_pos && t == all[ans_pos],
            multi@ == close_positions(scores.take(j as int), best as int, if ans is Some { ans_pos } else { j as int }).map_values(|k: int| all[k]),
        decreases all.len() - j,
    {
        let t = rest.remove(0);
        assert(t == all[j as int]);
        assert(rest@ =~= all.skip(j + 1));
        let v = vals[j];
        let ghost pre = scores.take(j as int);
        assert(scores.take(j + 1).drop_last() =~= pre);
        assert(scores.take(j + 1).last() == v as int);
        let ghost old_multi = multi@;
        if v == best && ans.is_none() {
            proof {
                ans_pos = j as int;
            }
            ans = Some(t);
            assert(multi@ == close_positions(scores.take(j + 1), best as int, ans_pos).map_values(|k: int| all[k]));
        } else if best * 7 < v * 10 {
            proof {
                if ans is None {
                    lemma_close_positions_ans(pre, best as int, j as int, j + 1);
                }
            }
            multi.push(t);
            assert(multi@ =~= close_positions(scores.take(j + 1), best as int, if ans is Some { ans_pos } else { j + 1 }).map_values(|k: int| all[k]));
        } else {
            proof {
                if ans is None {
                    lemma_close_positions_ans(pre, best as int, j as int, j + 1);
                }
            }
            assert(multi@ =~= close_positions(scores.take(j + 1), best as int, if ans is Some { ans_pos } else { j + 1 }).map_values(|k: int| all[k]));
        }
        j = j + 1;
    }
    assert(scores.take(all.len() as int) =~= scores);
    proof {
        lemma_best_present(scores);
    }
    let a = match ans {
        Some(a) => a,
        None => {
            assert(false);
            return None;
        },
    };
    if multi.len() == 0 {
        if best <= 1000 {
            Some(FuzzResult::Low(a))
        } else {
            Some(FuzzResult::High(a))
        }
    } else {
        Some(FuzzResult::Multi { ans: a, others: multi })
    }
}

/// The position set apart does not matter when it lies beyond the scores.
proof fn lemma_close_positions_ans(v: Seq<int>, best: int, a: int, b: int)
    requires
        a >= v.len(),
        b >= v.len(),
    ensures
        close_positions(v, best, a) == close_positions(v, best, b),
    decreases v.len(),
{
    if v.len() > 0 {
        lemma_close_positions_ans(v.drop_last(), best, a, b);
    }
}

/// A positive best score is the score of some candidate.
proof fn lemma_best_present(v: Seq<int>)
    ensures
        max_score(v) > 0 ==> first_pos(v, max_score(v)) < v.len(),
    decreases v.len(),
{
    if v.len() > 0 {
        lemma_best_present(v.drop_last());
    }
}

proof fn lemma_best_of(v: Seq<Option<i64>>)
    ensures
        forall|i: int|
            0 <= i < v.len() && (#[trigger] v[i]) is Some ==> (best_of(v) is Some && best_of(v)->0 >= v[i]->0),
        best_of(v) matches Some(y) ==> exists|i: int| 0 <= i < v.len() && v[i] == Some(y),
    decreases v.len(),
{
    if v.len() > 0 {
        let d = v.drop_last();
        lemma_best_of(d);
        assert forall|i: int| 0 <= i < v.len() && (#[trigger] v[i]) is Some implies (best_of(v) is Some && best_of(v)->0 >= v[i]->0) by {
            if i < v.len() - 1 {
                assert(d[i] == v[i]);
            }
        }
        if best_of(v) is Some {
            let y = best_of(v)->0;
            if v.last() == Some(y) {
                assert(v[v.len() - 1] == Some(y));
            } else {
                assert(best_of(d) == Some(y));
                let i = choose|i: int| 0 <= i < d.len() && d[i] == Some(y);
                assert(v[i] == d[i]);
            }
        }
    }
}

/// A candidate scores as well as the best of its reorderings: every reordering
/// of its `sep`-separated parts that matches `pattern` makes the candidate match
/// at least as well, and the score the candidate gets is the score of one of its
/// reorderings.
pub proof fn law_my_fuzz_best_reordering(choice: Seq<char>, pattern: Seq<char>, sep: Seq<char>)
    ensures
        forall|i: int|
            0 <= i < reorder_texts(choice, sep).len() && (#[trigger] skim_score(reorder_texts(choice, sep)[i], pattern))
                is Some ==> (spec_my_fuzz(choice, pattern, sep) is Some && spec_my_fuzz(choice, pattern, sep)->0 >= skim_score(
                reorder_texts(choice, sep)[i],
                pattern,
            )->0),
        spec_my_fuzz(choice, pattern, sep) matches Some(y) ==> exists|i: int|
            0 <= i < reorder_texts(choice, sep).len() && skim_score(reorder_texts(choice, sep)[i], pattern) == Some(y),
{
    let t = reorder_texts(choice, sep);
    let v = t.map_values(|x: Seq<char>| skim_score(x, pattern));
    lemma_best_of(v);
    assert forall|i: int| 0 <= i < t.len() && (#[trigger] skim_score(t[i], pattern)) is Some implies (spec_my_fuzz(
        choice,
        pattern,
        sep,
    ) is Some && spec_my_fuzz(choice, pattern, sep)->0 >= skim_score(t[i], pattern)->0) by {
        assert(v[i] == skim_score(t[i], pattern));
    }
    if spec_my_fuzz(choice, pattern, sep) is Some {
        let y = spec_my_fuzz(choice, pattern, sep)->0;
        let i = choose|i: int| 0 <= i < v.len() && v[i] == Some(y);
        assert(v[i] == skim_score(t[i], pattern));
    }
}

proof fn lemma_max_score_ge(v: Seq<int>, i: int)
    requires
        0 <= i < v.len(),
    ensures
        max_score(v) >= v[i],
        max_score(v) >= 0,
    decreases v.len(),
{
    if i < v.len() - 1 {
        lemma_max_score_ge(v.drop_last(), i);
        assert(v.drop_last()[i] == v[i]);
    } else if v.len() > 1 {
        lemma_max_score_ge(v.drop_last(), 0);
    }
}

/// Fuzzy search finds something as soon as one reordering of the parts of one
/// candidate's key matches the name with a score that, spread over the key's
/// length, is worth at least one point: the best score is then positive, so
/// `fuzz` answers with a candidate.
pub proof fn law_fuzz_finds_reordered_match<T: FuzzKey>(items: Seq<T>, name: Seq<char>, sep: Seq<char>, i: int, j: int)
    requires
        0 <= i < items.len(),
        0 <= j < reorder_texts(items[i].spec_fuzz_key(), sep).len(),
        skim_score(reorder_texts(items[i].spec_fuzz_key(), sep)[j], name) matches Some(x) && x * 100 >= items[i].spec_fuzz_key().len() > 0,
    ensures
        max_score(fuzz_scores(items, name, sep)) > 0,
        fuzz_scores(items, name, sep)[i] > 0,
{
    let k = items[i].spec_fuzz_key();
    law_my_fuzz_best_reordering(k, name, sep);
    let x = skim_score(reorder_texts(k, sep)[j], name)->0;
    let y = spec_my_fuzz(k, name, sep)->0;
    assert(y >= x);
    let n = k.len() as int;
    assert((y * 100) / n >= 1) by (nonlinear_arith)
        requires
            y * 100 >= n,
            n > 0,
    ;
    let scores = fuzz_scores(items, name, sep);
    assert(fuzz_keys(items)[i] == k);
    assert(scores[i] == key_score(k, name, sep));
    lemma_max_score_ge(scores, i);
}

/// A name of two parts can be read in either order: for parts `a` and `b` free of
/// the one-character separator `c`, both `a c b` and `b c a` are reorderings of
/// `a c b`.
pub proof fn law_two_parts_reorder(a: Seq<char>, b: Seq<char>, c: char)
    requires
        crate::text::free_of(a, c),
        crate::text::free_of(b, c),
    ensures
        reorder_texts(a + seq![c] + b, seq![c]).contains(a + seq![c] + b),
        reorder_texts(a + seq![c] + b, seq![c]).contains(b + seq![c] + a),
{
    let s = a + seq![c] + b;
    crate::text::lemma_split_step(a, c, b);
    crate::text::lemma_split_free(b, c);
    let parts = split_seq(s, seq![c]);
    assert(parts =~= seq![a, b]);
    assert(seq![a, b].remove(0) =~= seq![b]);
    assert(seq![a, b].remove(1) =~= seq![a]);
    assert(seq![b].remove(0) =~= Seq::<Seq<char>>::empty());
    assert(seq![a].remove(0) =~= Seq::<Seq<char>>::empty());
    let pb = perms(seq![b]);
    assert(perms_from(seq![b], 1) =~= Seq::<Seq<Seq<char>>>::empty());
    assert(pb =~= seq![seq![b]]) by {
        assert(perms(Seq::<Seq<char>>::empty()) == seq![Seq::<Seq<char>>::empty()]);
        assert(seq![b] + Seq::<Seq<char>>::empty() =~= seq![b]);
    }
    let pa = perms(seq![a]);
    assert(perms_from(seq![a], 1) =~= Seq::<Seq<Seq<char>>>::empty());
    assert(pa =~= seq![seq![a]]) by {
        assert(perms(Seq::<Seq<char>>::empty()) == seq![Seq::<Seq<char>>::empty()]);
        assert(seq![a] + Seq::<Seq<char>>::empty() =~= seq![a]);
    }
    let ab = seq![a, b];
    assert(perms_from(ab, 2) =~= Seq::<Seq<Seq<char>>>::empty());
    assert(perms_from(ab, 1) =~= seq![seq![b, a]]) by {
        assert(seq![b] + seq![a] =~= seq![b, a]);
    }
    assert(perms(ab) =~= seq![seq![a, b], seq![b, a]]) by {
        assert(seq![a] + seq![b] =~= seq![a, b]);
    }
    let t = reorder_texts(s, seq![c]);
    assert(join_seq(seq![a, b], seq![c]) =~= a + seq![c] + b) by {
        assert(seq![a, b].drop_last() =~= seq![a]);
        assert(join_seq(seq![a], seq![c]) == a);
        assert(seq![a, b].last() == b);
    }
    assert(join_seq(seq![b, a], seq![c]) =~= b + seq![c] + a) by {
        assert(seq![b, a].drop_last() =~= seq![b]);
        assert(join_seq(seq![b], seq![c]) == b);
        assert(seq![b, a].last() == a);
    }
    assert(t[0] == a + seq![c] + b);
    assert(t[1] == b + seq![c] + a);
}

/// Reading the two parts of a name in the other order can only help it: when
/// `b c a` matches `pattern`, so does `a c b`, at least as well.
pub proof fn law_my_fuzz_swapped_parts(a: Seq<char>, b: Seq<char>, c: char, pattern: Seq<char>)
    requires
        crate::text::free_of(a, c),
        crate::text::free_of(b, c),
        skim_score(b + seq![c] + a, pattern) is Some,
    ensures
        spec_my_fuzz(a + seq![c] + b, pattern, seq![c]) is Some,
        spec_my_fuzz(a + seq![c] + b, pattern, seq![c])->0 >= skim_score(b + seq![c] + a, pattern)->0,
{
    law_two_parts_reorder(a, b, c);
    law_my_fuzz_best_reordering(a + seq![c] + b, pattern, seq![c]);
    let t = reorder_texts(a + seq![c] + b, seq![c]);
    let i = choose|i: int| 0 <= i < t.len() && t[i] == b + seq![c] + a;
    assert(skim_score(t[i], pattern) == skim_score(b + seq![c] + a, pattern));
}

} // verus!
