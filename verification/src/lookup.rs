//! Running script queries against the repository: by recency, by exact name, or
//! by fuzzy search, with the decision whether the user must confirm a fuzzy pick.
use crate::config::PromptLevel;
use crate::error::{Error, Result};
use crate::fuzzy::{close_positions, first_pos, fuzz, fuzz_keys, fuzz_ok, fuzz_scores, max_score, mid_score, FuzzKey, FuzzResult};
use crate::multifuzz::{resolve_multi_fuzz, spec_resolve_multi};
use crate::query::{query_text, regex_matches, ListQuery, Pattern, QueryInnerV, ScriptQuery, ScriptQueryInner};
use crate::repo::{by_visibility, find_by_key, sort_by_time, spec_invert, ScriptRepo, Visibility};
use crate::script::{name_key, ScriptInfo};
use std::collections::HashSet;
use vstd::prelude::*;

verus! {

/// Hidden scripts are looked at too when the query has a bang.
pub open spec fn spec_compute_vis(bang: bool) -> Visibility {
    if bang {
        Visibility::All
    } else {
        Visibility::Normal
    }
}

pub fn compute_vis(bang: bool) -> (r: Visibility)
    ensures
        r == spec_compute_vis(bang),
{
    if bang {
        Visibility::All
    } else {
        Visibility::Normal
    }
}

/// The scripts a query looks at; `finding_filtered` looks at the other ones.
pub open spec fn query_visibility(bang: bool, finding_filtered: bool) -> Visibility {
    if finding_filtered {
        spec_invert(spec_compute_vis(bang))
    } else {
        spec_compute_vis(bang)
    }
}

/// Whether the user must confirm a fuzzy pick, given how weak or ambiguous the
/// match was.
pub open spec fn spec_need_prompt(level: PromptLevel, is_low: bool, is_multi: bool) -> bool {
    match level {
        PromptLevel::Always => true,
        PromptLevel::Never => false,
        PromptLevel::Smart => is_low || is_multi,
        PromptLevel::OnMultiFuzz => is_multi,
    }
}

pub fn need_prompt(level: PromptLevel, is_low: bool, is_multi: bool) -> (r: bool)
    ensures
        r == spec_need_prompt(level, is_low, is_multi),
{
    match level {
        PromptLevel::Always => true,
        PromptLevel::Never => false,
        PromptLevel::Smart => is_low || is_multi,
        PromptLevel::OnMultiFuzz => is_multi,
    }
}

/// The scripts of `v`, taken by reference.
pub open spec fn refs<'a>(v: Seq<ScriptInfo>) -> Seq<&'a ScriptInfo> {
    v.map_values(|s: ScriptInfo| &s)
}

/// Fuzzy scores of the scripts' names against `name`, parts split at `/`.
pub open spec fn name_scores<'a>(items: Seq<&'a ScriptInfo>, name: Seq<char>) -> Seq<int> {
    fuzz_scores(items, name, seq!['/'])
}

/// What fuzzy search over `items` picks for `name`: the script, whether the match
/// was weak, and whether others scored close to it; `None` when nothing matches.
pub open spec fn fuzz_pick<'a>(items: Seq<&'a ScriptInfo>, name: Seq<char>) -> Option<(&'a ScriptInfo, bool, bool)> {
    let scores = name_scores(items, name);
    let best = max_score(scores);
    let ans = first_pos(scores, best);
    let others = close_positions(scores, best, ans);
    if best == 0 {
        None
    } else if others.len() == 0 {
        Some((items[ans], best <= mid_score(), false))
    } else {
        Some((spec_resolve_multi(name, items[ans], others.map_values(|k: int| items[k])), false, true))
    }
}

/// The script called `key` among those `vis` looks at; with `All`, a shown
/// script comes first.
pub open spec fn spec_find(shown: Seq<ScriptInfo>, hidden: Seq<ScriptInfo>, vis: Visibility, key: Seq<char>) -> Option<ScriptInfo> {
    let found_shown = find_by_key(shown, key);
    let found_hidden = find_by_key(hidden, key);
    match vis {
        Visibility::Normal => match found_shown {
            Some(i) => Some(shown[i]),
            None => None,
        },
        Visibility::Inverse => match found_hidden {
            Some(i) => Some(hidden[i]),
            None => None,
        },
        Visibility::All => match (found_shown, found_hidden) {
            (Some(i), _) => Some(shown[i]),
            (None, Some(i)) => Some(hidden[i]),
            (None, None) => None,
        },
    }
}

/// What query `q` finds among the scripts `shown` and `hidden`, with whether the
/// user must first confirm it at prompt level `level`: `Err(())` when a recency
/// query reaches past the scripts there are.
pub open spec fn query_outcome(
    shown: Seq<ScriptInfo>,
    hidden: Seq<ScriptInfo>,
    q: (QueryInnerV, bool),
    finding_filtered: bool,
    level: PromptLevel,
) -> core::result::Result<Option<(ScriptInfo, bool)>, ()> {
    let vis = query_visibility(q.1, finding_filtered);
    let items = by_visibility(shown, hidden, vis);
    if q.0.0 == 2 {
        let v = sort_by_time(items);
        if v.len() >= q.0.3 {
            Ok(Some((v[v.len() - q.0.3], false)))
        } else {
            Err(())
        }
    } else if q.0.0 == 1 {
        match spec_find(shown, hidden, vis, name_key(q.0.2)) {
            Some(s) => Ok(Some((s, false))),
            None => Ok(None),
        }
    } else {
        match fuzz_pick(refs(items), q.0.1) {
            Some((s, low, multi)) => Ok(Some((*s, spec_need_prompt(level, low, multi)))),
            None => Ok(None),
        }
    }
}

proof fn lemma_find_by_key_range(s: Seq<ScriptInfo>, key: Seq<char>)
    ensures
        find_by_key(s, key) matches Some(i) ==> 0 <= i < s.len(),
    decreases s.len(),
{
    if s.len() > 0 {
        lemma_find_by_key_range(s.drop_last(), key);
    }
}

proof fn lemma_find_by_key_concat(a: Seq<ScriptInfo>, b: Seq<ScriptInfo>, key: Seq<char>)
    ensures
        find_by_key(a + b, key) == match find_by_key(a, key) {
            Some(i) => Some(i),
            None => match find_by_key(b, key) {
                Some(j) => Some(a.len() + j),
                None => None,
            },
        },
    decreases b.len(),
{
    if b.len() == 0 {
        assert(a + b =~= a);
    } else {
        lemma_find_by_key_concat(a, b.drop_last(), key);
        assert((a + b).drop_last() =~= a + b.drop_last());
        assert((a + b).last() == b.last());
    }
}

/// A query with a bang searches the hidden scripts as well as the shown ones
/// (a shown script of the name first): its outcome is the one the query without
/// a bang gets when every hidden script is shown after the shown ones. Without a bang it does not look at the hidden scripts
/// at all: taking them away changes nothing; and looking for the filtered-out
/// scripts without a bang searches the hidden ones alone.
pub proof fn law_fuzzy_bang_searches_hidden(
    shown: Seq<ScriptInfo>,
    hidden: Seq<ScriptInfo>,
    q: (QueryInnerV, bool),
    level: PromptLevel,
)
    ensures
        q.1 ==> query_outcome(shown, hidden, q, false, level) == query_outcome(
            shown + hidden,
            Seq::empty(),
            (q.0, false),
            false,
            level,
        ),
        !q.1 ==> query_outcome(shown, hidden, q, false, level) == query_outcome(shown, Seq::empty(), q, false, level),
        !q.1 ==> query_outcome(shown, hidden, q, true, level) == query_outcome(hidden, Seq::empty(), q, false, level),
{
    let key = name_key(q.0.2);
    lemma_find_by_key_concat(shown, hidden, key);
    assert(shown + Seq::<ScriptInfo>::empty() =~= shown);
    assert(hidden + Seq::<ScriptInfo>::empty() =~= hidden);
    assert(find_by_key(Seq::<ScriptInfo>::empty(), key) is None);
    if let Some(j) = find_by_key(hidden, key) {
        lemma_find_by_key_range(hidden, key);
        assert((shown + hidden)[shown.len() + j] == hidden[j]);
    }
    if let Some(i) = find_by_key(shown, key) {
        lemma_find_by_key_range(shown, key);
        assert((shown + hidden)[i] == shown[i]);
    }
}

/// No name among `s` is empty, unless the searched `name` is not.
pub open spec fn names_searchable(s: Seq<ScriptInfo>, name: Seq<char>) -> bool {
    name.len() > 0 || forall|i: int| 0 <= i < s.len() ==> (#[trigger] name_key(s[i].name@)).len() > 0
}

/// A query the repository can answer: a recency query counts from 1, and fuzzy
/// search cannot score an empty name against an empty text.
pub open spec fn query_ok(shown: Seq<ScriptInfo>, hidden: Seq<ScriptInfo>, q: (QueryInnerV, bool)) -> bool {
    &&& q.0.0 == 2 ==> q.0.3 >= 1
    &&& q.0.0 == 0 ==> names_searchable(shown, q.0.1) && names_searchable(hidden, q.0.1)
}

/// `r` is the outcome `o` of a query, with the recency error as `Error::Empty`.
pub open spec fn is_outcome(r: Result<Option<(&ScriptInfo, bool)>>, o: core::result::Result<Option<(ScriptInfo, bool)>, ()>) -> bool {
    match o {
        Ok(Some((t, p))) => r matches Ok(Some((s, p2))) && *s == t && p2 == p,
        Ok(None) => r matches Ok(None),
        Err(()) => r matches Err(e) && e is Empty,
    }
}

proof fn lemma_searchable_items(shown: Seq<ScriptInfo>, hidden: Seq<ScriptInfo>, vis: Visibility, name: Seq<char>)
    requires
        names_searchable(shown, name),
        names_searchable(hidden, name),
    ensures
        fuzz_ok(fuzz_keys(refs(by_visibility(shown, hidden, vis))), name),
{
    let items = by_visibility(shown, hidden, vis);
    if name.len() == 0 {
        let keys = fuzz_keys(refs(items));
        assert forall|i: int| 0 <= i < keys.len() implies (#[trigger] keys[i]).len() > 0 by {
            assert(keys[i] == name_key(items[i].name@));
            match vis {
                Visibility::Normal => assert(name_key(shown[i].name@).len() > 0),
                Visibility::Inverse => assert(name_key(hidden[i].name@).len() > 0),
                Visibility::All => {
                    if i < shown.len() {
                        assert(name_key(shown[i].name@).len() > 0);
                    } else {
                        assert(items[i] == hidden[i - shown.len()]);
                        assert(name_key(hidden[i - shown.len()].name@).len() > 0);
                    }
                },
            }
        }
    }
}

/// Looks for the script that `q` names: the `n`-th latest, the one with the exact
/// name, or the best fuzzy match, which the caller asks the user to confirm when
/// the second part of the result holds (the level is `Never` when
/// `forbid_prompt` holds). With `finding_filtered` the other scripts are
/// searched; a recency query never is.
pub fn do_script_query<'a>(
    q: &ScriptQuery,
    repo: &'a ScriptRepo,
    finding_filtered: bool,
    forbid_prompt: bool,
    level: PromptLevel,
) -> (r: Result<Option<(&'a ScriptInfo, bool)>>)
    requires
        query_ok(repo.spec_shown(), repo.spec_hidden(), q@),
        !(finding_filtered && q@.0.0 == 2),
    ensures
        is_outcome(
            r,
            query_outcome(
                repo.spec_shown(),
                repo.spec_hidden(),
                q@,
                finding_filtered,
                if forbid_prompt {
                    PromptLevel::Never
                } else {
                    level
                },
            ),
        ),
{
    let mut visibility = compute_vis(q.bang);
    if finding_filtered {
        visibility = visibility.invert();
    }
    let ghost shown = repo.spec_shown();
    let ghost hidden = repo.spec_hidden();
    let ghost items = by_visibility(shown, hidden, visibility);
    match &q.inner {
        ScriptQueryInner::Prev(prev) => {
            match repo.latest_mut(*prev, visibility) {
                Some(s) => Ok(Some((s, false))),
                None => Err(Error::Empty),
            }
        },
        ScriptQueryInner::Exact(name) => {
            match repo.get_mut(name, visibility) {
                Some(s) => {
                    assert(spec_find(shown, hidden, visibility, name_key(name@)) == Some(*s));
                    Ok(Some((s, false)))
                },
                None => Ok(None),
            }
        },
        ScriptQueryInner::Fuzz(name) => {
            let level = if forbid_prompt {
                PromptLevel::Never
            } else {
                level
            };
            let list = repo.iter_by_vis(visibility);
            proof {
                assert(list@ =~= refs(items));
                lemma_searchable_items(shown, hidden, visibility, name@);
                reveal_strlit("/");
            }
            assert("/"@ =~= seq!['/']);
            let ghost scores = name_scores(list@, name@);
            let ghost lv = list@;
            let ghost pick = fuzz_pick(lv, name@);
            match fuzz(name.as_str(), list, "/") {
                None => {
                    assert(max_score(scores) == 0);
                    assert(pick is None);
                    Ok(None)
                },
                Some(FuzzResult::High(s)) => {
                    assert(pick == Some((s, false, false)));
                    Ok(Some((s, need_prompt(level, false, false))))
                },
                Some(FuzzResult::Low(s)) => {
                    assert(pick == Some((s, true, false)));
                    Ok(Some((s, need_prompt(level, true, false))))
                },
                Some(FuzzResult::Multi { ans, others }) => {
                    let s = resolve_multi_fuzz(name.as_str(), ans, others);
                    assert(pick == Some((s, false, true)));
                    Ok(Some((s, need_prompt(level, false, true))))
                },
            }
        },
    }
}

/// Looks for the script that `q` names, and when nothing is found tells why:
/// the script is hidden (for a query without a bang), or there is none.
pub fn do_script_query_strict<'a>(q: &ScriptQuery, repo: &'a ScriptRepo, level: PromptLevel) -> (r: Result<
    (&'a ScriptInfo, bool),
>)
    requires
        query_ok(repo.spec_shown(), repo.spec_hidden(), q@),
    ensures
        ({
            let shown = repo.spec_shown();
            let hidden = repo.spec_hidden();
            match query_outcome(shown, hidden, q@, false, level) {
                Ok(Some((t, p))) => r matches Ok((s, p2)) && *s == t && p2 == p,
                Err(()) => r matches Err(e) && e is Empty,
                Ok(None) => if !q@.1 && query_outcome(shown, hidden, q@, true, PromptLevel::Never) is Ok
                    && query_outcome(shown, hidden, q@, true, PromptLevel::Never)->Ok_0 is Some {
                    r matches Err(Error::ScriptIsFiltered(k)) && k@ == name_key(
                        query_outcome(shown, hidden, q@, true, PromptLevel::Never)->Ok_0->Some_0.0.name@,
                    )
                } else {
                    r matches Err(Error::ScriptNotFound(k)) && k@ == query_text(q@)
                },
            }
        }),
{
    match do_script_query(q, repo, false, false, level)? {
        Some(hit) => return Ok(hit),
        None => {},
    }
    if !q.bang {
        let filtered = do_script_query(q, repo, true, true, level)?;
        match filtered {
            Some((s, _)) => {
                return Err(Error::ScriptIsFiltered(s.name.key()));
            },
            None => {},
        }
    }
    Err(Error::ScriptNotFound(q.to_string()))
}

/// Some script of `s` has id `id`.
pub open spec fn has_id(s: Seq<&ScriptInfo>, id: i64) -> bool {
    exists|i: int| 0 <= i < s.len() && (#[trigger] s[i]).id == id
}

/// The scripts of `s` in order, each id kept at its first occurrence only.
pub open spec fn dedup_by_id<'a>(s: Seq<&'a ScriptInfo>) -> Seq<&'a ScriptInfo>
    decreases s.len(),
{
    if s.len() == 0 {
        s
    } else {
        let d = dedup_by_id(s.drop_last());
        if has_id(d, s.last().id) {
            d
        } else {
            d.push(s.last())
        }
    }
}

/// The hits of all queries, one after the other.
pub open spec fn flatten_hits<'a>(hits: Seq<Seq<&'a ScriptInfo>>) -> Seq<&'a ScriptInfo>
    decreases hits.len(),
{
    if hits.len() == 0 {
        Seq::empty()
    } else {
        flatten_hits(hits.drop_last()) + hits.last()
    }
}

/// Views of lists of hits.
pub open spec fn hits_v<'a>(hits: Seq<Vec<&'a ScriptInfo>>) -> Seq<Seq<&'a ScriptInfo>> {
    hits.map_values(|v: Vec<&'a ScriptInfo>| v@)
}

/// Joins the hits of the queries, dropping a script already found.
pub fn merge_hits<'a>(hits: Vec<Vec<&'a ScriptInfo>>) -> (r: Vec<&'a ScriptInfo>)
    ensures
        r@ == dedup_by_id(flatten_hits(hits_v(hits@))),
{
    broadcast use vstd::std_specs::hash::group_hash_axioms;

    let ghost hv = hits_v(hits@);
    let mut mem: HashSet<i64> = HashSet::new();
    let mut ret: Vec<&'a ScriptInfo> = Vec::new();
    let mut i: usize = 0;
    assert(hv.take(0) =~= Seq::<Seq<&ScriptInfo>>::empty());
    while i < hits.len()
        invariant
            i <= hits@.len(),
            hv == hits_v(hits@),
            ret@ == dedup_by_id(flatten_hits(hv.take(i as int))),
            forall|id: i64| mem@.contains(id) <==> has_id(ret@, id),
        decreases hits@.len() - i,
    {
        let ghost base = flatten_hits(hv.take(i as int));
        let hit = &hits[i];
        let mut j: usize = 0;
        assert(base + hit@.take(0) =~= base);
        while j < hit.len()
            invariant
                j <= hit@.len(),
                ret@ == dedup_by_id(base + hit@.take(j as int)),
                forall|id: i64| mem@.contains(id) <==> has_id(ret@, id),
            decreases hit@.len() - j,
        {
            let s = hit[j];
            let ghost before = ret@;
            assert((base + hit@.take(j + 1)).drop_last() =~= base + hit@.take(j as int));
            assert((base + hit@.take(j + 1)).last() == s);
            if !mem.contains(&s.id) {
                mem.insert(s.id);
                ret.push(s);
                assert forall|id: i64| mem@.contains(id) <==> has_id(ret@, id) by {
                    if has_id(ret@, id) {
                        let k = choose|k: int| 0 <= k < ret@.len() && (#[trigger] ret@[k]).id == id;
                        if k < before.len() {
                            assert(before[k] == ret@[k]);
                        }
                    }
                    if has_id(before, id) {
                        let k = choose|k: int| 0 <= k < before.len() && (#[trigger] before[k]).id == id;
                        assert(ret@[k] == before[k]);
                    }
                    if id == s.id {
                        assert(ret@[before.len() as int] == s);
                    }
                }
            }
            j = j + 1;
        }
        assert(hv.take(i + 1).drop_last() =~= hv.take(i as int));
        assert(hv.take(i + 1).last() == hit@);
        assert(hit@.take(hit@.len() as int) =~= hit@);
        i = i + 1;
    }
    assert(hv.take(hits@.len() as int) =~= hv);
    ret
}

/// The scripts among `items` whose name the expression compiled from `src`
/// matches, in order.
pub open spec fn pattern_matches<'a>(items: Seq<&'a ScriptInfo>, src: Seq<char>) -> Seq<&'a ScriptInfo>
    decreases items.len(),
{
    if items.len() == 0 {
        items
    } else {
        let d = pattern_matches(items.drop_last(), src);
        if regex_matches(src, name_key(items.last().name@)) {
            d.push(items.last())
        } else {
            d
        }
    }
}

/// The scripts among `items` whose name the expression matches, in order.
pub fn pattern_hits<'a>(re: &Pattern, items: Vec<&'a ScriptInfo>) -> (r: Vec<&'a ScriptInfo>)
    ensures
        r@ == pattern_matches(items@, re.source()),
{
    let mut ret: Vec<&'a ScriptInfo> = Vec::new();
    let mut i: usize = 0;
    while i < items.len()
        invariant
            i <= items@.len(),
            ret@ == pattern_matches(items@.take(i as int), re.source()),
        decreases items@.len() - i,
    {
        let s = items[i];
        let key = s.name.key();
        if re.is_match(key.as_str()) {
            ret.push(s);
        }
        assert(items@.take(i + 1).drop_last() =~= items@.take(i as int));
        assert(items@.take(i + 1).last() == s);
        i = i + 1;
    }
    assert(items@.take(items@.len() as int) =~= items@);
    ret
}

/// Why a list query fails: a recency query past the scripts there are, a script
/// hidden by the selection, a name or pattern with no script, or nothing found
/// (the user turned every pick down).
pub enum ListErrV {
    Empty,
    Filtered(Seq<char>),
    NotFound(Seq<char>),
    DontFuzz,
}

/// `e` is the failure `v`.
pub open spec fn err_is(e: Error, v: ListErrV) -> bool {
    match v {
        ListErrV::Empty => e is Empty,
        ListErrV::Filtered(k) => e matches Error::ScriptIsFiltered(n) && n@ == k,
        ListErrV::NotFound(k) => e matches Error::ScriptNotFound(n) && n@ == k,
        ListErrV::DontFuzz => e is DontFuzz,
    }
}

/// What `do_script_query_strict` gives for `q`: the script with whether the user
/// must confirm it, or why there is none.
pub open spec fn strict_outcome(shown: Seq<ScriptInfo>, hidden: Seq<ScriptInfo>, q: (QueryInnerV, bool), level: PromptLevel) -> core::result::Result<
    (ScriptInfo, bool),
    ListErrV,
> {
    match query_outcome(shown, hidden, q, false, level) {
        Ok(Some(x)) => Ok(x),
        Err(()) => Err(ListErrV::Empty),
        Ok(None) => {
            let f = query_outcome(shown, hidden, q, true, PromptLevel::Never);
            if !q.1 && f is Ok && f->Ok_0 is Some {
                Err(ListErrV::Filtered(name_key(f->Ok_0->Some_0.0.name@)))
            } else {
                Err(ListErrV::NotFound(query_text(q)))
            }
        },
    }
}

/// A script taken by reference.
pub open spec fn script_ref<'a>(s: ScriptInfo) -> &'a ScriptInfo {
    &s
}

/// The handler of list queries that reports a script query finding nothing as an
/// error, and a fuzzy pick that the user turned down as no hit.
pub struct DefaultListQueryHandler;

impl DefaultListQueryHandler {
    /// The script query's hit; `confirm` is asked about the pick when it needs the
    /// user's word, and its answer decides.
    pub fn handle_query<'a, F: Fn(&'a ScriptInfo) -> bool>(
        &mut self,
        query: &ScriptQuery,
        repo: &'a ScriptRepo,
        level: PromptLevel,
        confirm: &F,
    ) -> (r: Result<Option<&'a ScriptInfo>>)
        requires
            query_ok(repo.spec_shown(), repo.spec_hidden(), query@),
            forall|s: &'a ScriptInfo| confirm.requires((s,)),
        ensures
            match strict_outcome(repo.spec_shown(), repo.spec_hidden(), query@, level) {
                Ok((t, p)) => if p {
                    exists|b: bool|
                        #![trigger confirm.ensures((script_ref(t),), b)]
                        confirm.ensures((script_ref(t),), b) && if b {
                            r matches Ok(Some(s)) && *s == t
                        } else {
                            r matches Ok(None)
                        }
                } else {
                    r matches Ok(Some(s)) && *s == t
                },
                Err(e) => r matches Err(x) && err_is(x, e),
            },
    {
        match do_script_query_strict(query, repo, level) {
            Ok((s, ask)) => {
                if ask {
                    let b = confirm(s);
                    assert(script_ref(*s) == s);
                    if !b {
                        Ok(None)
                    } else {
                        Ok(Some(s))
                    }
                } else {
                    Ok(Some(s))
                }
            },
            Err(e) => Err(e),
        }
    }

    /// Every item is a query.
    pub fn handle_item(&mut self, item: ListQuery) -> (r: Option<ListQuery>)
        ensures
            r == Some(item),
    {
        Some(item)
    }

    pub fn should_raise_dont_fuzz_on_empty() -> (r: bool)
        ensures
            r,
    {
        true
    }

    pub fn should_return_all_on_empty() -> (r: bool)
        ensures
            r,
    {
        true
    }
}

/// The ids of `v` are distinct.
pub open spec fn distinct_ids(v: Seq<&ScriptInfo>) -> bool {
    forall|i: int, j: int| 0 <= i < j < v.len() ==> (#[trigger] v[i]).id != (#[trigger] v[j]).id
}

proof fn lemma_dedup_distinct(s: Seq<&ScriptInfo>)
    ensures
        distinct_ids(dedup_by_id(s)),
        forall|i: int| 0 <= i < dedup_by_id(s).len() ==> s.contains(#[trigger] dedup_by_id(s)[i]),
    decreases s.len(),
{
    if s.len() > 0 {
        lemma_dedup_distinct(s.drop_last());
        let d = dedup_by_id(s.drop_last());
        assert forall|i: int| 0 <= i < dedup_by_id(s).len() implies s.contains(#[trigger] dedup_by_id(s)[i]) by {
            if i < d.len() {
                let k = choose|k: int| 0 <= k < s.drop_last().len() && s.drop_last()[k] == d[i];
                assert(s[k] == d[i]);
            } else {
                assert(s[s.len() - 1] == s.last());
            }
        }
        if !has_id(d, s.last().id) {
            assert forall|i: int, j: int| 0 <= i < j < d.push(s.last()).len() implies (#[trigger] d.push(s.last())[i]).id
                != (#[trigger] d.push(s.last())[j]).id by {
                if j == d.len() {
                    assert(d.push(s.last())[i] == d[i]);
                }
            }
        }
    }
}

/// Every script `dedup_by_id` keeps, with distinct ids.
pub proof fn law_merged_hits_distinct(s: Seq<&ScriptInfo>)
    ensures
        distinct_ids(dedup_by_id(s)),
{
    lemma_dedup_distinct(s);
}

/// A list query the repository can answer (see `query_ok`).
pub open spec fn list_query_ok(repo: &ScriptRepo, q: ListQuery) -> bool {
    match q {
        ListQuery::Query(sq) => query_ok(repo.spec_shown(), repo.spec_hidden(), sq@),
        ListQuery::Pattern(..) => true,
    }
}

/// What one query of `ls` contributes: a pattern's matches among the scripts it
/// looks at (none is an error naming the pattern as written); a script query's
/// hit, or nothing when the hit needs the user's word and `answer` turns it down.
pub open spec fn list_step<'a>(shown: Seq<ScriptInfo>, hidden: Seq<ScriptInfo>, q: ListQuery, level: PromptLevel, answer: bool) -> core::result::Result<
    Seq<&'a ScriptInfo>,
    ListErrV,
> {
    match q {
        ListQuery::Pattern(p, og, bang) => {
            let m = pattern_matches(refs(by_visibility(shown, hidden, spec_compute_vis(bang))), p.source());
            if m.len() == 0 {
                Err(ListErrV::NotFound(og@))
            } else {
                Ok(m)
            }
        },
        ListQuery::Query(sq) => match strict_outcome(shown, hidden, sq@, level) {
            Ok((t, p)) => if p && !answer {
                Ok(Seq::empty())
            } else {
                Ok(refs(seq![t]))
            },
            Err(e) => Err(e),
        },
    }
}

/// The queries run in order, `ans[i]` answering query `i` where it needs the
/// user's word: the hits of each, or the first failure.
pub open spec fn list_steps<'a>(
    shown: Seq<ScriptInfo>,
    hidden: Seq<ScriptInfo>,
    qs: Seq<ListQuery>,
    level: PromptLevel,
    ans: Seq<bool>,
) -> core::result::Result<Seq<Seq<&'a ScriptInfo>>, ListErrV>
    decreases qs.len(),
{
    if qs.len() == 0 {
        Ok(Seq::empty())
    } else {
        match list_steps(shown, hidden, qs.drop_last(), level, ans.drop_last()) {
            Err(e) => Err(e),
            Ok(h) => match list_step(shown, hidden, qs.last(), level, ans.last()) {
                Err(e) => Err(e),
                Ok(x) => Ok(h.push(x)),
            },
        }
    }
}

/// The outcome of `ls` with queries: the hits joined, each script once, or the
/// first failure; nothing found at all is `DontFuzz`.
pub open spec fn list_outcome<'a>(
    shown: Seq<ScriptInfo>,
    hidden: Seq<ScriptInfo>,
    qs: Seq<ListQuery>,
    level: PromptLevel,
    ans: Seq<bool>,
) -> core::result::Result<Seq<&'a ScriptInfo>, ListErrV> {
    match list_steps(shown, hidden, qs, level, ans) {
        Err(e) => Err(e),
        Ok(h) => {
            let d = dedup_by_id(flatten_hits(h));
            if d.len() == 0 {
                Err(ListErrV::DontFuzz)
            } else {
                Ok(d)
            }
        },
    }
}

/// The script the user is asked about for query `q`, when it needs the user's
/// word.
pub open spec fn asked_about(shown: Seq<ScriptInfo>, hidden: Seq<ScriptInfo>, q: ListQuery, level: PromptLevel) -> Option<ScriptInfo> {
    match q {
        ListQuery::Query(sq) => match strict_outcome(shown, hidden, sq@, level) {
            Ok((t, true)) => Some(t),
            _ => None,
        },
        _ => None,
    }
}

/// Of the first `n` queries, each one reached (all before it succeeded) that
/// needs the user's word has `ans[i]` for what `confirm` answered about its pick.
pub open spec fn answered<'a, F: Fn(&'a ScriptInfo) -> bool>(
    confirm: &F,
    shown: Seq<ScriptInfo>,
    hidden: Seq<ScriptInfo>,
    qs: Seq<ListQuery>,
    level: PromptLevel,
    ans: Seq<bool>,
    n: int,
) -> bool {
    forall|i: int|
        #![trigger asked_about(shown, hidden, qs[i], level), ans[i]]
        0 <= i < n && list_steps::<'a>(shown, hidden, qs.take(i), level, ans.take(i)) is Ok ==> match asked_about(
            shown,
            hidden,
            qs[i],
            level,
        ) {
            Some(t) => confirm.ensures((script_ref::<'a>(t),), ans[i]),
            None => true,
        }
}

/// `r` is the outcome `o`.
pub open spec fn result_is<'a>(r: Result<Vec<&'a ScriptInfo>>, o: core::result::Result<Seq<&'a ScriptInfo>, ListErrV>) -> bool {
    match o {
        Ok(v) => r matches Ok(x) && x@ == v,
        Err(e) => r matches Err(x) && err_is(x, e),
    }
}

proof fn lemma_steps_stop(
    shown: Seq<ScriptInfo>,
    hidden: Seq<ScriptInfo>,
    qs: Seq<ListQuery>,
    level: PromptLevel,
    ans: Seq<bool>,
    k: int,
    j: int,
)
    requires
        0 <= k <= j <= qs.len(),
        ans.len() == qs.len(),
        list_steps::<'static>(shown, hidden, qs.take(k), level, ans.take(k)) is Err,
    ensures
        list_steps::<'static>(shown, hidden, qs.take(j), level, ans.take(j)) == list_steps::<'static>(
            shown,
            hidden,
            qs.take(k),
            level,
            ans.take(k),
        ),
    decreases j - k,
{
    if j > k {
        lemma_steps_stop(shown, hidden, qs, level, ans, k, j - 1);
        assert(qs.take(j).drop_last() =~= qs.take(j - 1));
        assert(ans.take(j).drop_last() =~= ans.take(j - 1));
    }
}

proof fn lemma_answered_extend<'a, F: Fn(&'a ScriptInfo) -> bool>(
    confirm: &F,
    shown: Seq<ScriptInfo>,
    hidden: Seq<ScriptInfo>,
    qs: Seq<ListQuery>,
    level: PromptLevel,
    ans: Seq<bool>,
    a: bool,
)
    requires
        ans.len() < qs.len(),
        answered(confirm, shown, hidden, qs, level, ans, ans.len() as int),
        list_steps::<'a>(shown, hidden, qs.take(ans.len() as int), level, ans) is Ok ==> match asked_about(
            shown,
            hidden,
            qs[ans.len() as int],
            level,
        ) {
            Some(t) => confirm.ensures((script_ref::<'a>(t),), a),
            None => true,
        },
    ensures
        answered(confirm, shown, hidden, qs, level, ans.push(a), ans.len() + 1int),
{
    let n = ans.push(a);
    let k = ans.len() as int;
    assert(n.take(k) =~= ans);
    assert forall|i: int|
        #![trigger asked_about(shown, hidden, qs[i], level), n[i]]
        0 <= i < k + 1 && list_steps::<'a>(shown, hidden, qs.take(i), level, n.take(i)) is Ok implies match asked_about(
        shown,
        hidden,
        qs[i],
        level,
    ) {
        Some(t) => confirm.ensures((script_ref::<'a>(t),), n[i]),
        None => true,
    } by {
        if i < k {
            assert(n.take(i) =~= ans.take(i));
            assert(n[i] == ans[i]);
            assert(asked_about(shown, hidden, qs[i], level) == asked_about(shown, hidden, qs[i], level));
        }
    }
}

proof fn lemma_answered_stop<'a, F: Fn(&'a ScriptInfo) -> bool>(
    confirm: &F,
    shown: Seq<ScriptInfo>,
    hidden: Seq<ScriptInfo>,
    qs: Seq<ListQuery>,
    level: PromptLevel,
    ans: Seq<bool>,
) -> (full: Seq<bool>)
    requires
        ans.len() < qs.len(),
        answered(confirm, shown, hidden, qs, level, ans, ans.len() as int),
        asked_about(shown, hidden, qs[ans.len() as int], level) is None,
        list_steps::<'a>(shown, hidden, qs.take(ans.len() + 1int), level, ans.push(true)) is Err,
    ensures
        full.len() == qs.len(),
        answered(confirm, shown, hidden, qs, level, full, qs.len() as int),
        list_steps::<'a>(shown, hidden, qs, level, full) == list_steps::<'a>(
            shown,
            hidden,
            qs.take(ans.len() + 1int),
            level,
            ans.push(true),
        ),
{
    let k = ans.len() as int;
    let count = qs.len() as int;
    let full = ans.push(true) + Seq::new((count - k - 1) as nat, |i: int| true);
    assert(full.take(k + 1) =~= ans.push(true));
    lemma_steps_stop(shown, hidden, qs, level, full, k + 1, count);
    assert(qs.take(count) =~= qs);
    assert(full.take(count) =~= full);
    assert forall|i: int|
        #![trigger asked_about(shown, hidden, qs[i], level), full[i]]
        0 <= i < count && list_steps::<'a>(shown, hidden, qs.take(i), level, full.take(i)) is Ok implies match asked_about(
        shown,
        hidden,
        qs[i],
        level,
    ) {
        Some(t) => confirm.ensures((script_ref::<'a>(t),), full[i]),
        None => true,
    } by {
        if i < k {
            assert(full.take(i) =~= ans.take(i));
            assert(full[i] == ans[i]);
            assert(asked_about(shown, hidden, qs[i], level) == asked_about(shown, hidden, qs[i], level));
        } else if i > k {
            lemma_steps_stop(shown, hidden, qs, level, full, k + 1, i);
        }
    }
    full
}

/// Runs the queries of `ls` in order and joins their hits, each script once:
/// a pattern's matches among the scripts it looks at, where a pattern matching
/// nothing is `ScriptNotFound` with the pattern as written; a script query's hit
/// (its failure ends the run), which `confirm` is asked about when it needs the
/// user's word, a refusal dropping it. When nothing was found, `DontFuzz`. With
/// no query at all, every shown script. `ans` in the contract is what `confirm`
/// answered, one entry per query.
#[verifier::rlimit(40)]
pub fn do_list_query<'a, F: Fn(&'a ScriptInfo) -> bool>(
    repo: &'a ScriptRepo,
    queries: Vec<ListQuery>,
    level: PromptLevel,
    confirm: &F,
) -> (r: Result<Vec<&'a ScriptInfo>>)
    requires
        forall|i: int| 0 <= i < queries@.len() ==> list_query_ok(repo, #[trigger] queries@[i]),
        forall|s: &'a ScriptInfo| confirm.requires((s,)),
    ensures
        queries@.len() == 0 ==> (r matches Ok(v) && v@ == refs(repo.spec_shown())),
        queries@.len() > 0 ==> exists|ans: Seq<bool>|
            #![trigger list_outcome::<'a>(repo.spec_shown(), repo.spec_hidden(), queries@, level, ans)]
            ans.len() == queries@.len() && answered(
                confirm,
                repo.spec_shown(),
                repo.spec_hidden(),
                queries@,
                level,
                ans,
                queries@.len() as int,
            ) && result_is(r, list_outcome::<'a>(repo.spec_shown(), repo.spec_hidden(), queries@, level, ans)),
{
    let mut handler = DefaultListQueryHandler;
    if queries.len() == 0 && DefaultListQueryHandler::should_return_all_on_empty() {
        let all = repo.iter_by_vis(Visibility::Normal);
        assert(all@ =~= refs(repo.spec_shown()));
        return Ok(all);
    }
    let ghost shown = repo.spec_shown();
    let ghost hidden = repo.spec_hidden();
    let ghost qs = queries@;
    let ghost count = qs.len() as int;
    let mut hits: Vec<Vec<&'a ScriptInfo>> = Vec::new();
    let ghost mut ans: Seq<bool> = Seq::empty();
    let mut rest = queries;
    assert(qs.skip(0) =~= qs);
    assert(qs.take(0) =~= Seq::<ListQuery>::empty());
    assert(hits_v(hits@) =~= Seq::<Seq<&ScriptInfo>>::empty());
    while rest.len() > 0
        invariant
            qs == queries@,
            count > 0,
            count == qs.len(),
            shown == repo.spec_shown(),
            hidden == repo.spec_hidden(),
            rest@.len() <= count,
            ans.len() == count - rest@.len(),
            rest@ == qs.skip(ans.len() as int),
            forall|i: int| 0 <= i < qs.len() ==> list_query_ok(repo, #[trigger] qs[i]),
            forall|s: &'a ScriptInfo| confirm.requires((s,)),
            list_steps::<'a>(shown, hidden, qs.take(ans.len() as int), level, ans) == Ok::<
                Seq<Seq<&'a ScriptInfo>>,
                ListErrV,
            >(hits_v(hits@)),
            answered(confirm, shown, hidden, qs, level, ans, ans.len() as int),
        decreases rest@.len(),
    {
        let ghost k = ans.len() as int;
        let item = rest.remove(0);
        assert(item == qs[k]);
        assert(rest@ =~= qs.skip(k + 1));
        assert(qs.take(k + 1).drop_last() =~= qs.take(k));
        assert(qs.take(k + 1).last() == qs[k]);
        let query = handler.handle_item(item);
        match query {
            None => {},
            Some(ListQuery::Pattern(re, og, bang)) => {
                let items = repo.iter_by_vis(compute_vis(bang));
                assert(items@ =~= refs(by_visibility(shown, hidden, spec_compute_vis(bang))));
                let found = pattern_hits(&re, items);
                if found.len() == 0 {
                    proof {
                        let full = lemma_answered_stop(confirm, shown, hidden, qs, level, ans);
                        assert(ans.push(true).drop_last() =~= ans);
                        assert(result_is(Err(Error::ScriptNotFound(og)), list_outcome::<'a>(shown, hidden, qs, level, full)));
                    }
                    return Err(Error::ScriptNotFound(og));
                }
                let ghost before = hits_v(hits@);
                let ghost fv = found@;
                assert(list_step::<'a>(shown, hidden, qs[k], level, true) == Ok::<Seq<&'a ScriptInfo>, ListErrV>(fv));
                hits.push(found);
                proof {
                    assert(hits_v(hits@) =~= before.push(fv));
                    lemma_answered_extend(confirm, shown, hidden, qs, level, ans, true);
                    let old_ans = ans;
                    ans = ans.push(true);
                    assert(ans.drop_last() =~= old_ans);
                    assert(qs.take(k + 1).drop_last() =~= qs.take(k));
                    assert(list_steps::<'a>(shown, hidden, qs.take(k + 1), level, ans) == Ok::<
                        Seq<Seq<&'a ScriptInfo>>,
                        ListErrV,
                    >(before.push(fv)));
                }
            },
            Some(ListQuery::Query(q)) => {
                assert(list_query_ok(repo, qs[k]));
                let ghost so = strict_outcome(shown, hidden, q@, level);
                let res = handler.handle_query(&q, repo, level, confirm);
                match res {
                    Err(e) => {
                        proof {
                            let full = lemma_answered_stop(confirm, shown, hidden, qs, level, ans);
                            assert(ans.push(true).drop_last() =~= ans);
                            assert(result_is(Err(e), list_outcome::<'a>(shown, hidden, qs, level, full)));
                        }
                        return Err(e);
                    },
                    Ok(found) => {
                        let ghost b: bool = match so {
                            Ok((t, true)) => choose|b: bool|
                                #![trigger confirm.ensures((script_ref::<'a>(t),), b)]
                                confirm.ensures((script_ref::<'a>(t),), b) && if b {
                                    res matches Ok(Some(s)) && *s == t
                                } else {
                                    res matches Ok(None)
                                },
                            _ => true,
                        };
                        let mut one: Vec<&'a ScriptInfo> = Vec::new();
                        match found {
                            Some(s) => {
                                one.push(s);
                            },
                            None => {},
                        }
                        let ghost before = hits_v(hits@);
                        hits.push(one);
                        proof {
                            assert(hits_v(hits@) =~= before.push(one@));
                            match so {
                                Ok((t, p)) => {
                                    if p {
                                        if b {
                                            assert(one@ =~= refs(seq![t]));
                                        } else {
                                            assert(one@ =~= Seq::<&ScriptInfo>::empty());
                                        }
                                    } else {
                                        assert(one@ =~= refs(seq![t]));
                                    }
                                },
                                Err(_) => {},
                            }
                            lemma_answered_extend(confirm, shown, hidden, qs, level, ans, b);
                            assert(list_step::<'a>(shown, hidden, qs[k], level, b) == Ok::<Seq<&'a ScriptInfo>, ListErrV>(one@));
                            let old_ans = ans;
                            ans = ans.push(b);
                            assert(ans.drop_last() =~= old_ans);
                            assert(qs.take(k + 1).drop_last() =~= qs.take(k));
                            assert(list_steps::<'a>(shown, hidden, qs.take(k + 1), level, ans) == Ok::<
                                Seq<Seq<&'a ScriptInfo>>,
                                ListErrV,
                            >(before.push(one@)));
                        }
                    },
                }
            },
        }
    }
    proof {
        assert(qs.take(count) =~= qs);
    }
    let ret = merge_hits(hits);
    if ret.len() == 0 && DefaultListQueryHandler::should_raise_dont_fuzz_on_empty() {
        assert(result_is(Err(Error::DontFuzz), list_outcome::<'a>(shown, hidden, qs, level, ans)));
        Err(Error::DontFuzz)
    } else {
        assert(result_is(Ok(ret), list_outcome::<'a>(shown, hidden, qs, level, ans)));
        Ok(ret)
    }
}

proof fn lemma_dedup_empty(s: Seq<&ScriptInfo>)
    ensures
        dedup_by_id(s).len() == 0 <==> s.len() == 0,
    decreases s.len(),
{
    if s.len() > 0 {
        lemma_dedup_empty(s.drop_last());
    }
}

/// When every query before it succeeds, a pattern that matches no script it
/// looks at ends the listing with `ScriptNotFound`, naming the pattern as it was
/// written, whatever comes after it.
pub proof fn law_unmatched_pattern_not_found(
    shown: Seq<ScriptInfo>,
    hidden: Seq<ScriptInfo>,
    qs: Seq<ListQuery>,
    level: PromptLevel,
    ans: Seq<bool>,
    k: int,
)
    requires
        0 <= k < qs.len(),
        ans.len() == qs.len(),
        list_steps::<'static>(shown, hidden, qs.take(k), level, ans.take(k)) is Ok,
        qs[k] is Pattern,
        pattern_matches(refs::<'static>(by_visibility(shown, hidden, spec_compute_vis(qs[k]->Pattern_2))), qs[k]->Pattern_0.source()).len() == 0,
    ensures
        list_outcome::<'static>(shown, hidden, qs, level, ans) == Err::<Seq<&'static ScriptInfo>, ListErrV>(
            ListErrV::NotFound(qs[k]->Pattern_1@),
        ),
{
    assert(qs.take(k + 1).drop_last() =~= qs.take(k));
    assert(ans.take(k + 1).drop_last() =~= ans.take(k));
    assert(qs.take(k + 1).last() == qs[k]);
    lemma_steps_stop(shown, hidden, qs, level, ans, k + 1, qs.len() as int);
    assert(qs.take(qs.len() as int) =~= qs);
    assert(ans.take(qs.len() as int) =~= ans);
}

/// A listing with queries ends with `DontFuzz` exactly when every query
/// succeeded and none found a script (every pick was turned down).
pub proof fn law_dont_fuzz_iff_nothing_found(
    shown: Seq<ScriptInfo>,
    hidden: Seq<ScriptInfo>,
    qs: Seq<ListQuery>,
    level: PromptLevel,
    ans: Seq<bool>,
)
    ensures
        (list_outcome::<'static>(shown, hidden, qs, level, ans) == Err::<Seq<&'static ScriptInfo>, ListErrV>(
            ListErrV::DontFuzz,
        )) <==> (list_steps::<'static>(shown, hidden, qs, level, ans) matches Ok(h) && flatten_hits(h).len() == 0),
{
    match list_steps::<'static>(shown, hidden, qs, level, ans) {
        Ok(h) => lemma_dedup_empty(flatten_hits(h)),
        Err(e) => {
            assert(!(e is DontFuzz)) by {
                lemma_steps_not_dont_fuzz(shown, hidden, qs, level, ans);
            }
        },
    }
}

proof fn lemma_steps_not_dont_fuzz(shown: Seq<ScriptInfo>, hidden: Seq<ScriptInfo>, qs: Seq<ListQuery>, level: PromptLevel, ans: Seq<bool>)
    ensures
        list_steps::<'static>(shown, hidden, qs, level, ans) matches Err(e) ==> !(e is DontFuzz),
    decreases qs.len(),
{
    if qs.len() > 0 {
        lemma_steps_not_dont_fuzz(shown, hidden, qs.drop_last(), level, ans.drop_last());
    }
}

} // verus!
