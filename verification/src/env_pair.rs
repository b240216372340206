//! Environment variables recorded with a run, written `KEY=value`.
use crate::error::{DisplayResult, FormatCode};
use crate::text::{
    find_char, from_chars, is_white_space, is_white_space_exec, push_str, split_once_seq, str_eq,
    sub_string, to_chars,
};
use vstd::prelude::*;

verus! {

/// A variable and its value.
#[derive(Debug, Clone)]
pub struct EnvPair {
    pub key: String,
    pub val: String,
}

impl View for EnvPair {
    type V = (Seq<char>, Seq<char>);

    open spec fn view(&self) -> (Seq<char>, Seq<char>) {
        (self.key@, self.val@)
    }
}

/// `s` without its leading white space.
pub open spec fn skip_white(s: Seq<char>) -> Seq<char>
    decreases s.len(),
{
    if s.len() > 0 && is_white_space(s[0]) {
        skip_white(s.drop_first())
    } else {
        s
    }
}

/// The leading characters of `s` up to the first white space.
pub open spec fn take_word(s: Seq<char>) -> Seq<char>
    decreases s.len(),
{
    if s.len() > 0 && !is_white_space(s[0]) {
        seq![s[0]] + take_word(s.drop_first())
    } else {
        Seq::empty()
    }
}

/// The first word of `s` (`split_whitespace().next()`).
pub open spec fn first_word(s: Seq<char>) -> Seq<char> {
    take_word(skip_white(s))
}

/// How `EnvPair::from_str` reads `s`: the text before the first `=` is the key.
pub open spec fn spec_env_pair(s: Seq<char>) -> core::result::Result<(Seq<char>, Seq<char>), (FormatCode, Seq<char>)> {
    match split_once_seq(s, seq!['=']) {
        Some((k, v)) => Ok((k, v)),
        None => Err((FormatCode::EnvPair, s)),
    }
}

/// `a` comes before `b` or equals it, comparing characters by code point
/// (`String::cmp`).
pub open spec fn key_le(a: Seq<char>, b: Seq<char>) -> bool
    decreases a.len(),
{
    if a.len() == 0 {
        true
    } else if b.len() == 0 {
        false
    } else if (a[0] as u32) != (b[0] as u32) {
        (a[0] as u32) < (b[0] as u32)
    } else {
        key_le(a.drop_first(), b.drop_first())
    }
}

/// `s` with `x` placed after every leading pair whose key is not greater.
pub open spec fn insert_by_key(s: Seq<(Seq<char>, Seq<char>)>, x: (Seq<char>, Seq<char>)) -> Seq<
    (Seq<char>, Seq<char>),
>
    decreases s.len(),
{
    if s.len() == 0 {
        seq![x]
    } else if key_le(s[0].0, x.0) {
        seq![s[0]] + insert_by_key(s.drop_first(), x)
    } else {
        seq![x] + s
    }
}

/// Stable sort by key.
pub open spec fn sort_by_key(s: Seq<(Seq<char>, Seq<char>)>) -> Seq<(Seq<char>, Seq<char>)>
    decreases s.len(),
{
    if s.len() == 0 {
        s
    } else {
        insert_by_key(sort_by_key(s.drop_last()), s.last())
    }
}

/// Keys never decrease along `s`.
pub open spec fn sorted_by_key(s: Seq<(Seq<char>, Seq<char>)>) -> bool {
    forall|i: int, j: int| 0 <= i < j < s.len() ==> key_le(#[trigger] s[i].0, #[trigger] s[j].0)
}

/// The pairs as keys and values.
pub open spec fn pairs_view(v: Seq<EnvPair>) -> Seq<(Seq<char>, Seq<char>)> {
    v.map_values(|p: EnvPair| p@)
}

proof fn lemma_key_le_total(a: Seq<char>, b: Seq<char>)
    ensures
        key_le(a, b) || key_le(b, a),
    decreases a.len(),
{
    if a.len() > 0 && b.len() > 0 && (a[0] as u32) == (b[0] as u32) {
        lemma_key_le_total(a.drop_first(), b.drop_first());
    }
}

proof fn lemma_key_le_trans(a: Seq<char>, b: Seq<char>, c: Seq<char>)
    requires
        key_le(a, b),
        key_le(b, c),
    ensures
        key_le(a, c),
    decreases a.len(),
{
    if a.len() > 0 && b.len() > 0 && c.len() > 0 && (a[0] as u32) == (b[0] as u32) && (b[0] as u32) == (c[0]
        as u32) {
        lemma_key_le_trans(a.drop_first(), b.drop_first(), c.drop_first());
    }
}

proof fn lemma_insert_sorted(s: Seq<(Seq<char>, Seq<char>)>, x: (Seq<char>, Seq<char>))
    requires
        sorted_by_key(s),
    ensures
        sorted_by_key(insert_by_key(s, x)),
        insert_by_key(s, x).to_multiset() == s.to_multiset().insert(x),
    decreases s.len(),
{
    broadcast use vstd::seq_lib::group_to_multiset_ensures;
    let r = insert_by_key(s, x);
    if s.len() == 0 {
        assert(r =~= Seq::<(Seq<char>, Seq<char>)>::empty().push(x));
    } else if key_le(s[0].0, x.0) {
        let t = s.drop_first();
        assert forall|i: int, j: int| 0 <= i < j < t.len() implies key_le(#[trigger] t[i].0, #[trigger] t[j].0) by {
            assert(t[i] == s[i + 1] && t[j] == s[j + 1]);
        }
        lemma_insert_sorted(t, x);
        let u = insert_by_key(t, x);
        assert forall|i: int, j: int| 0 <= i < j < r.len() implies key_le(#[trigger] r[i].0, #[trigger] r[j].0) by {
            if i == 0 {
                assert(r[j] == u[j - 1]);
                assert(u.to_multiset().count(u[j - 1]) > 0);
                if u[j - 1] != x {
                    assert(t.to_multiset().count(u[j - 1]) > 0);
                    assert(t.contains(u[j - 1]));
                    let k = choose|k: int| 0 <= k < t.len() && t[k] == u[j - 1];
                    assert(s[k + 1] == t[k]);
                }
            } else {
                assert(r[i] == u[i - 1] && r[j] == u[j - 1]);
            }
        }
        assert(s =~= seq![s[0]] + t);
        vstd::seq_lib::lemma_multiset_commutative(seq![s[0]], t);
        vstd::seq_lib::lemma_multiset_commutative(seq![s[0]], u);
        assert(seq![s[0]] =~= Seq::<(Seq<char>, Seq<char>)>::empty().push(s[0]));
        assert(r.to_multiset() =~= s.to_multiset().insert(x));
    } else {
        lemma_key_le_total(s[0].0, x.0);
        assert forall|i: int, j: int| 0 <= i < j < r.len() implies key_le(#[trigger] r[i].0, #[trigger] r[j].0) by {
            if i == 0 {
                assert(r[j] == s[j - 1]);
                if j - 1 > 0 {
                    lemma_key_le_trans(x.0, s[0].0, s[j - 1].0);
                }
            } else {
                assert(r[i] == s[i - 1] && r[j] == s[j - 1]);
            }
        }
        vstd::seq_lib::lemma_multiset_commutative(seq![x], s);
        assert(seq![x] =~= Seq::<(Seq<char>, Seq<char>)>::empty().push(x));
        assert(r.to_multiset() =~= s.to_multiset().insert(x));
    }
}

/// Sorting by key orders the pairs by key and keeps every pair.
pub proof fn law_sort_by_key(s: Seq<(Seq<char>, Seq<char>)>)
    ensures
        sorted_by_key(sort_by_key(s)),
        sort_by_key(s).to_multiset() == s.to_multiset(),
    decreases s.len(),
{
    broadcast use vstd::seq_lib::group_to_multiset_ensures;
    if s.len() > 0 {
        law_sort_by_key(s.drop_last());
        lemma_insert_sorted(sort_by_key(s.drop_last()), s.last());
        assert(s =~= s.drop_last().push(s.last()));
    }
}

fn key_le_exec(a: &[char], b: &[char]) -> (r: bool)
    ensures
        r == key_le(a@, b@),
{
    let mut i: usize = 0;
    assert(a@.skip(0) =~= a@);
    assert(b@.skip(0) =~= b@);
    while i < a.len() && i < b.len() && (a[i] as u32) == (b[i] as u32)
        invariant
            i <= a@.len(),
            i <= b@.len(),
            key_le(a@, b@) == key_le(a@.skip(i as int), b@.skip(i as int)),
        decreases a@.len() - i,
    {
        assert(a@.skip(i as int).drop_first() =~= a@.skip(i + 1));
        assert(b@.skip(i as int).drop_first() =~= b@.skip(i + 1));
        i = i + 1;
    }
    if i == a.len() {
        true
    } else if i == b.len() {
        false
    } else {
        (a[i] as u32) < (b[i] as u32)
    }
}

impl EnvPair {
    pub fn from_str(s: &str) -> (r: DisplayResult<EnvPair>)
        ensures
            crate::script_type::agrees(r, spec_env_pair(s@)),
    {
        let v = to_chars(s);
        match find_char(v.as_slice(), '=') {
            Some(i) => {
                proof {
                    crate::text::lemma_find_sub_spec(v@, seq!['=']);
                }
                let key = sub_string(v.as_slice(), 0, i);
                let val = sub_string(v.as_slice(), i + 1, v.len());
                Ok(EnvPair { key, val })
            },
            None => FormatCode::EnvPair.to_display_res(s.to_owned()),
        }
    }

    /// `KEY=value`.
    pub fn to_string(&self) -> (r: String)
        ensures
            r@ == self.key@ + seq!['='] + self.val@,
    {
        let mut v = to_chars(self.key.as_str());
        v.push('=');
        push_str(&mut v, self.val.as_str());
        from_chars(v.as_slice())
    }

    /// Records the variable named by the first word of `line` with the value that
    /// `env_getter` finds for it, unless it is recorded already (the earlier value
    /// wins) or has no value.
    pub fn process_line<F: FnOnce(&str) -> Option<String>>(line: &str, env_vec: &mut Vec<EnvPair>, env_getter: F)
        requires
            exists|i: int| 0 <= i < line@.len() && !is_white_space(#[trigger] line@[i]),
            forall|k: &str| call_requires(env_getter, (k,)),
        ensures
            ({
                let key = first_word(line@);
                if exists|i: int| 0 <= i < old(env_vec)@.len() && (#[trigger] old(env_vec)@[i]).key@ == key {
                    final(env_vec)@ == old(env_vec)@
                } else {
                    exists|k: &str, v: Option<String>|
                        k@ == key && call_ensures(env_getter, (k,), v) && match v {
                            Some(val) => pairs_view(final(env_vec)@) == pairs_view(old(env_vec)@).push((key, val@)),
                            None => final(env_vec)@ == old(env_vec)@,
                        }
                }
            }),
    {
        let v = to_chars(line);
        let n = v.len();
        let mut start: usize = 0;
        assert(v@.skip(0) =~= v@);
        while start < n && is_white_space_exec(v[start])
            invariant
                n == v@.len(),
                start <= n,
                skip_white(v@) == skip_white(v@.skip(start as int)),
            decreases n - start,
        {
            assert(v@.skip(start as int).drop_first() =~= v@.skip(start + 1));
            start = start + 1;
        }
        let mut end: usize = start;
        while end < n && !is_white_space_exec(v[end])
            invariant
                n == v@.len(),
                start <= end <= n,
                skip_white(v@) == v@.skip(start as int),
                take_word(v@.skip(start as int)) == v@.subrange(start as int, end as int) + take_word(
                    v@.skip(end as int),
                ),
            decreases n - end,
        {
            assert(v@.skip(end as int).drop_first() =~= v@.skip(end + 1));
            assert(v@.subrange(start as int, end + 1) =~= v@.subrange(start as int, end as int) + seq![v@[end as int]]);
            end = end + 1;
        }
        proof {
            if start == n {
                assert(v@.skip(start as int) =~= Seq::<char>::empty());
            }
            if end < n {
                assert(take_word(v@.skip(end as int)) =~= Seq::<char>::empty());
            } else {
                assert(v@.skip(end as int) =~= Seq::<char>::empty());
            }
            assert(v@.subrange(start as int, end as int) + Seq::<char>::empty() =~= v@.subrange(start as int, end as int));
        }
        let env = sub_string(v.as_slice(), start, end);
        assert(env@ == first_word(line@));
        let mut i: usize = 0;
        while i < env_vec.len()
            invariant
                i <= env_vec@.len(),
                env_vec@ == old(env_vec)@,
                env@ == first_word(line@),
                forall|j: int| 0 <= j < i ==> (#[trigger] env_vec@[j]).key@ != env@,
            decreases env_vec@.len() - i,
        {
            if str_eq(env_vec[i].key.as_str(), env.as_str()) {
                assert(old(env_vec)@[i as int].key@ == first_word(line@));
                return;
            }
            i = i + 1;
        }
        let got = env_getter(env.as_str());
        match got {
            Some(val) => {
                let ghost before = pairs_view(env_vec@);
                env_vec.push(EnvPair { key: env, val });
                assert(pairs_view(env_vec@) =~= before.push((first_word(line@), val@)));
            },
            None => {},
        }
    }

    /// Sorts the pairs by key, keeping the order of equal keys.
    pub fn sort(v: &mut Vec<EnvPair>)
        ensures
            pairs_view(final(v)@) == sort_by_key(pairs_view(old(v)@)),
    {
        let ghost orig = pairs_view(v@);
        let mut rest: Vec<EnvPair> = Vec::new();
        std::mem::swap(&mut rest, v);
        let mut out: Vec<EnvPair> = Vec::new();
        let ghost mut k: int = 0;
        assert(orig.take(0) =~= Seq::<(Seq<char>, Seq<char>)>::empty());
        while rest.len() > 0
            invariant
                0 <= k <= orig.len(),
                pairs_view(rest@) == orig.skip(k),
                pairs_view(out@) == sort_by_key(orig.take(k)),
            decreases rest@.len(),
        {
            let ghost r0 = rest@;
            let x = rest.remove(0);
            assert(x == r0[0]);
            assert(pairs_view(r0)[0] == x@);
            assert(pairs_view(r0).len() == orig.len() - k);
            assert(k < orig.len());
            assert forall|j: int| 0 <= j < rest@.len() implies pairs_view(rest@)[j] == orig.skip(k + 1)[j] by {
                assert(rest@[j] == r0[j + 1]);
                assert(pairs_view(r0)[j + 1] == orig.skip(k)[j + 1]);
            }
            assert(pairs_view(rest@) =~= orig.skip(k + 1));
            assert(orig.skip(k)[0] == orig[k]);
            let kx = to_chars(x.key.as_str());
            let mut p: usize = 0;
            let ghost s = pairs_view(out@);
            assert(s.skip(0) =~= s);
            assert(s.take(0) + insert_by_key(s.skip(0), x@) =~= insert_by_key(s, x@));
            while p < out.len() && key_le_exec(to_chars(out[p].key.as_str()).as_slice(), kx.as_slice())
                invariant
                    s == pairs_view(out@),
                    kx@ == x.key@,
                    p <= out@.len(),
                    insert_by_key(s, x@) == s.take(p as int) + insert_by_key(s.skip(p as int), x@),
                decreases out@.len() - p,
            {
                assert(s.skip(p as int).drop_first() =~= s.skip(p + 1));
                assert(s.skip(p as int)[0] == s[p as int]);
                assert(s.take(p + 1) =~= s.take(p as int).push(s[p as int]));
                assert(s.take(p as int) + (seq![s[p as int]] + insert_by_key(s.skip(p + 1), x@)) =~= s.take(p + 1)
                    + insert_by_key(s.skip(p + 1), x@));
                p = p + 1;
            }
            proof {
                if p < s.len() {
                    assert(s.skip(p as int)[0] == s[p as int]);
                    assert(insert_by_key(s.skip(p as int), x@) == seq![x@] + s.skip(p as int));
                } else {
                    assert(s.skip(p as int) =~= Seq::<(Seq<char>, Seq<char>)>::empty());
                }
            }
            out.insert(p, x);
            assert(pairs_view(out@) =~= insert_by_key(s, x@));
            proof {
                assert(orig.take(k + 1).drop_last() =~= orig.take(k));
                assert(orig.take(k + 1).last() == x@);
                assert(pairs_view(rest@) =~= orig.skip(k + 1));
                k = k + 1;
            }
        }
        assert(orig.take(k) =~= orig);
        *v = out;
    }
}

/// The text of a pair whose key holds no `=` reads back as that pair.
pub proof fn law_env_pair_round_trip(key: Seq<char>, val: Seq<char>)
    requires
        forall|i: int| 0 <= i < key.len() ==> key[i] != '=',
    ensures
        spec_env_pair(key + seq!['='] + val) == Ok::<(Seq<char>, Seq<char>), (FormatCode, Seq<char>)>((key, val)),
{
    let s = key + seq!['='] + val;
    assert(crate::text::matches_at(s, seq!['='], key.len() as int)) by {
        assert(s.subrange(key.len() as int, key.len() + 1int) =~= seq!['=']);
    }
    assert forall|j: int| 0 <= j < key.len() implies !crate::text::matches_at(s, seq!['='], j) by {
        if crate::text::matches_at(s, seq!['='], j) {
            assert(s.subrange(j, j + 1)[0] == s[j]);
        }
    }
    crate::text::lemma_find_sub_some(s, seq!['='], key.len() as int);
    assert(s.take(key.len() as int) =~= key);
    assert(s.skip(key.len() + 1int) =~= val);
}

} // verus!
