//! Name rules shared by script names, tags and script types.
use crate::text::{find, find_sub, to_chars};
use vstd::prelude::*;

verus! {

/// A character that no name may hold.
pub open spec fn is_forbidden_char(c: char) -> bool {
    c == ' ' || c == '@' || c == '*' || c == '!' || c == '?' || c == '=' || c == '/'
}

/// A name is illegal when it is empty, starts with `-` or `.`, holds `..` or holds
/// one of the forbidden characters.
pub open spec fn is_illegal_name(s: Seq<char>) -> bool {
    ||| s.len() == 0
    ||| s[0] == '-'
    ||| s[0] == '.'
    ||| find_sub(s, seq!['.', '.']) is Some
    ||| exists|i: int| 0 <= i < s.len() && is_forbidden_char(#[trigger] s[i])
}

pub fn is_forbidden_char_exec(c: char) -> (r: bool)
    ensures
        r == is_forbidden_char(c),
{
    c == ' ' || c == '@' || c == '*' || c == '!' || c == '?' || c == '=' || c == '/'
}

/// Whether `s` may not be used as a name.
pub fn illegal_name(s: &str) -> (r: bool)
    ensures
        r == is_illegal_name(s@),
{
    let v = to_chars(s);
    illegal_name_chars(v.as_slice())
}

pub fn illegal_name_chars(v: &[char]) -> (r: bool)
    ensures
        r == is_illegal_name(v@),
{
    if v.len() == 0 || v[0] == '-' || v[0] == '.' {
        return true;
    }
    let dots = vec!['.', '.'];
    assert(dots@ =~= seq!['.', '.']);
    if find(v, dots.as_slice()).is_some() {
        return true;
    }
    let mut i: usize = 0;
    while i < v.len()
        invariant
            i <= v@.len(),
            forall|j: int| 0 <= j < i ==> !is_forbidden_char(#[trigger] v@[j]),
        decreases v@.len() - i,
    {
        if is_forbidden_char_exec(v[i]) {
            return true;
        }
        i = i + 1;
    }
    false
}

/// Number of `false` entries.
pub open spec fn count_false(v: Seq<bool>) -> nat
    decreases v.len(),
{
    if v.len() == 0 {
        0
    } else {
        count_false(v.drop_last()) + if v.last() {
            0nat
        } else {
            1nat
        }
    }
}

/// At most one per entry, and one per entry when all are `false`.
pub proof fn lemma_count_false_bound(v: Seq<bool>)
    ensures
        count_false(v) <= v.len(),
        (forall|j: int| 0 <= j < v.len() ==> !v[j]) ==> count_false(v) == v.len(),
    decreases v.len(),
{
    if v.len() > 0 {
        lemma_count_false_bound(v.drop_last());
    }
}

/// No entry is `false` when none is counted.
pub proof fn lemma_count_false_zero(v: Seq<bool>)
    requires
        count_false(v) == 0,
    ensures
        forall|j: int| 0 <= j < v.len() ==> #[trigger] v[j],
    decreases v.len(),
{
    if v.len() > 0 {
        lemma_count_false_zero(v.drop_last());
        assert forall|j: int| 0 <= j < v.len() implies #[trigger] v[j] by {
            if j < v.len() - 1 {
                assert(v.drop_last()[j] == v[j]);
            }
        }
    }
}

/// Setting a `false` entry removes one.
pub proof fn lemma_count_false_set(v: Seq<bool>, i: int)
    requires
        0 <= i < v.len(),
        !v[i],
    ensures
        count_false(v.update(i, true)) + 1 == count_false(v),
    decreases v.len(),
{
    let u = v.update(i, true);
    if i == v.len() - 1 {
        assert(u.drop_last() =~= v.drop_last());
    } else {
        assert(u.drop_last() =~= v.drop_last().update(i, true));
        lemma_count_false_set(v.drop_last(), i);
    }
}

/// Setting entries never adds any.
pub proof fn lemma_count_false_mono(a: Seq<bool>, b: Seq<bool>)
    requires
        a.len() == b.len(),
        forall|j: int| 0 <= j < a.len() && a[j] ==> b[j],
    ensures
        count_false(b) <= count_false(a),
    decreases a.len(),
{
    if a.len() > 0 {
        lemma_count_false_mono(a.drop_last(), b.drop_last());
    }
}

} // verus!
