//! Breaking a text into lines of a given length in bytes, at a space where one
//! is at hand.
use crate::text::{
    blen, char_blen, char_len_utf8, from_chars, lemma_blen_take, lemma_blen_take_mono,
    lemma_rfind_sub_some_bounds, rfind, rfind_sub, sub_chars, to_chars,
};
use vstd::prelude::*;

verus! {

/// The number of leading characters of `s` that take exactly `n` bytes, if `n`
/// falls between two characters.
pub open spec fn char_pos(s: Seq<char>, n: int) -> Option<int>
    decreases s.len(),
{
    if n == 0 {
        Some(0)
    } else if s.len() == 0 || n < 0 {
        None
    } else {
        match char_pos(s.drop_first(), n - char_blen(s[0])) {
            Some(k) => Some(k + 1),
            None => None,
        }
    }
}

/// `split` can cut `s` to at most `max` bytes: the text fits, or `max` is
/// positive and falls between two characters.
pub open spec fn wrap_ok(s: Seq<char>, max: int) -> bool {
    blen(s) <= max || (max > 0 && char_pos(s, max) is Some)
}

/// The first line and the rest: a text that fits stays whole; otherwise it is cut
/// after `max` bytes and, when the cut falls inside a word, moved back to just
/// after the last space before it.
pub open spec fn wrap_split(s: Seq<char>, max: int) -> (Seq<char>, Seq<char>) {
    if blen(s) <= max {
        (s, Seq::empty())
    } else {
        let k = char_pos(s, max)->0;
        let s1 = s.take(k);
        if s1.len() > 0 && s1.last() != ' ' && rfind_sub(s1, seq![' ']) is Some {
            let p = rfind_sub(s1, seq![' '])->0;
            (s1.take(p + 1), s.skip(p + 1))
        } else {
            (s1, s.skip(k))
        }
    }
}

/// Every cut that wrapping `s` into lines of `max` bytes makes is possible.
pub open spec fn wrap_lines_ok(s: Seq<char>, max: int) -> bool
    decreases s.len(),
{
    s.len() == 0 || (wrap_ok(s, max) && blen(s) <= usize::MAX && {
        let rest = wrap_split(s, max).1;
        rest.len() < s.len() && wrap_lines_ok(rest, max)
    })
}

/// The lines of `s` wrapped to `max` bytes, the first line included.
pub open spec fn wrap_lines(s: Seq<char>, max: int) -> Seq<Seq<char>>
    decreases s.len(),
{
    if s.len() == 0 {
        Seq::empty()
    } else {
        let (a, b) = wrap_split(s, max);
        if b.len() < s.len() {
            seq![a] + wrap_lines(b, max)
        } else {
            seq![a]
        }
    }
}

proof fn lemma_char_pos(s: Seq<char>, n: int)
    requires
        char_pos(s, n) is Some,
    ensures
        0 <= char_pos(s, n)->0 <= s.len(),
        blen(s.take(char_pos(s, n)->0)) == n,
    decreases s.len(),
{
    if n == 0 {
        assert(s.take(0) =~= Seq::<char>::empty());
        assert(vstd::utf8::encode_utf8(Seq::<char>::empty()) =~= Seq::<u8>::empty());
    } else {
        let t = s.drop_first();
        lemma_char_pos(t, n - char_blen(s[0]));
        let k = char_pos(t, n - char_blen(s[0]))->0;
        assert(s.take(k + 1) =~= seq![s[0]] + t.take(k));
        crate::text::lemma_blen_add(seq![s[0]], t.take(k));
        crate::text::lemma_blen_char(s[0]);
    }
}

proof fn lemma_char_pos_of(s: Seq<char>, k: int)
    requires
        0 <= k <= s.len(),
    ensures
        char_pos(s, blen(s.take(k)) as int) == Some(k),
    decreases k,
{
    if k == 0 {
        assert(s.take(0) =~= Seq::<char>::empty());
        assert(vstd::utf8::encode_utf8(Seq::<char>::empty()) =~= Seq::<u8>::empty());
    } else {
        let t = s.drop_first();
        lemma_char_pos_of(t, k - 1);
        assert(s.take(k) =~= seq![s[0]] + t.take(k - 1));
        crate::text::lemma_blen_add(seq![s[0]], t.take(k - 1));
        crate::text::lemma_blen_char(s[0]);
        assert(char_blen(s[0]) >= 1);
    }
}

/// Cuts `v` to its first line of at most `max` bytes, as `wrap_split`.
pub fn split_chars(v: &[char], max: usize) -> (r: (Vec<char>, Vec<char>))
    requires
        wrap_ok(v@, max as int),
        blen(v@) <= usize::MAX,
    ensures
        r.0@ == wrap_split(v@, max as int).0,
        r.1@ == wrap_split(v@, max as int).1,
{
    let n = v.len();
    let total = crate::text::blen_prefix(v, n);
    assert(v@.take(n as int) =~= v@);
    if total <= max {
        return (sub_chars(v, 0, n), Vec::new());
    }
    let k = char_index_of_bytes(v, max);
    let s1 = sub_chars(v, 0, k);
    assert(s1@ =~= v@.take(k as int));
    if k > 0 && s1[k - 1] != ' ' {
        let sp = vec![' '];
        assert(sp@ =~= seq![' ']);
        match rfind(s1.as_slice(), sp.as_slice()) {
            Some(p) => {
                proof {
                    lemma_rfind_sub_some_bounds(s1@, seq![' ']);
                }
                return (sub_chars(v, 0, p + 1), sub_chars(v, p + 1, n));
            },
            None => {},
        }
    }
    (s1, sub_chars(v, k, n))
}

/// Cuts `s` to its first line of at most `max_len` bytes and the rest, as
/// `wrap_split`.
pub fn split(s: &str, max_len: usize) -> (r: (String, String))
    requires
        wrap_ok(s@, max_len as int),
        blen(s@) <= usize::MAX,
    ensures
        r.0@ == wrap_split(s@, max_len as int).0,
        r.1@ == wrap_split(s@, max_len as int).1,
{
    let v = to_chars(s);
    let (a, b) = split_chars(v.as_slice(), max_len);
    (from_chars(a.as_slice()), from_chars(b.as_slice()))
}

/// The number of leading characters of `v` that take exactly `n` bytes.
pub fn char_index_of_bytes(v: &[char], n: usize) -> (r: usize)
    requires
        char_pos(v@, n as int) is Some,
    ensures
        r == char_pos(v@, n as int)->0,
        r <= v@.len(),
{
    let ghost k0 = char_pos(v@, n as int)->0;
    proof {
        lemma_char_pos(v@, n as int);
    }
    let mut k: usize = 0;
    let mut acc: usize = 0;
    while acc < n
        invariant
            k <= k0 <= v@.len(),
            blen(v@.take(k0)) == n,
            acc == blen(v@.take(k as int)),
            acc <= n,
        decreases n - acc,
    {
        proof {
            lemma_blen_take(v@, k as int);
            if k == k0 {
                assert(false);
            }
            lemma_blen_take_mono(v@, k + 1, k0);
        }
        acc = acc + char_len_utf8(v[k]);
        k = k + 1;
    }
    proof {
        if k < k0 {
            lemma_blen_take_mono(v@, k as int, k0);
        }
    }
    k
}

/// Byte length of the characters of `v`, or `None` when it does not fit in
/// `usize`.
pub fn checked_blen(v: &[char]) -> (r: Option<usize>)
    ensures
        match r {
            Some(b) => b == blen(v@),
            None => blen(v@) > usize::MAX,
        },
{
    let mut r: usize = 0;
    let mut i: usize = 0;
    while i < v.len()
        invariant
            i <= v@.len(),
            r == blen(v@.take(i as int)),
        decreases v@.len() - i,
    {
        proof {
            crate::text::lemma_blen_take(v@, i as int);
        }
        let c = crate::text::char_len_utf8(v[i]);
        if r > usize::MAX - c {
            proof {
                crate::text::lemma_blen_take_mono(v@, i + 1, v@.len() as int);
                assert(v@.take(v@.len() as int) =~= v@);
            }
            return None;
        }
        r = r + c;
        i = i + 1;
    }
    assert(v@.take(v@.len() as int) =~= v@);
    Some(r)
}

/// How many leading characters of `v` take exactly `n` bytes, if some do.
pub fn find_char_pos(v: &[char], n: usize) -> (r: Option<usize>)
    ensures
        match char_pos(v@, n as int) {
            Some(k) => r matches Some(x) && x as int == k,
            None => r is None,
        },
{
    let mut i: usize = 0;
    let mut rem: usize = n;
    assert(v@.skip(0) =~= v@);
    while i < v.len() && rem > 0
        invariant
            i <= v@.len(),
            char_pos(v@, n as int) == match char_pos(v@.skip(i as int), rem as int) {
                Some(k) => Some(k + i),
                None => None::<int>,
            },
        decreases v@.len() - i,
    {
        let c = crate::text::char_len_utf8(v[i]);
        let ghost t = v@.skip(i as int);
        assert(t.drop_first() =~= v@.skip(i + 1));
        assert(t[0] == v@[i as int]);
        if c > rem {
            assert(char_pos(v@.skip(i + 1), rem - c) is None);
            assert(char_pos(t, rem as int) is None);
            return None;
        }
        rem = rem - c;
        i = i + 1;
    }
    if rem == 0 {
        Some(i)
    } else {
        None
    }
}

/// Whether `v` can be cut to `max` bytes and its length fits in `usize`.
pub fn check_wrap(v: &[char], max: usize) -> (r: bool)
    ensures
        r == (wrap_ok(v@, max as int) && blen(v@) <= usize::MAX),
{
    match checked_blen(v) {
        None => false,
        Some(b) => b <= max || (max > 0 && find_char_pos(v, max).is_some()),
    }
}

/// Whether every cut of wrapping `v` into lines of `max` bytes is possible.
pub fn check_wrap_lines(v: Vec<char>, max: usize) -> (r: bool)
    ensures
        r == wrap_lines_ok(v@, max as int),
{
    let ghost v0 = v@;
    let mut rest = v;
    while rest.len() > 0
        invariant
            v0 == v@,
            wrap_lines_ok(v0, max as int) == wrap_lines_ok(rest@, max as int),
        decreases rest@.len(),
    {
        assert(rest@.len() > 0);
        assert(wrap_lines_ok(rest@, max as int) == (wrap_ok(rest@, max as int) && blen(rest@) <= usize::MAX && {
            let r2 = wrap_split(rest@, max as int).1;
            r2.len() < rest@.len() && wrap_lines_ok(r2, max as int)
        }));
        if !check_wrap(rest.as_slice(), max) {
            return false;
        }
        let (_s1, s2) = split_chars(rest.as_slice(), max);
        if s2.len() >= rest.len() {
            return false;
        }
        rest = s2;
    }
    true
}

} // verus!
