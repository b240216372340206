//! Character-level text model shared by the parsers and formatters of the crate.
//!
//! Strings are reasoned about through their view, a `Seq<char>`; byte lengths are
//! the length of the UTF-8 encoding of that view.
use vstd::prelude::*;
use vstd::string::StrSliceExecFns;
use vstd::utf8::encode_utf8;

verus! {

/// `p` occurs in `s` at position `i`.
pub open spec fn matches_at(s: Seq<char>, p: Seq<char>, i: int) -> bool {
    &&& 0 <= i
    &&& i + p.len() <= s.len()
    &&& s.subrange(i, i + p.len()) == p
}

/// Position of the first occurrence of `p` in `s` (`str::find`).
pub open spec fn find_sub(s: Seq<char>, p: Seq<char>) -> Option<int>
    decreases s.len(),
{
    if p.is_prefix_of(s) {
        Some(0)
    } else if s.len() == 0 {
        None
    } else {
        match find_sub(s.drop_first(), p) {
            Some(i) => Some(i + 1),
            None => None,
        }
    }
}

/// Position of the last occurrence of `p` in `s` (`str::rfind`).
pub open spec fn rfind_sub(s: Seq<char>, p: Seq<char>) -> Option<int>
    decreases s.len(),
{
    if p.is_suffix_of(s) {
        Some(s.len() - p.len())
    } else if s.len() == 0 {
        None
    } else {
        rfind_sub(s.drop_last(), p)
    }
}

/// The pieces of `s` between the occurrences of the non-empty separator `sep`,
/// scanned from the left (`str::split`).
pub open spec fn split_seq(s: Seq<char>, sep: Seq<char>) -> Seq<Seq<char>>
    decreases s.len(),
{
    if sep.len() == 0 {
        seq![s]
    } else {
        match find_sub(s, sep) {
            None => seq![s],
            Some(i) => if 0 <= i && i + sep.len() <= s.len() {
                seq![s.take(i)] + split_seq(s.skip(i + sep.len()), sep)
            } else {
                seq![s]
            },
        }
    }
}

/// The parts glued together with `sep` in between (`[&str]::join`).
pub open spec fn join_seq(parts: Seq<Seq<char>>, sep: Seq<char>) -> Seq<char>
    decreases parts.len(),
{
    if parts.len() == 0 {
        seq![]
    } else if parts.len() == 1 {
        parts[0]
    } else {
        join_seq(parts.drop_last(), sep) + sep + parts.last()
    }
}

/// `(before, after)` around the first occurrence of `sep` (`str::split_once`).
pub open spec fn split_once_seq(s: Seq<char>, sep: Seq<char>) -> Option<(Seq<char>, Seq<char>)> {
    match find_sub(s, sep) {
        Some(i) => Some((s.take(i), s.skip(i + sep.len()))),
        None => None,
    }
}

/// `(before, after)` around the last occurrence of `sep` (`str::rsplit_once`).
pub open spec fn rsplit_once_seq(s: Seq<char>, sep: Seq<char>) -> Option<(Seq<char>, Seq<char>)> {
    match rfind_sub(s, sep) {
        Some(i) => Some((s.take(i), s.skip(i + sep.len()))),
        None => None,
    }
}

/// Length in bytes of the UTF-8 encoding (`str::len`).
pub open spec fn blen(s: Seq<char>) -> nat {
    encode_utf8(s).len()
}

/// Number of bytes of the UTF-8 encoding of one character (`char::len_utf8`).
pub open spec fn char_blen(c: char) -> nat {
    if (c as u32) < 0x80 {
        1
    } else if (c as u32) < 0x800 {
        2
    } else if (c as u32) < 0x10000 {
        3
    } else {
        4
    }
}

/// `s` has no character at the start that `pred` holds of, i.e. trimming gives nothing.
pub open spec fn is_white_space(c: char) -> bool {
    ||| c == '\t' || c == '\n' || c == '\u{0B}' || c == '\u{0C}' || c == '\r'
    ||| c == ' ' || c == '\u{85}' || c == '\u{A0}' || c == '\u{1680}'
    ||| ('\u{2000}' as u32) <= (c as u32) <= ('\u{200A}' as u32)
    ||| c == '\u{2028}' || c == '\u{2029}' || c == '\u{202F}' || c == '\u{205F}'
    ||| c == '\u{3000}'
}

/// Every character of `s` is white space (`s.trim().is_empty()`).
pub open spec fn all_white(s: Seq<char>) -> bool {
    forall|i: int| 0 <= i < s.len() ==> is_white_space(#[trigger] s[i])
}

pub proof fn lemma_find_sub_some(s: Seq<char>, p: Seq<char>, i: int)
    requires
        matches_at(s, p, i),
        forall|j: int| 0 <= j < i ==> !matches_at(s, p, j),
    ensures
        find_sub(s, p) == Some(i),
    decreases s.len(),
{
    if i == 0 {
        assert(s.subrange(0, p.len() as int) =~= p);
    } else {
        assert(!matches_at(s, p, 0));
        if p.is_prefix_of(s) {
            assert(s.subrange(0, p.len() as int) =~= p);
        }
        let t = s.drop_first();
        assert(matches_at(t, p, i - 1)) by {
            assert(t.subrange(i - 1, i - 1 + p.len()) =~= s.subrange(i, i + p.len()));
        }
        assert forall|j: int| 0 <= j < i - 1 implies !matches_at(t, p, j) by {
            if matches_at(t, p, j) {
                assert(t.subrange(j, j + p.len()) =~= s.subrange(j + 1, j + 1 + p.len()));
                assert(matches_at(s, p, j + 1));
            }
        }
        lemma_find_sub_some(t, p, i - 1);
    }
}

pub proof fn lemma_find_sub_none(s: Seq<char>, p: Seq<char>)
    requires
        forall|j: int| 0 <= j && j + p.len() <= s.len() ==> !matches_at(s, p, j),
    ensures
        find_sub(s, p) == None::<int>,
    decreases s.len(),
{
    if p.is_prefix_of(s) {
        assert(matches_at(s, p, 0)) by {
            assert(s.subrange(0, p.len() as int) =~= p);
        }
    }
    if s.len() > 0 {
        let t = s.drop_first();
        assert forall|j: int| 0 <= j && j + p.len() <= t.len() implies !matches_at(t, p, j) by {
            if matches_at(t, p, j) {
                assert(t.subrange(j, j + p.len()) =~= s.subrange(j + 1, j + 1 + p.len()));
                assert(matches_at(s, p, j + 1));
            }
        }
        lemma_find_sub_none(t, p);
    }
}

pub proof fn lemma_rfind_sub_some(s: Seq<char>, p: Seq<char>, i: int)
    requires
        matches_at(s, p, i),
        forall|j: int| i < j && j + p.len() <= s.len() ==> !matches_at(s, p, j),
    ensures
        rfind_sub(s, p) == Some(i),
    decreases s.len(),
{
    if i + p.len() == s.len() {
        assert(s.subrange(s.len() - p.len(), s.len() as int) =~= p);
    } else {
        if p.is_suffix_of(s) {
            assert(s.subrange(s.len() - p.len(), s.len() as int) =~= p);
            assert(matches_at(s, p, s.len() - p.len()));
        }
        let t = s.drop_last();
        assert(matches_at(t, p, i)) by {
            assert(t.subrange(i, i + p.len()) =~= s.subrange(i, i + p.len()));
        }
        assert forall|j: int| i < j && j + p.len() <= t.len() implies !matches_at(t, p, j) by {
            if matches_at(t, p, j) {
                assert(t.subrange(j, j + p.len()) =~= s.subrange(j, j + p.len()));
                assert(matches_at(s, p, j));
            }
        }
        lemma_rfind_sub_some(t, p, i);
    }
}

pub proof fn lemma_rfind_sub_none(s: Seq<char>, p: Seq<char>)
    requires
        forall|j: int| 0 <= j && j + p.len() <= s.len() ==> !matches_at(s, p, j),
    ensures
        rfind_sub(s, p) == None::<int>,
    decreases s.len(),
{
    if p.is_suffix_of(s) {
        assert(matches_at(s, p, s.len() - p.len())) by {
            assert(s.subrange(s.len() - p.len(), s.len() as int) =~= p);
        }
    }
    if s.len() > 0 {
        let t = s.drop_last();
        assert forall|j: int| 0 <= j && j + p.len() <= t.len() implies !matches_at(t, p, j) by {
            if matches_at(t, p, j) {
                assert(t.subrange(j, j + p.len()) =~= s.subrange(j, j + p.len()));
                assert(matches_at(s, p, j));
            }
        }
        lemma_rfind_sub_none(t, p);
    }
}

/// The result of `find_sub` is an occurrence, and none comes earlier.
pub proof fn lemma_find_sub_spec(s: Seq<char>, p: Seq<char>)
    ensures
        match find_sub(s, p) {
            Some(i) => matches_at(s, p, i) && forall|j: int| 0 <= j < i ==> !matches_at(s, p, j),
            None => forall|j: int| 0 <= j && j + p.len() <= s.len() ==> !matches_at(s, p, j),
        },
    decreases s.len(),
{
    if p.is_prefix_of(s) {
        assert(s.subrange(0, p.len() as int) =~= p);
    } else if s.len() == 0 {
        assert forall|j: int| 0 <= j && j + p.len() <= s.len() implies !matches_at(s, p, j) by {
            if matches_at(s, p, j) {
                assert(s.subrange(0, p.len() as int) =~= p);
            }
        }
    } else {
        let t = s.drop_first();
        lemma_find_sub_spec(t, p);
        assert(!matches_at(s, p, 0)) by {
            if matches_at(s, p, 0) {
                assert(s.subrange(0, p.len() as int) =~= p);
            }
        }
        match find_sub(t, p) {
            Some(i) => {
                assert(t.subrange(i, i + p.len()) =~= s.subrange(i + 1, i + 1 + p.len()));
                assert forall|j: int| 0 <= j < i + 1 implies !matches_at(s, p, j) by {
                    if j > 0 && matches_at(s, p, j) {
                        assert(t.subrange(j - 1, j - 1 + p.len()) =~= s.subrange(j, j + p.len()));
                        assert(matches_at(t, p, j - 1));
                    }
                }
            },
            None => {
                assert forall|j: int| 0 <= j && j + p.len() <= s.len() implies !matches_at(s, p, j) by {
                    if j > 0 && matches_at(s, p, j) {
                        assert(t.subrange(j - 1, j - 1 + p.len()) =~= s.subrange(j, j + p.len()));
                        assert(matches_at(t, p, j - 1));
                    }
                }
            },
        }
    }
}

/// The result of `rfind_sub` is an occurrence.
pub proof fn lemma_rfind_sub_some_bounds(s: Seq<char>, p: Seq<char>)
    ensures
        rfind_sub(s, p) matches Some(i) ==> matches_at(s, p, i),
    decreases s.len(),
{
    if p.is_suffix_of(s) {
        assert(s.subrange(s.len() - p.len(), s.len() as int) =~= p);
    } else if s.len() > 0 {
        lemma_rfind_sub_some_bounds(s.drop_last(), p);
        if let Some(i) = rfind_sub(s.drop_last(), p) {
            assert(s.drop_last().subrange(i, i + p.len()) =~= s.subrange(i, i + p.len()));
        }
    }
}

/// Splitting gives at least one piece.
pub proof fn lemma_split_nonempty(s: Seq<char>, sep: Seq<char>)
    ensures
        split_seq(s, sep).len() >= 1,
{
}

/// Byte length of a concatenation is the sum of the byte lengths.
pub proof fn lemma_blen_add(a: Seq<char>, b: Seq<char>)
    ensures
        blen(a + b) == blen(a) + blen(b),
    decreases a.len(),
{
    if a.len() == 0 {
        assert(a + b =~= b);
    } else {
        assert((a + b).drop_first() =~= a.drop_first() + b);
        lemma_blen_add(a.drop_first(), b);
    }
}

/// Byte length of one character.
pub proof fn lemma_blen_char(c: char)
    ensures
        blen(seq![c]) == char_blen(c),
{
    broadcast use vstd::utf8::char_is_scalar;
    assert(seq![c].drop_first() =~= Seq::<char>::empty());
    assert(vstd::utf8::is_scalar(c as u32));
    assert(encode_utf8(Seq::<char>::empty()) =~= Seq::<u8>::empty());
    assert(encode_utf8(seq![c]) =~= vstd::utf8::encode_scalar(c as u32));
}

/// Byte length of a prefix extended by one character.
pub proof fn lemma_blen_take(s: Seq<char>, i: int)
    requires
        0 <= i < s.len(),
    ensures
        blen(s.take(i + 1)) == blen(s.take(i)) + char_blen(s[i]),
{
    assert(s.take(i + 1) =~= s.take(i) + seq![s[i]]);
    lemma_blen_add(s.take(i), seq![s[i]]);
    lemma_blen_char(s[i]);
}

/// Byte length grows with the prefix.
pub proof fn lemma_blen_take_mono(s: Seq<char>, i: int, j: int)
    requires
        0 <= i <= j <= s.len(),
    ensures
        blen(s.take(i)) <= blen(s.take(j)),
        i < j ==> blen(s.take(i)) < blen(s.take(j)),
    decreases j - i,
{
    if i < j {
        lemma_blen_take(s, j - 1);
        lemma_blen_take_mono(s, i, j - 1);
    }
}

/// `c` does not occur in `s`.
pub open spec fn free_of(s: Seq<char>, c: char) -> bool {
    forall|i: int| 0 <= i < s.len() ==> s[i] != c
}

/// A join can be unfolded from the left.
pub proof fn lemma_join_first(parts: Seq<Seq<char>>, sep: Seq<char>)
    requires
        parts.len() >= 2,
    ensures
        join_seq(parts, sep) == parts[0] + sep + join_seq(parts.drop_first(), sep),
    decreases parts.len(),
{
    if parts.len() == 2 {
        assert(parts.drop_last() =~= seq![parts[0]]);
        assert(parts.drop_first() =~= seq![parts[1]]);
        assert(join_seq(parts.drop_last(), sep) == parts[0]);
        assert(join_seq(parts.drop_first(), sep) == parts[1]);
    } else {
        let d = parts.drop_last();
        let f = parts.drop_first();
        lemma_join_first(d, sep);
        assert(d.drop_first() =~= f.drop_last());
        assert(f.last() == parts.last());
        assert(d[0] == parts[0]);
        assert(join_seq(parts, sep) == join_seq(d, sep) + sep + parts.last());
        assert(join_seq(f, sep) == join_seq(f.drop_last(), sep) + sep + f.last());
        assert(join_seq(parts, sep) =~= parts[0] + sep + join_seq(f, sep));
    }
}

/// A join starts with the first part.
pub proof fn lemma_join_first_char(parts: Seq<Seq<char>>, sep: Seq<char>)
    requires
        parts.len() >= 1,
        parts[0].len() > 0,
    ensures
        join_seq(parts, sep).len() > 0,
        join_seq(parts, sep)[0] == parts[0][0],
{
    if parts.len() >= 2 {
        lemma_join_first(parts, sep);
    }
}

/// Splitting a text that does not hold the separator gives the text alone.
pub proof fn lemma_split_free(s: Seq<char>, c: char)
    requires
        free_of(s, c),
    ensures
        split_seq(s, seq![c]) == seq![s],
{
    assert forall|j: int| 0 <= j && j + 1 <= s.len() implies !matches_at(s, seq![c], j) by {
        if matches_at(s, seq![c], j) {
            assert(s.subrange(j, j + 1)[0] == s[j]);
        }
    }
    lemma_find_sub_none(s, seq![c]);
}

/// Splitting `a c rest`, where `a` does not hold `c`, gives `a` then the pieces of `rest`.
pub proof fn lemma_split_step(a: Seq<char>, c: char, rest: Seq<char>)
    requires
        free_of(a, c),
    ensures
        split_seq(a + seq![c] + rest, seq![c]) == seq![a] + split_seq(rest, seq![c]),
{
    let s = a + seq![c] + rest;
    assert(matches_at(s, seq![c], a.len() as int)) by {
        assert(s.subrange(a.len() as int, a.len() + 1int) =~= seq![c]);
    }
    assert forall|j: int| 0 <= j < a.len() implies !matches_at(s, seq![c], j) by {
        if matches_at(s, seq![c], j) {
            assert(s.subrange(j, j + 1)[0] == s[j]);
            assert(s[j] == a[j]);
        }
    }
    lemma_find_sub_some(s, seq![c], a.len() as int);
    assert(s.take(a.len() as int) =~= a);
    assert(s.skip(a.len() + 1int) =~= rest);
}

/// Splitting undoes joining when no part holds the separator.
pub proof fn lemma_split_join(parts: Seq<Seq<char>>, c: char)
    requires
        parts.len() >= 1,
        forall|i: int| 0 <= i < parts.len() ==> free_of(#[trigger] parts[i], c),
    ensures
        split_seq(join_seq(parts, seq![c]), seq![c]) == parts,
    decreases parts.len(),
{
    if parts.len() == 1 {
        assert(free_of(parts[0], c));
        lemma_split_free(parts[0], c);
        assert(seq![parts[0]] =~= parts);
    } else {
        lemma_join_first(parts, seq![c]);
        let rest = parts.drop_first();
        assert forall|i: int| 0 <= i < rest.len() implies free_of(#[trigger] rest[i], c) by {
            assert(rest[i] == parts[i + 1]);
        }
        lemma_split_join(rest, c);
        assert(free_of(parts[0], c));
        lemma_split_step(parts[0], c, join_seq(rest, seq![c]));
        assert(seq![parts[0]] + rest =~= parts);
    }
}

/// The characters of a string slice, in order.
pub fn to_chars(s: &str) -> (r: Vec<char>)
    ensures
        r@ == s@,
{
    let n = s.unicode_len();
    let mut r: Vec<char> = Vec::new();
    let mut i: usize = 0;
    while i < n
        invariant
            n == s@.len(),
            i <= n,
            r@ == s@.take(i as int),
        decreases n - i,
    {
        let c = s.get_char(i);
        r.push(c);
        i = i + 1;
        assert(r@ =~= s@.take(i as int));
    }
    assert(r@ =~= s@);
    r
}

/// Builds a `String` out of characters (`FromIterator<char> for String`).
#[verifier::external_body]
pub fn from_chars(v: &[char]) -> (r: String)
    ensures
        r@ == v@,
{
    v.iter().collect()
}

/// A fresh copy of the characters `v[start..end]`.
pub fn sub_chars(v: &[char], start: usize, end: usize) -> (r: Vec<char>)
    requires
        start <= end <= v@.len(),
    ensures
        r@ == v@.subrange(start as int, end as int),
{
    let mut r: Vec<char> = Vec::new();
    let mut i = start;
    while i < end
        invariant
            start <= i <= end <= v@.len(),
            r@ == v@.subrange(start as int, i as int),
        decreases end - i,
    {
        r.push(v[i]);
        i = i + 1;
        assert(r@ =~= v@.subrange(start as int, i as int));
    }
    r
}

/// The string for the characters `v[start..end]`.
pub fn sub_string(v: &[char], start: usize, end: usize) -> (r: String)
    requires
        start <= end <= v@.len(),
    ensures
        r@ == v@.subrange(start as int, end as int),
{
    let c = sub_chars(v, start, end);
    from_chars(c.as_slice())
}

/// Appends the characters `s` to `v`.
pub fn push_all(v: &mut Vec<char>, s: &[char])
    ensures
        final(v)@ == old(v)@ + s@,
{
    let mut k: usize = 0;
    while k < s.len()
        invariant
            k <= s@.len(),
            v@ == old(v)@ + s@.take(k as int),
        decreases s@.len() - k,
    {
        v.push(s[k]);
        k = k + 1;
        assert(v@ =~= old(v)@ + s@.take(k as int));
    }
    assert(s@.take(s@.len() as int) =~= s@);
}

/// Appends the characters of the string slice `s` to `v`.
pub fn push_str(v: &mut Vec<char>, s: &str)
    ensures
        final(v)@ == old(v)@ + s@,
{
    let c = to_chars(s);
    push_all(v, c.as_slice());
}

/// Character sequence equality.
pub fn chars_eq(a: &[char], b: &[char]) -> (r: bool)
    ensures
        r == (a@ == b@),
{
    if a.len() != b.len() {
        return false;
    }
    let mut i: usize = 0;
    while i < a.len()
        invariant
            a@.len() == b@.len(),
            i <= a@.len(),
            forall|j: int| 0 <= j < i ==> a@[j] == b@[j],
        decreases a@.len() - i,
    {
        if a[i] != b[i] {
            return false;
        }
        i = i + 1;
    }
    assert(a@ =~= b@);
    true
}

/// Equality of a string slice with a character sequence.
pub fn str_eq(a: &str, b: &str) -> (r: bool)
    ensures
        r == (a@ == b@),
{
    let x = to_chars(a);
    let y = to_chars(b);
    chars_eq(x.as_slice(), y.as_slice())
}

/// `p` occurs in `s` at position `i`.
pub fn matches_at_exec(s: &[char], p: &[char], i: usize) -> (r: bool)
    ensures
        r == matches_at(s@, p@, i as int),
{
    if i > s.len() || p.len() > s.len() - i {
        return false;
    }
    let mut k: usize = 0;
    while k < p.len()
        invariant
            i + p@.len() <= s@.len(),
            s@.len() <= usize::MAX,
            k <= p@.len(),
            forall|j: int| 0 <= j < k ==> s@[i + j] == p@[j],
        decreases p@.len() - k,
    {
        if s[i + k] != p[k] {
            assert(s@.subrange(i as int, i + p@.len())[k as int] != p@[k as int]);
            return false;
        }
        k = k + 1;
    }
    assert(s@.subrange(i as int, i + p@.len()) =~= p@);
    true
}

/// `p` is a prefix of `s` (`str::starts_with`).
pub fn starts_with(s: &[char], p: &[char]) -> (r: bool)
    ensures
        r == p@.is_prefix_of(s@),
{
    let r = matches_at_exec(s, p, 0);
    proof {
        if r {
            assert(s@.subrange(0, p@.len() as int) == p@);
        }
        if p@.is_prefix_of(s@) {
            assert(s@.subrange(0, p@.len() as int) =~= p@);
        }
    }
    r
}

/// `p` is a suffix of `s` (`str::ends_with`).
pub fn ends_with(s: &[char], p: &[char]) -> (r: bool)
    ensures
        r == p@.is_suffix_of(s@),
{
    if p.len() > s.len() {
        return false;
    }
    let r = matches_at_exec(s, p, s.len() - p.len());
    proof {
        if p@.is_suffix_of(s@) {
            assert(s@.subrange(s@.len() - p@.len(), s@.len() as int) =~= p@);
        }
    }
    r
}

/// The first occurrence of `p` in `s` (`str::find`).
pub fn find(s: &[char], p: &[char]) -> (r: Option<usize>)
    ensures
        match r {
            Some(i) => find_sub(s@, p@) == Some(i as int),
            None => find_sub(s@, p@) == None::<int>,
        },
{
    if p.len() > s.len() {
        proof {
            lemma_find_sub_none(s@, p@);
        }
        return None;
    }
    if p.len() == 0 {
        return Some(0);
    }
    let last = s.len() - p.len();
    let mut i: usize = 0;
    while i <= last
        invariant
            last + p@.len() == s@.len(),
            p@.len() > 0,
            s@.len() <= usize::MAX,
            i <= last + 1,
            forall|j: int| 0 <= j < i ==> !matches_at(s@, p@, j),
        decreases last + 1 - i,
    {
        if matches_at_exec(s, p, i) {
            proof {
                lemma_find_sub_some(s@, p@, i as int);
            }
            return Some(i);
        }
        i = i + 1;
    }
    proof {
        lemma_find_sub_none(s@, p@);
    }
    None
}

/// The last occurrence of `p` in `s` (`str::rfind`).
pub fn rfind(s: &[char], p: &[char]) -> (r: Option<usize>)
    ensures
        match r {
            Some(i) => rfind_sub(s@, p@) == Some(i as int),
            None => rfind_sub(s@, p@) == None::<int>,
        },
{
    if p.len() > s.len() {
        proof {
            lemma_rfind_sub_none(s@, p@);
        }
        return None;
    }
    if p.len() == 0 {
        assert(s@.subrange(s@.len() as int, s@.len() as int) =~= p@);
        return Some(s.len());
    }
    let mut i: usize = s.len() - p.len() + 1;
    while i > 0
        invariant
            i + p@.len() <= s@.len() + 1,
            forall|j: int| i <= j && j + p@.len() <= s@.len() ==> !matches_at(s@, p@, j),
        decreases i,
    {
        if matches_at_exec(s, p, i - 1) {
            proof {
                lemma_rfind_sub_some(s@, p@, i - 1);
            }
            return Some(i - 1);
        }
        i = i - 1;
    }
    proof {
        lemma_rfind_sub_none(s@, p@);
    }
    None
}

/// The first occurrence of the character `c` in `s`.
pub fn find_char(s: &[char], c: char) -> (r: Option<usize>)
    ensures
        match r {
            Some(i) => find_sub(s@, seq![c]) == Some(i as int),
            None => find_sub(s@, seq![c]) == None::<int>,
        },
{
    let p = vec![c];
    assert(p@ =~= seq![c]);
    find(s, p.as_slice())
}

/// Splits `s` on every occurrence of the non-empty `sep` (`str::split`).
pub fn split(s: &[char], sep: &[char]) -> (r: Vec<Vec<char>>)
    requires
        sep@.len() > 0,
    ensures
        r.deep_view() == split_seq(s@, sep@),
{
    let mut r: Vec<Vec<char>> = Vec::new();
    let mut rest = sub_chars(s, 0, s.len());
    assert(rest@ =~= s@);
    loop
        invariant
            sep@.len() > 0,
            r.deep_view() + split_seq(rest@, sep@) == split_seq(s@, sep@),
        decreases rest@.len(),
    {
        let f = find(rest.as_slice(), sep);
        match f {
            None => {
                let ghost old_r = r.deep_view();
                assert(rest.deep_view() =~= rest@);
                r.push(rest);
                assert(r.deep_view() =~= old_r + split_seq(rest@, sep@));
                return r;
            },
            Some(i) => {
                proof {
                    lemma_find_sub_spec(rest@, sep@);
                }
                assert(matches_at(rest@, sep@, i as int));
                assert(i + sep@.len() <= rest@.len());
                let end = i + sep.len();
                let piece = sub_chars(rest.as_slice(), 0, i);
                let next = sub_chars(rest.as_slice(), end, rest.len());
                let ghost old_r = r.deep_view();
                let ghost old_rest = rest@;
                assert(split_seq(old_rest, sep@) == seq![old_rest.take(i as int)] + split_seq(
                    old_rest.skip(i + sep@.len()),
                    sep@,
                ));
                assert(piece@ =~= old_rest.take(i as int));
                assert(piece.deep_view() =~= piece@);
                r.push(piece);
                assert(next@ =~= old_rest.skip(i + sep@.len()));
                assert(r.deep_view() =~= old_r + seq![old_rest.take(i as int)]);
                rest = next;
                assert(r.deep_view() + split_seq(rest@, sep@) =~= old_r + split_seq(
                    old_rest,
                    sep@,
                ));
            },
        }
    }
}

/// Splits `s` on every occurrence of the character `c` (`str::split(char)`).
pub fn split_char(s: &[char], c: char) -> (r: Vec<Vec<char>>)
    ensures
        r.deep_view() == split_seq(s@, seq![c]),
{
    let p = vec![c];
    assert(p@ =~= seq![c]);
    split(s, p.as_slice())
}

/// Glues `parts` with `sep` in between (`[&str]::join`).
pub fn join(parts: &Vec<Vec<char>>, sep: &[char]) -> (r: Vec<char>)
    ensures
        r@ == join_seq(parts.deep_view(), sep@),
{
    let mut r: Vec<char> = Vec::new();
    let mut i: usize = 0;
    let ghost dv = parts.deep_view();
    while i < parts.len()
        invariant
            dv == parts.deep_view(),
            dv.len() == parts@.len(),
            i <= parts@.len(),
            r@ == join_seq(dv.take(i as int), sep@),
        decreases parts@.len() - i,
    {
        let ghost old_r = r@;
        if i > 0 {
            let mut k: usize = 0;
            while k < sep.len()
                invariant
                    k <= sep@.len(),
                    r@ == old_r + sep@.take(k as int),
                decreases sep@.len() - k,
            {
                r.push(sep[k]);
                k = k + 1;
                assert(r@ =~= old_r + sep@.take(k as int));
            }
        }
        let ghost mid = r@;
        let part = &parts[i];
        let mut k: usize = 0;
        while k < part.len()
            invariant
                k <= part@.len(),
                r@ == mid + part@.take(k as int),
            decreases part@.len() - k,
        {
            r.push(part[k]);
            k = k + 1;
            assert(r@ =~= mid + part@.take(k as int));
        }
        assert(dv.take(i + 1).drop_last() =~= dv.take(i as int));
        assert(dv[i as int] == part@);
        if i == 0 {
            assert(r@ =~= join_seq(dv.take(1), sep@));
        } else {
            assert(r@ =~= join_seq(dv.take(i + 1), sep@));
        }
        i = i + 1;
    }
    assert(dv.take(parts@.len() as int) =~= dv);
    r
}

/// Byte length of one character (`char::len_utf8`).
pub fn char_len_utf8(c: char) -> (r: usize)
    ensures
        r == char_blen(c),
{
    let u = c as u32;
    if u < 0x80 {
        1
    } else if u < 0x800 {
        2
    } else if u < 0x10000 {
        3
    } else {
        4
    }
}

/// Byte length of the characters `v[..k]`.
pub fn blen_prefix(v: &[char], k: usize) -> (r: usize)
    requires
        k <= v@.len(),
        blen(v@) <= usize::MAX,
    ensures
        r == blen(v@.take(k as int)),
{
    let mut r: usize = 0;
    let mut i: usize = 0;
    while i < k
        invariant
            k <= v@.len(),
            blen(v@) <= usize::MAX,
            i <= k,
            r == blen(v@.take(i as int)),
        decreases k - i,
    {
        proof {
            lemma_blen_take(v@, i as int);
            lemma_blen_take_mono(v@, i + 1, v@.len() as int);
            assert(v@.take(v@.len() as int) =~= v@);
        }
        r = r + char_len_utf8(v[i]);
        i = i + 1;
    }
    r
}

/// Every character is white space (`str::trim(..).is_empty()`).
pub fn is_blank(v: &[char]) -> (r: bool)
    ensures
        r == all_white(v@),
{
    let mut i: usize = 0;
    while i < v.len()
        invariant
            i <= v@.len(),
            forall|j: int| 0 <= j < i ==> is_white_space(#[trigger] v@[j]),
        decreases v@.len() - i,
    {
        if !is_white_space_exec(v[i]) {
            return false;
        }
        i = i + 1;
    }
    true
}

/// Unicode `White_Space` property (`char::is_whitespace`).
pub fn is_white_space_exec(c: char) -> (r: bool)
    ensures
        r == is_white_space(c),
{
    let u = c as u32;
    c == '\t' || c == '\n' || c == '\u{0B}' || c == '\u{0C}' || c == '\r' || c == ' ' || c
        == '\u{85}' || c == '\u{A0}' || c == '\u{1680}' || (0x2000 <= u && u <= 0x200A) || c
        == '\u{2028}' || c == '\u{2029}' || c == '\u{202F}' || c == '\u{205F}' || c == '\u{3000}'
}

/// `s` without the white space at its start.
pub open spec fn trim_start(s: Seq<char>) -> Seq<char>
    decreases s.len(),
{
    if s.len() > 0 && is_white_space(s[0]) {
        trim_start(s.drop_first())
    } else {
        s
    }
}

/// `s` without the white space at its end.
pub open spec fn trim_end(s: Seq<char>) -> Seq<char>
    decreases s.len(),
{
    if s.len() > 0 && is_white_space(s.last()) {
        trim_end(s.drop_last())
    } else {
        s
    }
}

/// `s` without white space at either end (`str::trim`).
pub open spec fn trimmed(s: Seq<char>) -> Seq<char> {
    trim_end(trim_start(s))
}

pub fn trim(s: &str) -> (r: String)
    ensures
        r@ == trimmed(s@),
{
    let v = to_chars(s);
    let mut i: usize = 0;
    assert(v@.skip(0) =~= v@);
    while i < v.len() && is_white_space_exec(v[i])
        invariant
            v@ == s@,
            i <= v@.len(),
            trim_start(s@) == trim_start(v@.skip(i as int)),
        decreases v@.len() - i,
    {
        assert(v@.skip(i as int).drop_first() =~= v@.skip(i + 1));
        i = i + 1;
    }
    let ghost st = v@.skip(i as int);
    assert(trim_start(s@) == st);
    let mut j: usize = v.len();
    assert(st.take(st.len() as int) =~= st);
    while j > i && is_white_space_exec(v[j - 1])
        invariant
            v@ == s@,
            i <= j <= v@.len(),
            st == v@.skip(i as int),
            trim_end(st) == trim_end(st.take(j - i)),
        decreases j,
    {
        assert(st.take(j - i).drop_last() =~= st.take(j - i - 1));
        assert(st.take(j - i).last() == v@[j - 1]);
        j = j - 1;
    }
    proof {
        if j > i {
            assert(st.take(j - i).last() == v@[j - 1]);
        }
    }
    let r = sub_string(v.as_slice(), i, j);
    assert(r@ =~= st.take(j - i));
    r
}

/// Glues the strings `parts` with `sep` in between (`[String]::join`).
pub fn join_strings(parts: &Vec<String>, sep: &str) -> (r: String)
    ensures
        r@ == join_seq(parts.deep_view(), sep@),
{
    let ghost pv = parts.deep_view();
    let mut v: Vec<char> = Vec::new();
    let mut i: usize = 0;
    while i < parts.len()
        invariant
            i <= parts@.len(),
            pv == parts.deep_view(),
            v@ == join_seq(pv.take(i as int), sep@),
        decreases parts@.len() - i,
    {
        if i > 0 {
            push_str(&mut v, sep);
        }
        push_str(&mut v, parts[i].as_str());
        proof {
            let t = pv.take(i + 1);
            assert(t.drop_last() =~= pv.take(i as int));
            assert(t.last() == parts@[i as int]@);
            if i == 0 {
                assert(pv.take(0) =~= Seq::<Seq<char>>::empty());
            }
            assert(v@ =~= join_seq(t, sep@));
        }
        i = i + 1;
    }
    assert(pv.take(parts@.len() as int) =~= pv);
    from_chars(v.as_slice())
}

} // verus!
