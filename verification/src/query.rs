//! Queries that pick scripts: by fuzzy name, by exact name (`=name`), by recency
//! (`^N`), by wildcard pattern, and ranges of history entries (`a..b`).
use crate::error::{DisplayError, DisplayResult, Error, FormatCode, Parsed, Result};
use crate::num::{decimal, decimal_chars, parse_u64, parse_usize, spec_parse_nat};
use crate::script::{agrees_err, name_key, spec_into_name, spec_valid_name, NameV, ScriptName};
use crate::script_type::is_format_err;
use crate::text::{
    find, find_sub, from_chars, lemma_find_sub_spec, push_all, push_str, split_once_seq,
    sub_chars, sub_string, to_chars,
};
use vstd::prelude::*;

verus! {

/// What a query looks for.
#[derive(Debug, Clone)]
pub enum ScriptQueryInner {
    Fuzz(String),
    Exact(ScriptName),
    Prev(usize),
}

/// View of a query's target: `(kind, text, name, n)` where kind 0 is fuzzy search
/// for `text`, 1 is the exact `name`, 2 is the `n`-th latest script.
pub type QueryInnerV = (nat, Seq<char>, NameV, usize);

impl View for ScriptQueryInner {
    type V = QueryInnerV;

    open spec fn view(&self) -> QueryInnerV {
        match self {
            ScriptQueryInner::Fuzz(s) => (0, s@, Ok(0), 0),
            ScriptQueryInner::Exact(n) => (1, Seq::empty(), n@, 0),
            ScriptQueryInner::Prev(p) => (2, Seq::empty(), Ok(0), *p),
        }
    }
}

pub open spec fn fuzz_v(s: Seq<char>) -> QueryInnerV {
    (0, s, Ok(0), 0)
}

pub open spec fn exact_v(n: NameV) -> QueryInnerV {
    (1, Seq::empty(), n, 0)
}

pub open spec fn prev_v(p: usize) -> QueryInnerV {
    (2, Seq::empty(), Ok(0), p)
}

/// A query for one script; with `bang` hidden scripts are searched too.
#[derive(Debug, Clone)]
pub struct ScriptQuery {
    pub inner: ScriptQueryInner,
    pub bang: bool,
}

impl View for ScriptQuery {
    type V = (QueryInnerV, bool);

    open spec fn view(&self) -> (QueryInnerV, bool) {
        (self.inner@, self.bang)
    }
}

/// Every character is `^`.
pub open spec fn all_carets(s: Seq<char>) -> bool {
    forall|i: int| 0 <= i < s.len() ==> s[i] == '^'
}

/// How `^...` is read: `^^^` is the third latest, `^3` too; zero is refused.
pub open spec fn spec_parse_prev(s: Seq<char>) -> Parsed<usize> {
    if all_carets(s) {
        Ok(s.len() as usize)
    } else {
        match spec_parse_nat(s.skip(1), usize::MAX as nat) {
            Some(n) => if n == 0 {
                Err((FormatCode::ScriptQuery, s))
            } else {
                Ok(n as usize)
            },
            None => Err((FormatCode::ScriptQuery, s)),
        }
    }
}

/// How a query text (after the trailing `!` is taken off) is read.
pub open spec fn spec_query_body(s: Seq<char>) -> Parsed<QueryInnerV> {
    if s.len() > 0 && s[0] == '=' {
        match spec_into_name(s.skip(1), true) {
            Ok(n) => Ok(exact_v(n)),
            Err(e) => Err(e),
        }
    } else if s == seq!['-'] {
        Ok(prev_v(1))
    } else if s.len() > 0 && s[0] == '^' {
        match spec_parse_prev(s) {
            Ok(p) => Ok(prev_v(p)),
            Err(e) => Err(e),
        }
    } else {
        match spec_valid_name(s, true, true, true) {
            Ok(_) => Ok(fuzz_v(s)),
            Err(e) => Err(e),
        }
    }
}

/// How `ScriptQuery::from_str` reads `s`: a trailing `!` sets `bang`, and a lone `!`
/// is the latest script with `bang`.
pub open spec fn spec_script_query(s: Seq<char>) -> Parsed<(QueryInnerV, bool)> {
    if s.len() > 0 && s.last() == '!' {
        if s == seq!['!'] {
            Ok((prev_v(1), true))
        } else {
            match spec_query_body(s.drop_last()) {
                Ok(q) => Ok((q, true)),
                Err(e) => Err(e),
            }
        }
    } else {
        match spec_query_body(s) {
            Ok(q) => Ok((q, false)),
            Err(e) => Err(e),
        }
    }
}

/// Text of a query.
pub open spec fn query_text(q: (QueryInnerV, bool)) -> Seq<char> {
    let body = if q.0.0 == 0 {
        q.0.1
    } else if q.0.0 == 1 {
        seq!['='] + name_key(q.0.2)
    } else {
        seq!['^'] + decimal(q.0.3 as nat)
    };
    if q.1 {
        body + seq!['!']
    } else {
        body
    }
}

fn all_carets_exec(v: &[char]) -> (r: bool)
    ensures
        r == all_carets(v@),
{
    let mut i: usize = 0;
    while i < v.len()
        invariant
            i <= v@.len(),
            forall|j: int| 0 <= j < i ==> v@[j] == '^',
        decreases v@.len() - i,
    {
        if v[i] != '^' {
            return false;
        }
        i = i + 1;
    }
    true
}

/// Reads `^^^` or `^N` (the text starts with `^`).
fn parse_prev(v: &[char]) -> (r: Result<usize>)
    requires
        v@.len() > 0,
    ensures
        agrees_err(r, spec_parse_prev(v@)),
{
    if all_carets_exec(v) {
        return Ok(v.len());
    }
    let rest = sub_chars(v, 1, v.len());
    assert(rest@ =~= v@.skip(1));
    match parse_usize(rest.as_slice()) {
        Some(n) => {
            if n == 0 {
                FormatCode::ScriptQuery.to_res(from_chars(v))
            } else {
                Ok(n)
            }
        },
        None => FormatCode::ScriptQuery.to_res(from_chars(v)),
    }
}

fn parse_query_body(v: &[char]) -> (r: Result<ScriptQueryInner>)
    ensures
        match r {
            Ok(q) => spec_query_body(v@) == Ok::<QueryInnerV, (FormatCode, Seq<char>)>(q@),
            Err(e) => spec_query_body(v@) matches Err((c, t)) && is_format_err(e, c, t),
        },
{
    if v.len() > 0 && v[0] == '=' {
        let rest = sub_string(v, 1, v.len());
        assert(rest@ =~= v@.skip(1));
        let name = crate::script::string_into_script_name(rest, true)?;
        Ok(ScriptQueryInner::Exact(name))
    } else if v.len() == 1 && v[0] == '-' {
        assert(v@ =~= seq!['-']);
        Ok(ScriptQueryInner::Prev(1))
    } else if v.len() > 0 && v[0] == '^' {
        assert(v@ != seq!['-']);
        let p = parse_prev(v)?;
        Ok(ScriptQueryInner::Prev(p))
    } else {
        assert(v@ != seq!['-']) by {
            if v@ == seq!['-'] {
                assert(v@.len() == 1 && v@[0] == '-');
            }
        }
        let s = from_chars(v);
        ScriptName::valid(s.as_str(), true, true, true)?;
        Ok(ScriptQueryInner::Fuzz(s))
    }
}

impl ScriptQuery {
    /// Reads a query.
    pub fn from_str(s: &str) -> (r: Result<ScriptQuery>)
        ensures
            match r {
                Ok(q) => spec_script_query(s@) == Ok::<(QueryInnerV, bool), (FormatCode, Seq<char>)>(q@),
                Err(e) => spec_script_query(s@) matches Err((c, t)) && is_format_err(e, c, t),
            },
    {
        let v = to_chars(s);
        if v.len() > 0 && v[v.len() - 1] == '!' {
            if v.len() == 1 {
                assert(s@ =~= seq!['!']);
                return Ok(ScriptQuery { inner: ScriptQueryInner::Prev(1), bang: true });
            }
            assert(s@ != seq!['!']);
            let body = sub_chars(v.as_slice(), 0, v.len() - 1);
            assert(body@ =~= s@.drop_last());
            let inner = parse_query_body(body.as_slice())?;
            Ok(ScriptQuery { inner, bang: true })
        } else {
            let inner = parse_query_body(v.as_slice())?;
            Ok(ScriptQuery { inner, bang: false })
        }
    }

    /// The text of the query.
    pub fn to_string(&self) -> (r: String)
        ensures
            r@ == query_text(self@),
    {
        let mut v: Vec<char> = Vec::new();
        match &self.inner {
            ScriptQueryInner::Fuzz(f) => {
                push_str(&mut v, f.as_str());
            },
            ScriptQueryInner::Exact(e) => {
                v.push('=');
                let k = e.key();
                push_str(&mut v, k.as_str());
            },
            ScriptQueryInner::Prev(p) => {
                v.push('^');
                let d = decimal_chars(*p as u64);
                push_all(&mut v, d.as_slice());
            },
        }
        if self.bang {
            v.push('!');
        }
        assert(v@ =~= query_text(self@));
        from_chars(v.as_slice())
    }

    /// The script name the query spells out: the fuzzy text read as a name, or the
    /// exact name. A recency query has no name.
    pub fn into_script_name(self) -> (r: Result<ScriptName>)
        requires
            self@.0.0 != 2,
        ensures
            self@.0.0 == 1 ==> (r matches Ok(n) && n@ == self@.0.2),
            self@.0.0 == 0 ==> match r {
                Ok(n) => spec_into_name(self@.0.1, true) == Ok::<NameV, (FormatCode, Seq<char>)>(n@),
                Err(e) => spec_into_name(self@.0.1, true) matches Err((c, t)) && is_format_err(e, c, t),
            },
    {
        match self.inner {
            ScriptQueryInner::Fuzz(s) => crate::script::string_into_script_name(s, true),
            ScriptQueryInner::Exact(name) => Ok(name),
            ScriptQueryInner::Prev(_) => Err(Error::Empty),
        }
    }
}

/// A query of the `edit` command: a new anonymous script (`.`), or a script.
#[derive(Debug, Clone)]
pub enum EditQuery {
    NewAnonimous,
    Query(ScriptQuery),
}

impl EditQuery {
    /// By default the latest script is edited.
    pub fn default() -> (r: EditQuery)
        ensures
            r matches EditQuery::Query(q) && q@ == (prev_v(1), false),
    {
        EditQuery::Query(ScriptQuery { inner: ScriptQueryInner::Prev(1), bang: false })
    }

    pub fn from_str(s: &str) -> (r: Result<EditQuery>)
        ensures
            s@ == seq!['.'] ==> r matches Ok(EditQuery::NewAnonimous),
            s@ != seq!['.'] ==> match r {
                Ok(EditQuery::Query(q)) => spec_script_query(s@) == Ok::<(QueryInnerV, bool), (FormatCode, Seq<char>)>(q@),
                Ok(EditQuery::NewAnonimous) => false,
                Err(e) => spec_script_query(s@) matches Err((c, t)) && is_format_err(e, c, t),
            },
    {
        let v = to_chars(s);
        if v.len() == 1 && v[0] == '.' {
            assert(s@ =~= seq!['.']);
            return Ok(EditQuery::NewAnonimous);
        }
        assert(s@ != seq!['.']) by {
            if s@ == seq!['.'] {
                assert(v@.len() == 1);
            }
        }
        let q = ScriptQuery::from_str(s)?;
        Ok(EditQuery::Query(q))
    }
}

/// A range of history entries: from `min` (at least 1) up to `max`, exclusive, or
/// without end.
#[derive(Debug, Clone, Copy)]
pub struct RangeQuery {
    min: u64,
    max: Option<u64>,
}

impl View for RangeQuery {
    type V = (u64, Option<u64>);

    closed spec fn view(&self) -> (u64, Option<u64>) {
        (self.min, self.max)
    }
}

/// A range is well formed: `min` is positive and `max`, when given, exceeds it.
pub open spec fn range_ok(q: (u64, Option<u64>)) -> bool {
    q.0 >= 1 && (q.1 matches Some(m) ==> m > q.0)
}

/// A positive integer, as `NonZeroU64::from_str` reads it.
pub open spec fn spec_positive(s: Seq<char>) -> Option<u64> {
    match spec_parse_nat(s, u64::MAX as nat) {
        Some(n) => if n == 0 {
            None
        } else {
            Some(n as u64)
        },
        None => None,
    }
}

pub open spec fn dots() -> Seq<char> {
    seq!['.', '.']
}

/// How `RangeQuery::from_str` reads `s`: `a..b`, `a..`, `..b`, or `n` for the single
/// entry `n..n+1`. Bounds are positive; the upper one must exceed the lower one.
pub open spec fn spec_range(s: Seq<char>) -> Parsed<(u64, Option<u64>)> {
    match split_once_seq(s, dots()) {
        Some((first, second)) => if first.len() == 0 && second.len() == 0 {
            Err((FormatCode::RangeQuery, s))
        } else {
            let min = if first.len() == 0 {
                Some(1u64)
            } else {
                spec_positive(first)
            };
            match min {
                None => Err((FormatCode::RangeQuery, first)),
                Some(lo) => if second.len() == 0 {
                    Ok((lo, None))
                } else {
                    match spec_positive(second) {
                        None => Err((FormatCode::RangeQuery, second)),
                        Some(hi) => if hi <= lo {
                            Err((FormatCode::RangeQuery, s))
                        } else {
                            Ok((lo, Some(hi)))
                        },
                    }
                },
            }
        },
        None => match spec_positive(s) {
            None => Err((FormatCode::RangeQuery, s)),
            Some(n) => Ok((n, Some((n + 1) as u64))),
        },
    }
}

/// Text of a range: `min..max` or `min..`.
pub open spec fn range_text(q: (u64, Option<u64>)) -> Seq<char> {
    decimal(q.0 as nat) + dots() + match q.1 {
        Some(m) => decimal(m as nat),
        None => Seq::empty(),
    }
}

fn parse_positive(v: &[char]) -> (r: Result<u64>)
    ensures
        match spec_positive(v@) {
            Some(n) => r == Ok::<u64, Error>(n),
            None => r matches Err(e) && is_format_err(e, FormatCode::RangeQuery, v@),
        },
{
    match parse_u64(v) {
        Some(n) => {
            if n == 0 {
                FormatCode::RangeQuery.to_res(from_chars(v))
            } else {
                Ok(n)
            }
        },
        None => FormatCode::RangeQuery.to_res(from_chars(v)),
    }
}

impl RangeQuery {
    pub fn get_max(&self) -> (r: Option<u64>)
        ensures
            r == self@.1,
    {
        self.max
    }

    pub fn get_min(&self) -> (r: u64)
        ensures
            r == self@.0,
    {
        self.min
    }

    /// Reads a range. A single number `u64::MAX` is left out: its end would
    /// overflow.
    pub fn from_str(s: &str) -> (r: DisplayResult<RangeQuery>)
        requires
            !(find_sub(s@, dots()) is None && spec_positive(s@) == Some(u64::MAX)),
        ensures
            match r {
                Ok(q) => spec_range(s@) == Ok::<(u64, Option<u64>), (FormatCode, Seq<char>)>(q@) && range_ok(q@),
                Err(e) => spec_range(s@) matches Err((c, t)) && is_format_err(e.0, c, t),
            },
    {
        let v = to_chars(s);
        let d = vec!['.', '.'];
        assert(d@ =~= dots());
        match find(v.as_slice(), d.as_slice()) {
            Some(i) => {
                proof {
                    lemma_find_sub_spec(s@, dots());
                }
                let first = sub_chars(v.as_slice(), 0, i);
                let second = sub_chars(v.as_slice(), i + 2, v.len());
                assert(first@ =~= s@.take(i as int));
                assert(second@ =~= s@.skip(i + 2));
                if first.len() == 0 && second.len() == 0 {
                    return Err(DisplayError(Error::Format(FormatCode::RangeQuery, s.to_owned())));
                }
                let min = if first.len() == 0 {
                    1
                } else {
                    match parse_positive(first.as_slice()) {
                        Ok(n) => n,
                        Err(e) => return Err(DisplayError(e)),
                    }
                };
                let max = if second.len() == 0 {
                    None
                } else {
                    let m = match parse_positive(second.as_slice()) {
                        Ok(n) => n,
                        Err(e) => return Err(DisplayError(e)),
                    };
                    if m <= min {
                        return Err(DisplayError(Error::Format(FormatCode::RangeQuery, s.to_owned())));
                    }
                    Some(m)
                };
                Ok(RangeQuery { min, max })
            },
            None => {
                let num = match parse_positive(v.as_slice()) {
                    Ok(n) => n,
                    Err(e) => return Err(DisplayError(e)),
                };
                Ok(RangeQuery { min: num, max: Some(num + 1) })
            },
        }
    }

    /// The text of the range.
    pub fn to_string(&self) -> (r: String)
        ensures
            r@ == range_text(self@),
    {
        let mut v = decimal_chars(self.min);
        v.push('.');
        v.push('.');
        match self.max {
            Some(m) => {
                let d = decimal_chars(m);
                push_all(&mut v, d.as_slice());
            },
            None => {},
        }
        assert(v@ =~= range_text(self@));
        from_chars(v.as_slice())
    }
}

/// The text of a well-formed range reads back as the same range.
pub proof fn law_range_text_round_trip(q: (u64, Option<u64>))
    requires
        range_ok(q),
    ensures
        spec_range(range_text(q)) == Ok::<(u64, Option<u64>), (FormatCode, Seq<char>)>(q),
{
    let a = decimal(q.0 as nat);
    let tail = match q.1 {
        Some(m) => decimal(m as nat),
        None => Seq::<char>::empty(),
    };
    let t = range_text(q);
    crate::num::law_decimal_round_trip(q.0 as nat);
    assert(t =~= a + dots() + tail);
    assert(crate::text::matches_at(t, dots(), a.len() as int)) by {
        assert(t.subrange(a.len() as int, a.len() + 2int) =~= dots());
    }
    assert forall|j: int| 0 <= j < a.len() implies !crate::text::matches_at(t, dots(), j) by {
        if crate::text::matches_at(t, dots(), j) {
            assert(t.subrange(j, j + 2)[0] == t[j]);
            assert(t[j] == a[j]);
            assert(crate::num::is_digit(a[j]));
        }
    }
    crate::text::lemma_find_sub_some(t, dots(), a.len() as int);
    assert(t.take(a.len() as int) =~= a);
    assert(t.skip(a.len() + 2int) =~= tail);
    assert(spec_parse_nat(a, u64::MAX as nat) == Some(q.0 as nat)) by {
        assert(a[0] != '+');
    }
    match q.1 {
        Some(m) => {
            crate::num::law_decimal_round_trip(m as nat);
            let b = decimal(m as nat);
            assert(spec_parse_nat(b, u64::MAX as nat) == Some(m as nat)) by {
                assert(b[0] != '+');
            }
        },
        None => {},
    }
}

/// Turns a wildcard pattern into a regular expression body: `.` is escaped and `*`
/// matches anything.
pub open spec fn wildcard_body(s: Seq<char>) -> Seq<char>
    decreases s.len(),
{
    if s.len() == 0 {
        Seq::empty()
    } else {
        wildcard_body(s.drop_last()) + if s.last() == '.' {
            seq!['\\', '.']
        } else if s.last() == '*' {
            seq!['.', '*']
        } else {
            seq![s.last()]
        }
    }
}

/// Name for whether `regex::Regex::new` accepts a pattern.
pub uninterp spec fn regex_compiles(pattern: Seq<char>) -> bool;

/// A compiled regular expression of the `regex` crate.
#[verifier::external_type_specification]
#[verifier::external_body]
pub struct ExRegex(regex::Regex);

/// Compiles a pattern with `regex::Regex::new`, dropping the error's details.
/// Whether it succeeds depends on the pattern alone and is named by
/// `regex_compiles`; what the compiled expression matches is not stated.
#[verifier::external_body]
fn compile_regex(pattern: &str) -> (r: Option<regex::Regex>)
    ensures
        r is Some <==> regex_compiles(pattern@),
{
    regex::Regex::new(pattern).ok()
}

/// Name for whether the expression `pattern`, compiled by `regex::Regex::new`,
/// matches somewhere in `text` (`Regex::is_match`).
pub uninterp spec fn regex_matches(pattern: Seq<char>, text: Seq<char>) -> bool;

/// A compiled regular expression together with the text it was compiled from.
/// It is made only by `Pattern::compile`, so the expression is always the one
/// that text compiles to.
#[derive(Debug)]
pub struct Pattern {
    re: regex::Regex,
    src: String,
}

impl Pattern {
    /// The text the expression was compiled from.
    pub closed spec fn source(&self) -> Seq<char> {
        self.src@
    }

    /// The text the expression was compiled from.
    pub fn as_str(&self) -> (r: &str)
        ensures
            r@ == self.source(),
    {
        self.src.as_str()
    }

    /// Compiles `src`; `None` when `regex::Regex::new` refuses it.
    pub fn compile(src: String) -> (r: Option<Pattern>)
        ensures
            match r {
                Some(p) => regex_compiles(src@) && p.source() == src@,
                None => !regex_compiles(src@),
            },
    {
        match compile_regex(src.as_str()) {
            Some(re) => Some(Pattern { re, src }),
            None => None,
        }
    }

    /// `Regex::is_match` of the expression on `text`. Claimed: the result is
    /// `regex_matches` of the source text and `text`, which holds because the
    /// expression was compiled from that source (see `compile`) and matching
    /// depends on the expression and the text alone.
    #[verifier::external_body]
    pub(crate) fn is_match(&self, text: &str) -> (r: bool)
        ensures
            r == regex_matches(self.source(), text@),
    {
        self.re.is_match(text)
    }
}

/// A query of the `ls` command: a wildcard pattern with the text it was written
/// as and whether hidden scripts count (a trailing `!`), or a script query.
#[derive(Debug)]
pub enum ListQuery {
    Pattern(Pattern, String, bool),
    Query(ScriptQuery),
}

/// `s` without a trailing `!`, and whether there was one.
pub open spec fn strip_bang(s: Seq<char>) -> (Seq<char>, bool) {
    if s.len() > 0 && s.last() == '!' {
        (s.drop_last(), true)
    } else {
        (s, false)
    }
}

impl ListQuery {
    /// A text with `*` is a wildcard pattern, matched against the whole name, with
    /// a trailing `!` taken off first; anything else is a script query.
    pub fn from_str(s: &str) -> (r: Result<ListQuery>)
        ensures
            find_sub(s@, seq!['*']) is Some ==> ({
                let (t, bang) = strip_bang(s@);
                let body = wildcard_body(t);
                let pattern = seq!['^'] + body + seq!['$'];
                match r {
                    Ok(ListQuery::Pattern(p, og, b)) => regex_compiles(pattern) && p.source() == pattern && og@ == s@
                        && b == bang,
                    Ok(ListQuery::Query(_)) => false,
                    Err(e) => !regex_compiles(pattern) && is_format_err(e, FormatCode::Regex, body),
                }
            }),
            find_sub(s@, seq!['*']) is None ==> match r {
                Ok(ListQuery::Query(q)) => spec_script_query(s@) == Ok::<(QueryInnerV, bool), (FormatCode, Seq<char>)>(q@),
                Ok(ListQuery::Pattern(..)) => false,
                Err(e) => spec_script_query(s@) matches Err((c, t)) && is_format_err(e, c, t),
            },
    {
        let v = to_chars(s);
        if crate::text::find_char(v.as_slice(), '*').is_some() {
            let bang = v.len() > 0 && v[v.len() - 1] == '!';
            let end = if bang {
                v.len() - 1
            } else {
                v.len()
            };
            let ghost t = strip_bang(s@).0;
            assert(v@.take(end as int) =~= t);
            let mut body: Vec<char> = Vec::new();
            let mut i: usize = 0;
            while i < end
                invariant
                    i <= end <= v@.len(),
                    v@ == s@,
                    v@.take(end as int) == t,
                    body@ == wildcard_body(t.take(i as int)),
                decreases end - i,
            {
                assert(t.take(i + 1).drop_last() =~= t.take(i as int));
                let c = v[i];
                assert(c == t[i as int]);
                if c == '.' {
                    body.push('\\');
                    body.push('.');
                } else if c == '*' {
                    body.push('.');
                    body.push('*');
                } else {
                    body.push(c);
                }
                i = i + 1;
                assert(body@ =~= wildcard_body(t.take(i as int)));
            }
            assert(t.take(end as int) =~= t);
            let mut pattern: Vec<char> = Vec::new();
            pattern.push('^');
            push_all(&mut pattern, body.as_slice());
            pattern.push('$');
            assert(pattern@ =~= seq!['^'] + body@ + seq!['$']);
            let p = from_chars(pattern.as_slice());
            match Pattern::compile(p) {
                Some(re) => Ok(ListQuery::Pattern(re, s.to_owned(), bang)),
                None => FormatCode::Regex.to_res(from_chars(body.as_slice())),
            }
        } else {
            let q = ScriptQuery::from_str(s)?;
            Ok(ListQuery::Query(q))
        }
    }
}

/// A filter by tags, with a name when written `name=selector`.
#[derive(Debug)]
pub struct FilterQuery {
    pub name: Option<String>,
    pub content: crate::tag::TagSelector,
}

/// How `FilterQuery::from_str` reads `s`: one `=` at most, splitting the name from
/// the selector; more is an error on the whole text.
pub open spec fn spec_filter_query(s: Seq<char>) -> Parsed<(Option<Seq<char>>, (bool, Seq<crate::tag::ControlV>))> {
    let parts = crate::text::split_seq(s, seq!['=']);
    if parts.len() == 1 {
        match crate::tag::spec_selector(parts[0]) {
            Ok(c) => Ok((None, c)),
            Err(e) => Err(e),
        }
    } else if parts.len() == 2 {
        match crate::tag::spec_selector(parts[1]) {
            Ok(c) => Ok((Some(parts[0]), c)),
            Err(e) => Err(e),
        }
    } else {
        Err((FormatCode::FilterQuery, s))
    }
}

impl FilterQuery {
    pub fn from_str(s: &str) -> (r: Result<FilterQuery>)
        ensures
            match r {
                Ok(q) => spec_filter_query(s@) == Ok::<(Option<Seq<char>>, (bool, Seq<crate::tag::ControlV>)), (FormatCode, Seq<char>)>((
                    match q.name {
                        Some(n) => Some(n@),
                        None => None,
                    },
                    q.content@,
                )),
                Err(e) => spec_filter_query(s@) matches Err((c, t)) && is_format_err(e, c, t),
            },
    {
        let v = to_chars(s);
        let arr = crate::text::split_char(v.as_slice(), '=');
        if arr.len() == 1 {
            assert(arr[0]@ == arr.deep_view()[0]);
            let text = from_chars(arr[0].as_slice());
            match crate::tag::TagSelector::from_str(text.as_str()) {
                Ok(content) => Ok(FilterQuery { name: None, content }),
                Err(e) => Err(e.into_err()),
            }
        } else if arr.len() == 2 {
            assert(arr[0]@ == arr.deep_view()[0]);
            assert(arr[1]@ == arr.deep_view()[1]);
            let name = from_chars(arr[0].as_slice());
            let text = from_chars(arr[1].as_slice());
            match crate::tag::TagSelector::from_str(text.as_str()) {
                Ok(content) => Ok(FilterQuery { name: Some(name), content }),
                Err(e) => Err(e.into_err()),
            }
        } else {
            FormatCode::FilterQuery.to_res(s.to_owned())
        }
    }
}

} // verus!
