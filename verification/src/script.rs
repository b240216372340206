//! Script names: named scripts (`dir/name`) and anonymous ones (`.42`), and where
//! their files live relative to the home directory.
use crate::error::{Error, FormatCode, Parsed, Result};
use crate::num::{decimal, decimal_chars, parse_u32, spec_parse_nat};
use crate::script_type::{is_format_err, type_lookup, ScriptType, TypeTable};
use crate::text::{
    from_chars, lemma_find_sub_spec, push_all, push_str, rfind, rsplit_once_seq, split_char,
    split_seq, sub_chars, sub_string, to_chars,
};
use crate::tag::{apply_controls, Tag, TagSelector, TagSet};
use crate::util::{illegal_name_chars, is_illegal_name};
use vstd::prelude::*;

verus! {

/// Directory of the anonymous scripts.
pub open spec fn anonymous_dir() -> Seq<char> {
    seq!['.', 'a', 'n', 'o', 'n', 'y', 'm', 'o', 'u', 's']
}

/// The first illegal part, if any.
pub open spec fn first_illegal(parts: Seq<Seq<char>>) -> Option<Seq<char>>
    decreases parts.len(),
{
    if parts.len() == 0 {
        None
    } else if is_illegal_name(parts[0]) {
        Some(parts[0])
    } else {
        first_illegal(parts.drop_first())
    }
}

/// A result `r` agrees with a spec outcome (format errors compared by kind and text).
pub open spec fn agrees_err<T>(r: Result<T>, spec: Parsed<T>) -> bool {
    match r {
        Ok(v) => spec == Ok::<T, (FormatCode, Seq<char>)>(v),
        Err(e) => spec matches Err((c, t)) && is_format_err(e, c, t),
    }
}

/// How a concrete name is checked: every `/`-separated part must be legal; the
/// first illegal part is reported.
pub open spec fn spec_valid_concrete(s: Seq<char>) -> Parsed<()> {
    match first_illegal(split_seq(s, seq!['/'])) {
        Some(p) => Err((FormatCode::ScriptName, p)),
        None => Ok(()),
    }
}

/// The name of a named script, such as `dir/name`.
#[derive(Debug, Clone)]
pub struct ConcreteScriptName {
    pub inner: String,
}

impl View for ConcreteScriptName {
    type V = Seq<char>;

    open spec fn view(&self) -> Seq<char> {
        self.inner@
    }
}

/// The last `/`-separated part of a name.
pub open spec fn stem_of(s: Seq<char>) -> Seq<char> {
    match rsplit_once_seq(s, seq!['/']) {
        Some((_, stem)) => stem,
        None => s,
    }
}

impl ConcreteScriptName {
    fn valid(v: &[char]) -> (r: Result)
        ensures
            agrees_err(r, spec_valid_concrete(v@)),
    {
        let parts = split_char(v, '/');
        let ghost ps = parts.deep_view();
        let mut i: usize = 0;
        assert(ps.skip(0) =~= ps);
        while i < parts.len()
            invariant
                ps == parts.deep_view(),
                ps == split_seq(v@, seq!['/']),
                i <= ps.len(),
                first_illegal(ps) == first_illegal(ps.skip(i as int)),
            decreases ps.len() - i,
        {
            assert(ps.skip(i as int)[0] == ps[i as int]);
            assert(ps.skip(i as int).drop_first() =~= ps.skip(i + 1));
            assert(ps[i as int] =~= parts@[i as int]@);
            if illegal_name_chars(parts[i].as_slice()) {
                let t = from_chars(parts[i].as_slice());
                return FormatCode::ScriptName.to_res(t);
            }
            i = i + 1;
        }
        assert(ps.skip(i as int) =~= Seq::<Seq<char>>::empty());
        Ok(())
    }

    /// A named script, when every part of the name is legal.
    pub fn new(s: String) -> (r: Result<ConcreteScriptName>)
        ensures
            match spec_valid_concrete(s@) {
                Ok(_) => r matches Ok(n) && n@ == s@,
                Err((c, t)) => r matches Err(e) && is_format_err(e, c, t),
            },
    {
        let v = to_chars(s.as_str());
        match Self::valid(v.as_slice()) {
            Ok(()) => Ok(ConcreteScriptName { inner: s }),
            Err(e) => Err(e),
        }
    }

    /// The name made of the decimal text of an id.
    pub fn new_id(id: u32) -> (r: ConcreteScriptName)
        ensures
            r@ == decimal(id as nat),
    {
        let v = decimal_chars(id as u64);
        ConcreteScriptName { inner: from_chars(v.as_slice()) }
    }

    pub fn new_unchecked(s: String) -> (r: ConcreteScriptName)
        ensures
            r@ == s@,
    {
        ConcreteScriptName { inner: s }
    }

    pub fn as_str(&self) -> (r: &str)
        ensures
            r@ == self@,
    {
        self.inner.as_str()
    }

    fn stem_inner(&self) -> (r: Vec<char>)
        ensures
            r@ == stem_of(self@),
    {
        let v = to_chars(self.inner.as_str());
        let slash = vec!['/'];
        assert(slash@ =~= seq!['/']);
        match rfind(v.as_slice(), slash.as_slice()) {
            Some(i) => {
                proof {
                    crate::text::lemma_rfind_sub_some_bounds(v@, seq!['/']);
                }
                let n = v.len();
                assert(i + 1 <= n);
                let r = sub_chars(v.as_slice(), i + 1, n);
                assert(r@ =~= v@.skip(i + 1));
                r
            },
            None => v,
        }
    }

    /// The last part of the name.
    pub fn stem(&self) -> (r: ConcreteScriptName)
        ensures
            r@ == stem_of(self@),
    {
        let v = self.stem_inner();
        ConcreteScriptName { inner: from_chars(v.as_slice()) }
    }

    /// Appends `/` and the stem of `other`.
    pub fn join(&mut self, other: &ConcreteScriptName)
        ensures
            final(self)@ == old(self)@ + seq!['/'] + stem_of(other@),
    {
        let mut v = to_chars(self.inner.as_str());
        v.push('/');
        let st = other.stem_inner();
        push_all(&mut v, st.as_slice());
        self.inner = from_chars(v.as_slice());
    }

    /// Appends `/` and the decimal text of an id.
    pub fn join_id(&mut self, other: u32)
        ensures
            final(self)@ == old(self)@ + seq!['/'] + decimal(other as nat),
    {
        let mut v = to_chars(self.inner.as_str());
        v.push('/');
        let d = decimal_chars(other as u64);
        push_all(&mut v, d.as_slice());
        self.inner = from_chars(v.as_slice());
    }
}

/// A script's name: anonymous scripts are numbered.
#[derive(Debug, Clone)]
pub enum ScriptName {
    Anonymous(u32),
    Named(ConcreteScriptName),
}

/// View of a script name: `Ok(id)` for an anonymous script, `Err(name)` for a named one.
pub type NameV = core::result::Result<u32, Seq<char>>;

impl View for ScriptName {
    type V = NameV;

    open spec fn view(&self) -> NameV {
        match self {
            ScriptName::Anonymous(id) => Ok(*id),
            ScriptName::Named(n) => Err(n@),
        }
    }
}

/// How `ScriptName::valid` judges `s`: `.N` names the anonymous script `N` (a positive
/// number), a lone `.` is let through when `allow_dot` holds, and otherwise, when
/// `check` holds, every part must be legal (a trailing `/` is dropped first when
/// `allow_endwith_slash` holds).
pub open spec fn spec_valid_name(s: Seq<char>, allow_endwith_slash: bool, allow_dot: bool, check: bool) -> Parsed<Option<u32>> {
    if s.len() > 0 && s[0] == '.' {
        if s.len() == 1 && allow_dot {
            Ok(None)
        } else {
            match spec_parse_nat(s.skip(1), u32::MAX as nat) {
                Some(id) => if id != 0 {
                    Ok(Some(id as u32))
                } else {
                    Err((FormatCode::ScriptName, s))
                },
                None => Err((FormatCode::ScriptName, s)),
            }
        }
    } else if check {
        let s2 = if allow_endwith_slash && s.len() > 0 && s.last() == '/' {
            s.drop_last()
        } else {
            s
        };
        match spec_valid_concrete(s2) {
            Ok(_) => Ok(None),
            Err(e) => Err(e),
        }
    } else {
        Ok(None)
    }
}

/// How a text becomes a script name (`check` tells whether named parts are checked).
pub open spec fn spec_into_name(s: Seq<char>, check: bool) -> Parsed<NameV> {
    match spec_valid_name(s, false, false, check) {
        Ok(Some(id)) => Ok(Ok(id)),
        Ok(None) => Ok(Err(s)),
        Err(e) => Err(e),
    }
}

/// The text of a name: `.N` for an anonymous script, the name otherwise.
pub open spec fn name_key(n: NameV) -> Seq<char> {
    match n {
        Ok(id) => seq!['.'] + decimal(id as nat),
        Err(s) => s,
    }
}

/// The file of a script relative to the home directory, with the extension `ext`.
pub open spec fn file_path_text(n: NameV, ext: Option<Seq<char>>) -> Seq<char> {
    let base = match n {
        Ok(id) => anonymous_dir() + seq!['/'] + decimal(id as nat),
        Err(s) => s,
    };
    match ext {
        Some(e) => base + seq!['.'] + e,
        None => base,
    }
}

/// The parts of a name before its stem.
pub open spec fn namespaces_of(n: NameV) -> Seq<Seq<char>> {
    match n {
        Ok(_) => Seq::empty(),
        Err(s) => split_seq(s, seq!['/']).drop_last(),
    }
}

impl ScriptName {
    /// Checks a name, giving the id of an anonymous script.
    pub fn valid(s: &str, allow_endwith_slash: bool, allow_dot: bool, check: bool) -> (r: Result<
        Option<u32>,
    >)
        ensures
            agrees_err(r, spec_valid_name(s@, allow_endwith_slash, allow_dot, check)),
    {
        let v = to_chars(s);
        if v.len() > 0 && v[0] == '.' {
            if v.len() == 1 && allow_dot {
                return Ok(None);
            }
            let rest = sub_chars(v.as_slice(), 1, v.len());
            assert(rest@ =~= s@.skip(1));
            match parse_u32(rest.as_slice()) {
                Some(id) => {
                    if id != 0 {
                        Ok(Some(id))
                    } else {
                        FormatCode::ScriptName.to_res(s.to_owned())
                    }
                },
                None => FormatCode::ScriptName.to_res(s.to_owned()),
            }
        } else if check {
            let body = if allow_endwith_slash && v.len() > 0 && v[v.len() - 1] == '/' {
                sub_chars(v.as_slice(), 0, v.len() - 1)
            } else {
                v
            };
            assert(allow_endwith_slash && s@.len() > 0 && s@.last() == '/' ==> body@ =~= s@.drop_last());
            ConcreteScriptName::valid(body.as_slice())?;
            Ok(None)
        } else {
            Ok(None)
        }
    }

    /// Reads a name, checking the parts of a named one.
    pub fn from_str(s: &str) -> (r: Result<ScriptName>)
        ensures
            match r {
                Ok(n) => spec_into_name(s@, true) == Ok::<NameV, (FormatCode, Seq<char>)>(n@),
                Err(e) => spec_into_name(s@, true) matches Err((c, t)) && is_format_err(e, c, t),
            },
    {
        string_into_script_name(s.to_owned(), true)
    }

    /// The `/`-separated parts of a named script before its stem; none for an
    /// anonymous script.
    pub fn namespaces(&self) -> (r: Vec<String>)
        ensures
            r.deep_view() == namespaces_of(self@),
    {
        match self {
            ScriptName::Anonymous(_) => {
                let r: Vec<String> = Vec::new();
                assert(r.deep_view() =~= Seq::<Seq<char>>::empty());
                r
            },
            ScriptName::Named(s) => {
                let v = to_chars(s.as_str());
                let parts = split_char(v.as_slice(), '/');
                let ghost ps = parts.deep_view();
                let mut r: Vec<String> = Vec::new();
                let mut i: usize = 0;
                proof {
                    crate::text::lemma_split_nonempty(v@, seq!['/']);
                }
                while i < parts.len() - 1
                    invariant
                        ps == parts.deep_view(),
                        ps.len() >= 1,
                        i + 1 <= ps.len(),
                        r.deep_view() == ps.take(i as int),
                    decreases ps.len() - i,
                {
                    let p = from_chars(parts[i].as_slice());
                    assert(ps[i as int] =~= parts@[i as int]@);
                    let ghost old_r = r.deep_view();
                    r.push(p);
                    assert(r.deep_view() =~= old_r.push(p@));
                    assert(r.deep_view() =~= ps.take(i + 1));
                    i = i + 1;
                }
                assert(ps.take(i as int) =~= ps.drop_last());
                r
            },
        }
    }

    pub fn is_anonymous(&self) -> (r: bool)
        ensures
            r == (self@ is Ok),
    {
        match self {
            ScriptName::Anonymous(_) => true,
            ScriptName::Named(_) => false,
        }
    }

    /// The text of the name: `.N` for an anonymous script.
    pub fn key(&self) -> (r: String)
        ensures
            r@ == name_key(self@),
    {
        match self {
            ScriptName::Anonymous(id) => {
                let mut v: Vec<char> = Vec::new();
                v.push('.');
                let d = decimal_chars(*id as u64);
                push_all(&mut v, d.as_slice());
                from_chars(v.as_slice())
            },
            ScriptName::Named(s) => s.inner.clone(),
        }
    }

    /// The file of the script relative to the home directory; an unknown type is an
    /// error.
    pub fn to_file_path(&self, ty: &ScriptType, types: &TypeTable) -> (r: Result<String>)
        ensures
            match type_lookup(types@, ty@) {
                Some(i) => r matches Ok(p) && p@ == file_path_text(self@, types@[i].1),
                None => r matches Err(Error::UnknownType(t)) && t@ == ty@,
            },
    {
        match self.to_file_path_inner(ty, types, false) {
            Ok((p, _)) => Ok(p),
            Err(e) => Err(e),
        }
    }

    /// The file of the script relative to the home directory; for an unknown type the
    /// type's name serves as extension, and the `UnknownType` error is handed back
    /// beside the path.
    pub fn to_file_path_fallback(&self, ty: &ScriptType, types: &TypeTable) -> (r: (String, Option<Error>))
        ensures
            match type_lookup(types@, ty@) {
                Some(i) => r.0@ == file_path_text(self@, types@[i].1) && r.1 is None,
                None => r.0@ == file_path_text(self@, Some(ty@)) && (r.1 matches Some(Error::UnknownType(t)) && t@ == ty@),
            },
    {
        match self.to_file_path_inner(ty, types, true) {
            Ok(r) => r,
            Err(e) => (String::new(), Some(e)),
        }
    }

    fn to_file_path_inner(&self, ty: &ScriptType, types: &TypeTable, fallback: bool) -> (r: Result<
        (String, Option<Error>),
    >)
        ensures
            match type_lookup(types@, ty@) {
                Some(i) => r matches Ok((p, e)) && p@ == file_path_text(self@, types@[i].1) && e is None,
                None => if fallback {
                    r matches Ok((p, e)) && p@ == file_path_text(self@, Some(ty@)) && (e matches Some(Error::UnknownType(t)) && t@ == ty@)
                } else {
                    r matches Err(Error::UnknownType(t)) && t@ == ty@
                },
            },
    {
        let mut v: Vec<char> = Vec::new();
        match self {
            ScriptName::Anonymous(id) => {
                let dir = vec!['.', 'a', 'n', 'o', 'n', 'y', 'm', 'o', 'u', 's', '/'];
                assert(dir@ =~= anonymous_dir() + seq!['/']);
                push_all(&mut v, dir.as_slice());
                let d = decimal_chars(*id as u64);
                push_all(&mut v, d.as_slice());
            },
            ScriptName::Named(name) => {
                push_str(&mut v, name.as_str());
            },
        }
        let mut err: Option<Error> = None;
        match types.get_script_conf(ty) {
            Err(e) => {
                if !fallback {
                    return Err(e);
                }
                err = Some(e);
                v.push('.');
                push_str(&mut v, ty.as_ref());
            },
            Ok(c) => {
                match &c.ext {
                    Some(ext) => {
                        v.push('.');
                        push_str(&mut v, ext.as_str());
                    },
                    None => {},
                }
            },
        }
        Ok((from_chars(v.as_slice()), err))
    }
}

/// Turns something into a script name.
pub trait IntoScriptName: Sized {
    /// `r` is what `self` turns into, with named parts checked.
    spec fn names(self, r: Result<ScriptName>) -> bool;

    fn into_script_name(self) -> (r: Result<ScriptName>)
        ensures
            self.names(r),
    ;
}

impl IntoScriptName for u32 {
    open spec fn names(self, r: Result<ScriptName>) -> bool {
        r matches Ok(n) && n@ == Ok::<u32, Seq<char>>(self)
    }

    fn into_script_name(self) -> (r: Result<ScriptName>) {
        Ok(ScriptName::Anonymous(self))
    }
}

impl IntoScriptName for ConcreteScriptName {
    open spec fn names(self, r: Result<ScriptName>) -> bool {
        r matches Ok(n) && n@ == Err::<u32, Seq<char>>(self@)
    }

    fn into_script_name(self) -> (r: Result<ScriptName>) {
        Ok(ScriptName::Named(self))
    }
}

impl IntoScriptName for ScriptName {
    open spec fn names(self, r: Result<ScriptName>) -> bool {
        r matches Ok(n) && n@ == self@
    }

    fn into_script_name(self) -> (r: Result<ScriptName>) {
        Ok(self)
    }
}

impl IntoScriptName for String {
    open spec fn names(self, r: Result<ScriptName>) -> bool {
        match r {
            Ok(n) => spec_into_name(self@, true) == Ok::<NameV, (FormatCode, Seq<char>)>(n@),
            Err(e) => spec_into_name(self@, true) matches Err((c, t)) && is_format_err(e, c, t),
        }
    }

    fn into_script_name(self) -> (r: Result<ScriptName>) {
        string_into_script_name(self, true)
    }
}

/// A text as a script name; named parts are checked when `check` holds.
pub fn string_into_script_name(s: String, check: bool) -> (r: Result<ScriptName>)
    ensures
        match r {
            Ok(n) => spec_into_name(s@, check) == Ok::<NameV, (FormatCode, Seq<char>)>(n@),
            Err(e) => spec_into_name(s@, check) matches Err((c, t)) && is_format_err(e, c, t),
        },
{
    match ScriptName::valid(s.as_str(), false, false, check) {
        Ok(Some(id)) => Ok(ScriptName::Anonymous(id)),
        Ok(None) => Ok(ScriptName::Named(ConcreteScriptName::new_unchecked(s))),
        Err(e) => Err(e),
    }
}

/// The text of an anonymous script's name reads back as that script, and the text
/// of a legal named script reads back as itself.
pub proof fn law_name_key_round_trip(n: NameV)
    requires
        n matches Ok(id) ==> id > 0,
        n matches Err(s) ==> spec_valid_concrete(s) is Ok && !(s.len() > 0 && s[0] == '.'),
    ensures
        spec_into_name(name_key(n), true) == Ok::<NameV, (FormatCode, Seq<char>)>(n),
{
    match n {
        Ok(id) => {
            let k = name_key(n);
            crate::num::law_decimal_round_trip(id as nat);
            assert(k.skip(1) =~= decimal(id as nat));
            assert(k.len() != 1 || decimal(id as nat).len() == 0);
        },
        Err(s) => {},
    }
}

/// A time that never happened counts as the epoch.
pub open spec fn or_epoch(t: Option<i64>) -> i64 {
    match t {
        Some(x) => x,
        None => 0,
    }
}

/// The later of two times.
pub open spec fn later(a: i64, b: i64) -> i64 {
    if a >= b {
        a
    } else {
        b
    }
}

fn later_exec(a: i64, b: i64) -> (r: i64)
    ensures
        r == later(a, b),
{
    if a >= b {
        a
    } else {
        b
    }
}

fn or_epoch_exec(t: Option<i64>) -> (r: i64)
    ensures
        r == or_epoch(t),
{
    match t {
        Some(x) => x,
        None => 0,
    }
}

/// A script and what is recorded of it. Times are seconds since the epoch.
#[derive(Debug)]
pub struct ScriptInfo {
    pub id: i64,
    pub hash: i64,
    pub name: ScriptName,
    pub ty: ScriptType,
    pub tags: TagSet,
    pub created_time: i64,
    pub read_time: i64,
    pub write_time: i64,
    pub exec_time: Option<i64>,
    pub exec_done_time: Option<i64>,
    pub neglect_time: Option<i64>,
    pub humble_time: Option<i64>,
    pub exec_count: u64,
}

impl ScriptInfo {
    /// The latest of the write, humble, exec and exec-done times (reads do not
    /// count).
    pub open spec fn spec_last_major_time(&self) -> i64 {
        later(
            later(self.write_time, or_epoch(self.humble_time)),
            later(or_epoch(self.exec_time), or_epoch(self.exec_done_time)),
        )
    }

    /// The latest of the read, write, exec and exec-done times (humble events do
    /// not count).
    pub open spec fn spec_last_time(&self) -> i64 {
        later(
            later(self.read_time, self.write_time),
            later(or_epoch(self.exec_time), or_epoch(self.exec_done_time)),
        )
    }

    pub fn last_major_time(&self) -> (r: i64)
        ensures
            r == self.spec_last_major_time(),
    {
        later_exec(
            later_exec(self.write_time, or_epoch_exec(self.humble_time)),
            later_exec(or_epoch_exec(self.exec_time), or_epoch_exec(self.exec_done_time)),
        )
    }

    pub fn last_time(&self) -> (r: i64)
        ensures
            r == self.spec_last_time(),
    {
        later_exec(
            later_exec(self.read_time, self.write_time),
            later_exec(or_epoch_exec(self.exec_time), or_epoch_exec(self.exec_done_time)),
        )
    }

    /// Appends the tags of an appending selector, or replaces the tags with those
    /// that the selector allows.
    pub fn append_tags(&mut self, tags: TagSelector)
        ensures
            final(self).tags@ == apply_controls(
                if tags@.0 {
                    old(self).tags@
                } else {
                    Set::empty()
                },
                tags@.1,
            ),
            *final(self) == (ScriptInfo { tags: final(self).tags, ..*old(self) }),
    {
        if tags.append {
            tags.fill_allowed_map(&mut self.tags);
        } else {
            self.tags = tags.into_allowed_set();
        }
    }

    /// Records a read at `now`.
    pub fn read(&mut self, now: i64)
        ensures
            *final(self) == (ScriptInfo { read_time: now, ..*old(self) }),
    {
        self.read_time = now;
    }

    /// Records a write at `now`, which is a read too.
    pub fn write(&mut self, now: i64)
        ensures
            *final(self) == (ScriptInfo { read_time: now, write_time: now, ..*old(self) }),
    {
        self.read_time = now;
        self.write_time = now;
    }

    /// Records an execution starting at `now`.
    pub fn exec(&mut self, now: i64)
        requires
            old(self).exec_count < u64::MAX,
        ensures
            *final(self) == (ScriptInfo {
                exec_time: Some(now),
                exec_count: (old(self).exec_count + 1) as u64,
                ..*old(self)
            }),
    {
        self.exec_time = Some(now);
        self.exec_count = self.exec_count + 1;
    }

    /// Records the end of an execution at `now`.
    pub fn exec_done(&mut self, now: i64)
        ensures
            *final(self) == (ScriptInfo { exec_done_time: Some(now), ..*old(self) }),
    {
        self.exec_done_time = Some(now);
    }

    /// Records that the script was neglected at `now`.
    pub fn neglect(&mut self, now: i64)
        ensures
            *final(self) == (ScriptInfo { neglect_time: Some(now), ..*old(self) }),
    {
        self.neglect_time = Some(now);
    }
}

/// A script being put together, with the times known of it so far.
#[derive(Debug)]
pub struct ScriptBuilder {
    pub name: ScriptName,
    pub read_time: Option<i64>,
    pub created_time: Option<i64>,
    pub write_time: Option<i64>,
    pub exec_time: Option<i64>,
    pub neglect_time: Option<i64>,
    pub humble_time: Option<i64>,
    pub exec_done_time: Option<i64>,
    pub exec_count: u64,
    pub hash: i64,
    pub id: i64,
    pub tags: TagSet,
    pub ty: ScriptType,
}

/// `t`, or `d` when there is none.
pub open spec fn or_time(t: Option<i64>, d: i64) -> i64 {
    match t {
        Some(x) => x,
        None => d,
    }
}

impl ScriptInfo {
    /// A builder with no times known and no runs; the tags are taken once each.
    pub fn builder(id: i64, hash: i64, name: ScriptName, ty: ScriptType, tags: Vec<Tag>) -> (r: ScriptBuilder)
        ensures
            r.id == id && r.hash == hash && r.name == name && r.ty == ty,
            forall|x: Seq<char>| r.tags@.contains(x) <==> exists|i: int| 0 <= i < tags@.len() && #[trigger] tags@[i]@ == x,
            r.read_time is None && r.created_time is None && r.write_time is None && r.exec_time is None,
            r.neglect_time is None && r.humble_time is None && r.exec_done_time is None && r.exec_count == 0,
    {
        let mut set = TagSet::new();
        let mut i: usize = 0;
        while i < tags.len()
            invariant
                i <= tags@.len(),
                forall|x: Seq<char>| set@.contains(x) <==> exists|j: int| 0 <= j < i && #[trigger] tags@[j]@ == x,
            decreases tags@.len() - i,
        {
            let t = tags[i].clone();
            set.insert(t);
            proof {
                assert forall|x: Seq<char>| set@.contains(x) <==> exists|j: int| 0 <= j < i + 1 && #[trigger] tags@[j]@ == x by {
                    if set@.contains(x) && x != tags@[i as int]@ {
                        let j = choose|j: int| 0 <= j < i && #[trigger] tags@[j]@ == x;
                        assert(tags@[j]@ == x);
                    }
                    if exists|j: int| 0 <= j < i + 1 && #[trigger] tags@[j]@ == x {
                        let j = choose|j: int| 0 <= j < i + 1 && #[trigger] tags@[j]@ == x;
                        if j < i {
                            assert(tags@[j]@ == x);
                        }
                    }
                }
            }
            i = i + 1;
        }
        ScriptBuilder {
            id,
            hash,
            name,
            ty,
            tags: set,
            read_time: None,
            created_time: None,
            exec_time: None,
            write_time: None,
            exec_done_time: None,
            neglect_time: None,
            humble_time: None,
            exec_count: 0,
        }
    }
}

impl ScriptBuilder {
    pub fn exec_count(&mut self, count: u64) -> (r: &mut Self)
        ensures
            *r == (ScriptBuilder { exec_count: count, ..*old(self) }),
            *final(self) == *final(r),
    {
        self.exec_count = count;
        self
    }

    pub fn exec_time(&mut self, time: i64) -> (r: &mut Self)
        ensures
            *r == (ScriptBuilder { exec_time: Some(time), ..*old(self) }),
            *final(self) == *final(r),
    {
        self.exec_time = Some(time);
        self
    }

    pub fn exec_done_time(&mut self, time: i64) -> (r: &mut Self)
        ensures
            *r == (ScriptBuilder { exec_done_time: Some(time), ..*old(self) }),
            *final(self) == *final(r),
    {
        self.exec_done_time = Some(time);
        self
    }

    pub fn read_time(&mut self, time: i64) -> (r: &mut Self)
        ensures
            *r == (ScriptBuilder { read_time: Some(time), ..*old(self) }),
            *final(self) == *final(r),
    {
        self.read_time = Some(time);
        self
    }

    pub fn write_time(&mut self, time: i64) -> (r: &mut Self)
        ensures
            *r == (ScriptBuilder { write_time: Some(time), ..*old(self) }),
            *final(self) == *final(r),
    {
        self.write_time = Some(time);
        self
    }

    pub fn neglect_time(&mut self, time: i64) -> (r: &mut Self)
        ensures
            *r == (ScriptBuilder { neglect_time: Some(time), ..*old(self) }),
            *final(self) == *final(r),
    {
        self.neglect_time = Some(time);
        self
    }

    pub fn humble_time(&mut self, time: i64) -> (r: &mut Self)
        ensures
            *r == (ScriptBuilder { humble_time: Some(time), ..*old(self) }),
            *final(self) == *final(r),
    {
        self.humble_time = Some(time);
        self
    }

    pub fn created_time(&mut self, time: i64) -> (r: &mut Self)
        ensures
            *r == (ScriptBuilder { created_time: Some(time), ..*old(self) }),
            *final(self) == *final(r),
    {
        self.created_time = Some(time);
        self
    }

    /// The script: created `now` unless known otherwise, written and read when it
    /// was created unless known otherwise.
    pub fn build(self, now: i64) -> (r: ScriptInfo)
        ensures
            r == (ScriptInfo {
                id: self.id,
                hash: self.hash,
                name: self.name,
                ty: self.ty,
                tags: self.tags,
                created_time: or_time(self.created_time, now),
                write_time: or_time(self.write_time, or_time(self.created_time, now)),
                read_time: or_time(self.read_time, or_time(self.created_time, now)),
                exec_time: self.exec_time,
                exec_done_time: self.exec_done_time,
                neglect_time: self.neglect_time,
                humble_time: self.humble_time,
                exec_count: self.exec_count,
            }),
    {
        let created_time = match self.created_time {
            Some(t) => t,
            None => now,
        };
        ScriptInfo {
            write_time: match self.write_time {
                Some(t) => t,
                None => created_time,
            },
            read_time: match self.read_time {
                Some(t) => t,
                None => created_time,
            },
            exec_time: self.exec_time,
            exec_done_time: self.exec_done_time,
            neglect_time: self.neglect_time,
            humble_time: self.humble_time,
            exec_count: self.exec_count,
            id: self.id,
            hash: self.hash,
            name: self.name,
            ty: self.ty,
            tags: self.tags,
            created_time,
        }
    }
}

impl ScriptInfo {
    /// A copy under a new name, with no id yet, created `now`.
    pub fn cp(&self, new_name: ScriptName, now: i64) -> (r: ScriptInfo)
        ensures
            r.id == 0 && r.hash == self.hash && r.name == new_name && r.ty@ == self.ty@,
            r.tags@ == self.tags@,
            r.created_time == now && r.write_time == now && r.read_time == now,
            r.exec_time is None && r.exec_done_time is None && r.neglect_time is None && r.humble_time is None,
            r.exec_count == 0,
    {
        let tags = self.tags.to_vec();
        let ty = ScriptType::new_unchecked(self.ty.0.clone());
        let builder = ScriptInfo::builder(0, self.hash, new_name, ty, tags);
        let r = builder.build(now);
        assert(r.tags@ =~= self.tags@);
        r
    }
}

} // verus!
