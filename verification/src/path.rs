//! Where the files of the scripts live under the home directory, and the checks
//! made before a script's file is opened.
use crate::error::{Error, Result, SysPath};
use crate::num::{decimal, decimal_chars, parse_u32, signed_decimal, signed_decimal_chars, spec_parse_nat};
use crate::script::{file_path_text, ScriptName};
use crate::script_type::{type_lookup, ScriptType, TypeTable};
use crate::text::{
    find_char, from_chars, join, join_seq, push_all, push_str, split_once_seq, split_seq, str_eq,
    sub_chars, to_chars,
};
use vstd::prelude::*;

verus! {

/// `p` under `home` (`Path::join`): an absolute `p` stands alone, otherwise a
/// separator is put between them when `home` does not end with one.
pub open spec fn join_path(home: Seq<char>, p: Seq<char>) -> Seq<char> {
    if p.len() > 0 && p[0] == '/' {
        p
    } else if home.len() == 0 || home.last() == '/' {
        home + p
    } else {
        home + seq!['/'] + p
    }
}

/// `p` under `home`, as `join_path`.
pub fn join_home(home: &str, p: &str) -> (r: String)
    ensures
        r@ == join_path(home@, p@),
{
    let h = to_chars(home);
    let q = to_chars(p);
    if q.len() > 0 && q[0] == '/' {
        return from_chars(q.as_slice());
    }
    let mut v = h;
    if v.len() > 0 && v[v.len() - 1] != '/' {
        v.push('/');
    }
    push_all(&mut v, q.as_slice());
    from_chars(v.as_slice())
}

/// The file of a script relative to the home directory, as `open_script` needs it:
/// when the file must exist, an unknown type names the extension and its error is
/// kept aside; otherwise an unknown type is an error.
pub fn script_file(name: &ScriptName, ty: &ScriptType, check_exist: Option<bool>, types: &TypeTable) -> (r:
    Result<(String, Option<Error>)>)
    ensures
        match type_lookup(types@, ty@) {
            Some(i) => r matches Ok((p, e)) && p@ == file_path_text(name@, types@[i].1) && e is None,
            None => if check_exist == Some(true) {
                r matches Ok((p, e)) && p@ == file_path_text(name@, Some(ty@)) && (e matches Some(
                    Error::UnknownType(t),
                ) && t@ == ty@)
            } else {
                r matches Err(Error::UnknownType(t)) && t@ == ty@
            },
        },
{
    if check_exist == Some(true) {
        let (p, e) = name.to_file_path_fallback(ty, types);
        Ok((p, e))
    } else {
        match name.to_file_path(ty, types) {
            Ok(p) => Ok((p, None)),
            Err(e) => Err(e),
        }
    }
}

/// The decision on a script's file `path` once it is known whether it `exists`:
/// a file that must exist and does not is an error (the error kept aside by
/// `script_file` first), and so is a file that must not exist and does.
pub fn check_open(path: String, exists: bool, check_exist: Option<bool>, err_in_fallback: Option<Error>) -> (r:
    Result<String>)
    ensures
        match check_exist {
            Some(true) => if exists {
                r == Ok::<String, Error>(path)
            } else {
                match err_in_fallback {
                    Some(e) => r == Err::<String, Error>(e),
                    None => r matches Err(Error::PathNotFound(ps)) && ps.len() == 1 && ps[0] == path,
                }
            },
            Some(false) => if exists {
                r matches Err(Error::PathExist(p)) && p == path
            } else {
                r == Ok::<String, Error>(path)
            },
            None => r == Ok::<String, Error>(path),
        },
{
    match check_exist {
        Some(should_exist) => {
            if !exists && should_exist {
                if let Some(e) = err_in_fallback {
                    return Err(e);
                }
                let mut ps: Vec<String> = Vec::new();
                ps.push(path);
                return Err(Error::PathNotFound(ps).context("開腳本失敗：應存在卻不存在"));
            } else if exists && !should_exist {
                return Err(Error::PathExist(path).context("開腳本失敗：不應存在卻存在"));
            }
            Ok(path)
        },
        None => Ok(path),
    }
}

/// Whether `path` is among the files that exist.
fn contains_path(existing: &Vec<String>, path: &str) -> (r: bool)
    ensures
        r == existing@.map_values(|s: String| s@).contains(path@),
{
    let ghost ev = existing@.map_values(|s: String| s@);
    let mut i: usize = 0;
    while i < existing.len()
        invariant
            ev == existing@.map_values(|s: String| s@),
            i <= existing@.len(),
            forall|j: int| 0 <= j < i ==> ev[j] != path@,
        decreases existing@.len() - i,
    {
        if str_eq(existing[i].as_str(), path) {
            assert(ev[i as int] == path@);
            return true;
        }
        i = i + 1;
    }
    false
}

/// The file of a script under `home`, given the files that exist. With
/// `check_exist` set, the file must exist (`Some(true)`; the type may then be
/// unknown, its name serving as extension) or must not (`Some(false)`).
pub fn open_script(
    name: &ScriptName,
    ty: &ScriptType,
    check_exist: Option<bool>,
    home: &str,
    types: &TypeTable,
    existing: &Vec<String>,
) -> (r: Result<String>)
    ensures
        ({
            let files = existing@.map_values(|s: String| s@);
            match type_lookup(types@, ty@) {
                Some(i) => {
                    let p = join_path(home@, file_path_text(name@, types@[i].1));
                    match check_exist {
                        Some(true) => if files.contains(p) {
                            r matches Ok(q) && q@ == p
                        } else {
                            r matches Err(Error::PathNotFound(ps)) && ps.len() == 1 && ps[0]@ == p
                        },
                        Some(false) => if files.contains(p) {
                            r matches Err(Error::PathExist(q)) && q@ == p
                        } else {
                            r matches Ok(q) && q@ == p
                        },
                        None => r matches Ok(q) && q@ == p,
                    }
                },
                None => {
                    let p = join_path(home@, file_path_text(name@, Some(ty@)));
                    if check_exist == Some(true) && files.contains(p) {
                        r matches Ok(q) && q@ == p
                    } else {
                        r matches Err(Error::UnknownType(t)) && t@ == ty@
                    }
                },
            }
        }),
{
    let (rel, err_in_fallback) = match script_file(name, ty, check_exist, types) {
        Ok(x) => x,
        Err(e) => return Err(e),
    };
    let path = join_home(home, rel.as_str());
    let exists = contains_path(existing, path.as_str());
    check_open(path, exists, check_exist, err_in_fallback)
}

/// The stack of directories left by the parts of a path: empty parts and `.` are
/// skipped, `..` drops the last directory.
pub open spec fn norm_stack(parts: Seq<Seq<char>>) -> Seq<Seq<char>>
    decreases parts.len(),
{
    if parts.len() == 0 {
        Seq::empty()
    } else {
        let st = norm_stack(parts.drop_last());
        let p = parts.last();
        if p.len() == 0 || p == seq!['.'] {
            st
        } else if p == seq!['.', '.'] {
            if st.len() > 0 {
                st.drop_last()
            } else {
                st
            }
        } else {
            st.push(p)
        }
    }
}

/// A path without `.`, `..` or repeated separators.
pub open spec fn normalized(p: Seq<char>) -> Seq<char> {
    let st = join_seq(norm_stack(split_seq(p, seq!['/'])), seq!['/']);
    if p.len() > 0 && p[0] == '/' {
        seq!['/'] + st
    } else {
        st
    }
}

/// `path` made absolute against the directory `here`, then normalized.
pub fn normalize_path(path: &str, here: &str) -> (r: String)
    ensures
        r@ == normalized(if path@.len() > 0 && path@[0] == '/' {
            path@
        } else {
            join_path(here@, path@)
        }),
{
    let full = join_home(here, path);
    assert(full@ == if path@.len() > 0 && path@[0] == '/' {
        path@
    } else {
        join_path(here@, path@)
    });
    let v = to_chars(full.as_str());
    let sep = vec!['/'];
    assert(sep@ =~= seq!['/']);
    let parts = crate::text::split(v.as_slice(), sep.as_slice());
    let ghost pv = parts.deep_view();
    let mut st: Vec<Vec<char>> = Vec::new();
    let mut i: usize = 0;
    assert(pv.take(0) =~= Seq::<Seq<char>>::empty());
    assert(st.deep_view() =~= norm_stack(pv.take(0)));
    while i < parts.len()
        invariant
            pv == parts.deep_view(),
            pv.len() == parts@.len(),
            i <= parts@.len(),
            st.deep_view() == norm_stack(pv.take(i as int)),
        decreases parts@.len() - i,
    {
        let p = &parts[i];
        assert(p@ == pv[i as int]);
        assert(pv.take(i + 1).drop_last() =~= pv.take(i as int));
        assert(pv.take(i + 1).last() == p@);
        let ghost before = st.deep_view();
        if p.len() == 0 || (p.len() == 1 && p[0] == '.') {
            assert(p@.len() == 1 ==> p@ =~= seq!['.']);
        } else if p.len() == 2 && p[0] == '.' && p[1] == '.' {
            assert(p@ =~= seq!['.', '.']);
            if st.len() > 0 {
                st.pop();
                assert(st.deep_view() =~= before.drop_last());
            }
        } else {
            assert(p@ != seq!['.']);
            assert(p@ != seq!['.', '.']);
            let q = sub_chars(p.as_slice(), 0, p.len());
            assert(q@ =~= p@);
            st.push(q);
            assert(st.deep_view() =~= before.push(p@));
        }
        i = i + 1;
    }
    assert(pv.take(parts@.len() as int) =~= pv);
    let body = join(&st, sep.as_slice());
    if v.len() > 0 && v[0] == '/' {
        let mut out: Vec<char> = Vec::new();
        out.push('/');
        push_all(&mut out, body.as_slice());
        assert(out@ =~= seq!['/'] + body@);
        from_chars(out.as_slice())
    } else {
        from_chars(body.as_slice())
    }
}

/// The number naming an anonymous script's file: the text before the first `.`
/// read as a `u32`.
pub open spec fn anonymous_id_text(name: Seq<char>) -> Option<nat> {
    let pre = match split_once_seq(name, seq!['.']) {
        Some((pre, _)) => pre,
        None => name,
    };
    spec_parse_nat(pre, u32::MAX as nat)
}

/// The id of the anonymous script whose file is called `name`, if it names one.
pub fn anonymous_id_of(name: &str) -> (r: Option<u32>)
    ensures
        match r {
            Some(id) => anonymous_id_text(name@) == Some(id as nat),
            None => anonymous_id_text(name@) is None,
        },
{
    let v = to_chars(name);
    let end = match find_char(v.as_slice(), '.') {
        Some(i) => {
            proof {
                crate::text::lemma_find_sub_spec(v@, seq!['.']);
            }
            i
        },
        None => v.len(),
    };
    let pre = sub_chars(v.as_slice(), 0, end);
    assert(pre@ =~= match split_once_seq(name@, seq!['.']) {
        Some((p, _)) => p,
        None => name@,
    });
    parse_u32(pre.as_slice())
}

/// Hands out names for new anonymous scripts: the smallest ids above the last one
/// given that no script holds.
#[derive(Debug)]
pub struct NewAnonymouseIter {
    existing_ids: Vec<u32>,
    amount: u32,
    cur_id: u32,
}

impl NewAnonymouseIter {
    /// The ids held, how many names are left to hand out, and the last id
    /// considered.
    pub closed spec fn spec_state(&self) -> (Seq<u32>, u32, u32) {
        (self.existing_ids@, self.amount, self.cur_id)
    }

    /// The next name, or `None` once `amount` names were handed out.
    pub fn next(&mut self) -> (r: Option<ScriptName>)
        requires
            old(self).spec_state().1 > 0 ==> exists|i: u32|
                old(self).spec_state().2 < i && !old(self).spec_state().0.contains(i),
        ensures
            old(self).spec_state().1 == 0 ==> r is None && final(self).spec_state() == old(self).spec_state(),
            old(self).spec_state().1 > 0 ==> ({
                let (ids, amount, cur) = old(self).spec_state();
                &&& r matches Some(ScriptName::Anonymous(id))
                &&& cur < id && !ids.contains(id)
                &&& forall|j: u32| cur < j < id ==> ids.contains(j)
                &&& final(self).spec_state() == (ids, (amount - 1) as u32, id)
            }),
    {
        if self.amount == 0 {
            return None;
        }
        let ghost target = choose|i: u32| self.cur_id < i && !self.existing_ids@.contains(i);
        let ghost cur0 = self.cur_id;
        loop
            invariant
                self.amount > 0,
                self.amount == old(self).amount,
                self.existing_ids == old(self).existing_ids,
                cur0 == old(self).cur_id,
                cur0 <= self.cur_id < target,
                !self.existing_ids@.contains(target),
                forall|j: u32| cur0 < j <= self.cur_id ==> self.existing_ids@.contains(j),
            decreases target - self.cur_id,
        {
            self.cur_id = self.cur_id + 1;
            if !vec_contains(&self.existing_ids, self.cur_id) {
                self.amount = self.amount - 1;
                return Some(ScriptName::Anonymous(self.cur_id));
            }
        }
    }
}

fn vec_contains(v: &Vec<u32>, x: u32) -> (r: bool)
    ensures
        r == v@.contains(x),
{
    let mut i: usize = 0;
    while i < v.len()
        invariant
            i <= v@.len(),
            forall|j: int| 0 <= j < i ==> v@[j] != x,
        decreases v@.len() - i,
    {
        if v[i] == x {
            return true;
        }
        i = i + 1;
    }
    false
}

/// Names for `amount` new anonymous scripts, avoiding the ids in `existing`.
pub fn new_anonymous_name(amount: u32, existing: Vec<u32>) -> (r: NewAnonymouseIter)
    ensures
        r.spec_state() == (existing@, amount, 0u32),
{
    NewAnonymouseIter { existing_ids: existing, amount, cur_id: 0 }
}

/// Directory of the process locks.
pub open spec fn process_lock_dir() -> Seq<char> {
    seq!['.', 'h', 's', '_', 'p', 'r', 'o', 'c', 'e', 's', 's', '_', 'l', 'o', 'c', 'k']
}

/// The lock file of a run under `home`.
pub fn get_process_lock(home: &str, run_id: i64) -> (r: String)
    ensures
        r@ == join_path(join_path(home@, process_lock_dir()), signed_decimal(run_id as int)),
{
    let dir = vec!['.', 'h', 's', '_', 'p', 'r', 'o', 'c', 'e', 's', 's', '_', 'l', 'o', 'c', 'k'];
    assert(dir@ =~= process_lock_dir());
    let lock_dir = join_home(home, from_chars(dir.as_slice()).as_str());
    let d = signed_decimal_chars(run_id);
    join_home(lock_dir.as_str(), from_chars(d.as_slice()).as_str())
}

/// The file under a home that points to another home.
pub open spec fn hs_redirect() -> Seq<char> {
    seq!['.', 'h', 's', '_', 'r', 'e', 'd', 'i', 'r', 'e', 'c', 't']
}

/// The home used when none is given: `hyper_scripter` under the configuration
/// directory of the system, which must be known.
pub fn get_default_home(config_dir: Option<String>) -> (r: Result<String>)
    ensures
        match config_dir {
            Some(d) => r matches Ok(h) && h@ == join_path(d@, "hyper_scripter"@),
            None => r matches Err(Error::SysPathNotFound(SysPath::Config)),
        },
{
    match config_dir {
        Some(d) => Ok(join_home(d.as_str(), "hyper_scripter")),
        None => Err(Error::SysPathNotFound(SysPath::Config)),
    }
}

/// How the variable naming the home was found: set, unset, or set to text that
/// is not Unicode.
#[derive(Debug)]
pub enum HomeVar {
    Value(String),
    NotPresent,
    NotUnicode,
}

/// The home of the system: the variable's value when it is set, the default home
/// when it is not, and an error when it is not Unicode.
pub fn get_sys_home(var: HomeVar, config_dir: Option<String>) -> (r: Result<String>)
    ensures
        match var {
            HomeVar::Value(p) => r matches Ok(h) && h@ == p@,
            HomeVar::NotPresent => match config_dir {
                Some(d) => r matches Ok(h) && h@ == join_path(d@, "hyper_scripter"@),
                None => r matches Err(Error::SysPathNotFound(SysPath::Config)),
            },
            HomeVar::NotUnicode => r matches Err(Error::Others(..)),
        },
{
    match var {
        HomeVar::Value(p) => Ok(p),
        HomeVar::NotPresent => get_default_home(config_dir),
        HomeVar::NotUnicode => Err(Error::msg("environment variable was not valid unicode")),
    }
}

/// `path` made absolute against the working directory `here`.
pub fn join_here_abs(path: &str, here: &str) -> (r: String)
    ensures
        r@ == join_path(here@, path@),
{
    join_home(here, path)
}

/// What is done with a candidate home: use it, create it first, or follow the
/// redirect file it holds.
#[derive(Debug)]
pub enum HomeAction {
    UseIt,
    CreateThenUse,
    FollowRedirect(String),
}

/// The decision about the candidate home `path`: a missing one is created when
/// `create_on_missing` holds, and is an error otherwise; an existing one holding
/// a redirect file is left for the home that file names; otherwise it is used.
pub fn home_action(path: &str, exists: bool, create_on_missing: bool, redirect_is_file: bool) -> (r: Result<HomeAction>)
    ensures
        !exists && create_on_missing ==> r matches Ok(HomeAction::CreateThenUse),
        !exists && !create_on_missing ==> (r matches Err(Error::PathNotFound(v)) && v@.len() == 1 && v@[0]@ == path@),
        exists && redirect_is_file ==> (r matches Ok(HomeAction::FollowRedirect(f)) && f@ == join_path(path@, hs_redirect())),
        exists && !redirect_is_file ==> r matches Ok(HomeAction::UseIt),
{
    if !exists {
        if create_on_missing {
            Ok(HomeAction::CreateThenUse)
        } else {
            let mut v: Vec<String> = Vec::new();
            v.push(path.to_owned());
            Err(Error::PathNotFound(v))
        }
    } else if redirect_is_file {
        let f = vec!['.', 'h', 's', '_', 'r', 'e', 'd', 'i', 'r', 'e', 'c', 't'];
        assert(f@ =~= hs_redirect());
        Ok(HomeAction::FollowRedirect(join_home(path, from_chars(f.as_slice()).as_str())))
    } else {
        Ok(HomeAction::UseIt)
    }
}

/// The home a redirect file of `path` names: its trimmed content under `path`.
pub fn redirect_target(path: &str, content: &str) -> (r: String)
    ensures
        r@ == join_path(path@, crate::text::trimmed(content@)),
{
    let t = crate::text::trim(content);
    join_home(path, t.as_str())
}

/// The database of a home.
pub fn get_file(home: &str) -> (r: String)
    ensures
        r@ == join_path(home@, ".script_info.db"@),
{
    join_home(home, ".script_info.db")
}

/// The SQL file a new database of a home starts from.
pub fn get_sql_file(home: &str) -> (r: String)
    ensures
        r@ == join_path(home@, ".script_info.sql"@),
{
    join_home(home, ".script_info.sql")
}

/// The home used by the tests of a project in `manifest_dir`.
pub fn get_test_home(manifest_dir: &str) -> (r: String)
    ensures
        r@ == join_path(manifest_dir@, ".test_hyper_scripter"@),
{
    join_home(manifest_dir, ".test_hyper_scripter")
}

/// A part of a normalized path: not empty, not `.` or `..`, without `/`.
pub open spec fn clean_part(p: Seq<char>) -> bool {
    p.len() > 0 && p != seq!['.'] && p != seq!['.', '.'] && crate::text::free_of(p, '/')
}

proof fn lemma_split_parts_free(s: Seq<char>)
    ensures
        forall|i: int|
            0 <= i < split_seq(s, seq!['/']).len() ==> crate::text::free_of(#[trigger] split_seq(s, seq!['/'])[i], '/'),
    decreases s.len(),
{
    crate::text::lemma_find_sub_spec(s, seq!['/']);
    match crate::text::find_sub(s, seq!['/']) {
        None => {
            assert forall|j: int| 0 <= j < s.len() implies s[j] != '/' by {
                if s[j] == '/' {
                    assert(s.subrange(j, j + 1) =~= seq!['/']);
                    assert(crate::text::matches_at(s, seq!['/'], j));
                }
            }
        },
        Some(i) => {
            lemma_split_parts_free(s.skip(i + 1));
            let a = s.take(i);
            assert forall|j: int| 0 <= j < a.len() implies a[j] != '/' by {
                if a[j] == '/' {
                    assert(s.subrange(j, j + 1) =~= seq!['/']);
                    assert(crate::text::matches_at(s, seq!['/'], j));
                }
            }
            let rest = split_seq(s.skip(i + 1), seq!['/']);
            assert forall|k: int| 0 <= k < split_seq(s, seq!['/']).len() implies crate::text::free_of(
                #[trigger] split_seq(s, seq!['/'])[k],
                '/',
            ) by {
                if k > 0 {
                    assert(split_seq(s, seq!['/'])[k] == rest[k - 1]);
                }
            }
        },
    }
}

proof fn lemma_norm_stack_clean(parts: Seq<Seq<char>>)
    requires
        forall|i: int| 0 <= i < parts.len() ==> crate::text::free_of(#[trigger] parts[i], '/'),
    ensures
        forall|i: int| 0 <= i < norm_stack(parts).len() ==> clean_part(#[trigger] norm_stack(parts)[i]),
    decreases parts.len(),
{
    if parts.len() > 0 {
        let d = parts.drop_last();
        assert forall|i: int| 0 <= i < d.len() implies crate::text::free_of(#[trigger] d[i], '/') by {
            assert(d[i] == parts[i]);
        }
        lemma_norm_stack_clean(d);
        assert(crate::text::free_of(parts[parts.len() - 1], '/'));
        let st = norm_stack(d);
        let p = parts.last();
        assert forall|i: int| 0 <= i < norm_stack(parts).len() implies clean_part(#[trigger] norm_stack(parts)[i]) by {
            if p.len() == 0 || p == seq!['.'] {
            } else if p == seq!['.', '.'] {
                if st.len() > 0 {
                    assert(st.drop_last()[i] == st[i]);
                }
            } else {
                if i < st.len() {
                    assert(st.push(p)[i] == st[i]);
                } else {
                    assert(st.push(p)[i] == p);
                }
            }
        }
    }
}

proof fn lemma_norm_stack_append(a: Seq<Seq<char>>, b: Seq<Seq<char>>)
    requires
        forall|i: int| 0 <= i < b.len() ==> clean_part(#[trigger] b[i]),
    ensures
        norm_stack(a + b) == norm_stack(a) + b,
    decreases b.len(),
{
    if b.len() == 0 {
        assert(a + b =~= a);
        assert(norm_stack(a) + b =~= norm_stack(a));
    } else {
        let d = b.drop_last();
        assert forall|i: int| 0 <= i < d.len() implies clean_part(#[trigger] d[i]) by {
            assert(d[i] == b[i]);
        }
        lemma_norm_stack_append(a, d);
        assert((a + b).drop_last() =~= a + d);
        assert((a + b).last() == b.last());
        assert(clean_part(b[b.len() - 1]));
        assert(norm_stack(a) + b =~= (norm_stack(a) + d).push(b.last()));
    }
}

proof fn lemma_norm_stack_blank()
    ensures
        norm_stack(seq![Seq::<char>::empty()]) == Seq::<Seq<char>>::empty(),
{
    let one = seq![Seq::<char>::empty()];
    assert(one.drop_last() =~= Seq::<Seq<char>>::empty());
    assert(norm_stack(Seq::<Seq<char>>::empty()) == Seq::<Seq<char>>::empty());
    assert(one.last().len() == 0);
}

/// Normalizing leaves only clean parts (no empty part, `.` or `..`), and a
/// normalized path is its own normal form.
pub proof fn law_normalized_clean_and_idempotent(p: Seq<char>)
    ensures
        forall|i: int|
            0 <= i < norm_stack(split_seq(p, seq!['/'])).len() ==> clean_part(
                #[trigger] norm_stack(split_seq(p, seq!['/']))[i],
            ),
        normalized(normalized(p)) == normalized(p),
{
    let parts = split_seq(p, seq!['/']);
    lemma_split_parts_free(p);
    lemma_norm_stack_clean(parts);
    let st = norm_stack(parts);
    let body = join_seq(st, seq!['/']);
    let q = normalized(p);
    let abs = p.len() > 0 && p[0] == '/';
    if st.len() == 0 {
        assert(body =~= Seq::<char>::empty());
        if abs {
            assert(q =~= seq!['/']);
            assert(seq!['/'] =~= Seq::<char>::empty() + seq!['/'] + Seq::<char>::empty());
            crate::text::lemma_split_step(Seq::<char>::empty(), '/', Seq::<char>::empty());
            crate::text::lemma_split_free(Seq::<char>::empty(), '/');
            assert(split_seq(q, seq!['/']) =~= seq![Seq::<char>::empty(), Seq::<char>::empty()]);
            let e = seq![Seq::<char>::empty(), Seq::<char>::empty()];
            assert(e.drop_last() =~= seq![Seq::<char>::empty()]);
            assert(seq![Seq::<char>::empty()].drop_last() =~= Seq::<Seq<char>>::empty());
            lemma_norm_stack_blank();
            assert(norm_stack(e) =~= Seq::<Seq<char>>::empty());
            assert(normalized(q) == seq!['/'] + join_seq(Seq::<Seq<char>>::empty(), seq!['/']));
            assert(normalized(q) =~= q);
        } else {
            assert(q =~= Seq::<char>::empty());
            crate::text::lemma_split_free(Seq::<char>::empty(), '/');
            assert(seq![Seq::<char>::empty()].drop_last() =~= Seq::<Seq<char>>::empty());
            lemma_norm_stack_blank();
            assert(normalized(q) =~= q);
        }
    } else {
        assert forall|i: int| 0 <= i < st.len() implies crate::text::free_of(#[trigger] st[i], '/') by {
            assert(clean_part(st[i]));
        }
        crate::text::lemma_split_join(st, '/');
        assert(clean_part(st[0]));
        crate::text::lemma_join_first_char(st, seq!['/']);
        lemma_norm_stack_append(Seq::<Seq<char>>::empty(), st);
        assert(Seq::<Seq<char>>::empty() + st =~= st);
        if abs {
            assert(q == seq!['/'] + body);
            assert(seq!['/'] + body =~= Seq::<char>::empty() + seq!['/'] + body);
            crate::text::lemma_split_step(Seq::<char>::empty(), '/', body);
            lemma_norm_stack_append(seq![Seq::<char>::empty()], st);
            assert(seq![Seq::<char>::empty()].drop_last() =~= Seq::<Seq<char>>::empty());
            lemma_norm_stack_blank();
            assert(Seq::<Seq<char>>::empty() + st =~= st);
            assert(split_seq(q, seq!['/']) =~= seq![Seq::<char>::empty()] + st);
            assert(norm_stack(split_seq(q, seq!['/'])) == st);
            assert(q.len() > 0 && q[0] == '/');
            assert(normalized(q) =~= q);
        } else {
            assert(q == body);
            assert(crate::text::free_of(st[0], '/'));
            assert(st[0][0] != '/');
            assert(norm_stack(Seq::<Seq<char>>::empty()) =~= Seq::<Seq<char>>::empty());
            assert(norm_stack(st) == st);
            assert(normalized(q) =~= q);
        }
    }
}

} // verus!
