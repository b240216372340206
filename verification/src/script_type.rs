//! Script types (the interpreter a script runs with) and their optional sub-types.
use crate::error::{DisplayError, DisplayResult, Error, FormatCode, Parsed, Result};
use crate::text::{
    find_char, find_sub, from_chars, lemma_find_sub_spec, push_str, split_once_seq, sub_string,
    to_chars,
};
use crate::util::{illegal_name, is_illegal_name};
use crate::render::{
    is_render_err, lemma_rendered_all_stops, lemma_rendered_pairs_stops, rendered_all, rendered_pairs, TemplateInfo,
};
use vstd::prelude::*;

verus! {

/// A script type, such as `sh` or `rb`.
#[derive(Debug, Clone)]
pub struct ScriptType(pub String);

impl View for ScriptType {
    type V = Seq<char>;

    open spec fn view(&self) -> Seq<char> {
        self.0@
    }
}

/// `e` is the format error of kind `c` for the text `t`.
pub open spec fn is_format_err(e: Error, c: FormatCode, t: Seq<char>) -> bool {
    e matches Error::Format(c2, t2) && c2 == c && t2@ == t
}

/// Parse result of a name checked by `is_illegal_name`, reporting failures with `code`.
pub open spec fn checked_name(s: Seq<char>, code: FormatCode) -> Parsed<Seq<char>> {
    if is_illegal_name(s) {
        Err((code, s))
    } else {
        Ok(s)
    }
}

/// A display result `r` agrees with the spec result `spec` (values compared by view).
pub open spec fn agrees<T: View>(r: DisplayResult<T>, spec: Parsed<T::V>) -> bool {
    match r {
        Ok(v) => spec == Ok::<T::V, (FormatCode, Seq<char>)>(v@),
        Err(e) => spec matches Err((c, t)) && is_format_err(e.0, c, t),
    }
}

impl ScriptType {
    pub fn new_unchecked(s: String) -> (r: ScriptType)
        ensures
            r@ == s@,
    {
        ScriptType(s)
    }

    pub fn as_ref(&self) -> (r: &str)
        ensures
            r@ == self@,
    {
        self.0.as_str()
    }

    /// Parses a type name, refusing illegal names.
    pub fn from_str(s: &str) -> (r: DisplayResult<ScriptType>)
        ensures
            agrees(r, checked_name(s@, FormatCode::ScriptType)),
    {
        if illegal_name(s) {
            return FormatCode::ScriptType.to_display_res(s.to_owned());
        }
        Ok(ScriptType(s.to_owned()))
    }

    /// The type of a script when none is given: `sh`.
    pub fn default() -> (r: ScriptType)
        ensures
            r@ == seq!['s', 'h'],
    {
        let r = ScriptType(from_chars(&['s', 'h']));
        assert(r@ =~= seq!['s', 'h']);
        r
    }
}

/// A type with an optional sub-type, written `ty` or `ty/sub`.
#[derive(Debug, Clone)]
pub struct ScriptFullType {
    pub ty: ScriptType,
    pub sub: Option<ScriptType>,
}

impl View for ScriptFullType {
    type V = (Seq<char>, Option<Seq<char>>);

    open spec fn view(&self) -> (Seq<char>, Option<Seq<char>>) {
        (
            self.ty@,
            match self.sub {
                Some(s) => Some(s@),
                None => None,
            },
        )
    }
}

/// How `ScriptFullType::from_str` reads `s`.
pub open spec fn spec_full_type(s: Seq<char>) -> Parsed<(Seq<char>, Option<Seq<char>>)> {
    match split_once_seq(s, seq!['/']) {
        Some((first, second)) => match checked_name(first, FormatCode::ScriptType) {
            Err(e) => Err(e),
            Ok(t) => match checked_name(second, FormatCode::ScriptType) {
                Err(e) => Err(e),
                Ok(u) => Ok((t, Some(u))),
            },
        },
        None => match checked_name(s, FormatCode::ScriptType) {
            Err(e) => Err(e),
            Ok(t) => Ok((t, None)),
        },
    }
}

/// Text of a full type: `ty` or `ty/sub`.
pub open spec fn full_type_text(v: (Seq<char>, Option<Seq<char>>)) -> Seq<char> {
    match v.1 {
        Some(sub) => v.0 + seq!['/'] + sub,
        None => v.0,
    }
}

impl ScriptFullType {
    /// Parses `ty` or `ty/sub`; the first illegal part is reported.
    pub fn from_str(s: &str) -> (r: DisplayResult<ScriptFullType>)
        ensures
            agrees(r, spec_full_type(s@)),
    {
        let v = to_chars(s);
        match find_char(v.as_slice(), '/') {
            Some(i) => {
                proof {
                    lemma_find_sub_spec(s@, seq!['/']);
                }
                let first = sub_string(v.as_slice(), 0, i);
                let second = sub_string(v.as_slice(), i + 1, v.len());
                assert(first@ =~= s@.take(i as int));
                assert(second@ =~= s@.skip(i + 1));
                let ty = ScriptType::from_str(first.as_str())?;
                let sub = ScriptType::from_str(second.as_str())?;
                Ok(ScriptFullType { ty, sub: Some(sub) })
            },
            None => {
                let ty = ScriptType::from_str(s)?;
                Ok(ScriptFullType { ty, sub: None })
            },
        }
    }

    /// `sh` without a sub-type.
    pub fn default() -> (r: ScriptFullType)
        ensures
            r@ == (seq!['s', 'h'], None::<Seq<char>>),
    {
        ScriptFullType { ty: ScriptType::default(), sub: None }
    }

    /// The text `ty` or `ty/sub`.
    pub fn to_string(&self) -> (r: String)
        ensures
            r@ == full_type_text(self@),
    {
        display_full_type(&self.ty, self.sub.as_ref())
    }
}

/// The text `ty` or `ty/sub` of a type and an optional sub-type.
pub fn display_full_type(ty: &ScriptType, sub: Option<&ScriptType>) -> (r: String)
    ensures
        r@ == full_type_text(
            (
                ty@,
                match sub {
                    Some(s) => Some(s@),
                    None => None,
                },
            ),
        ),
{
    let mut v = to_chars(ty.as_ref());
    match sub {
        Some(s) => {
            v.push('/');
            push_str(&mut v, s.as_ref());
        },
        None => {},
    }
    from_chars(v.as_slice())
}

/// Something that names a type and an optional sub-type.
pub trait AsScriptFullTypeRef {
    fn get_ty(&self) -> &ScriptType;

    fn get_sub(&self) -> Option<&ScriptType>;
}

impl AsScriptFullTypeRef for ScriptFullType {
    fn get_ty(&self) -> (r: &ScriptType)
        ensures
            *r == self.ty,
    {
        &self.ty
    }

    fn get_sub(&self) -> (r: Option<&ScriptType>)
        ensures
            match self.sub {
                Some(s) => r matches Some(t) && *t == s,
                None => r is None,
            },
    {
        match &self.sub {
            Some(s) => Some(s),
            None => None,
        }
    }
}

/// Shows a type and its sub-type as `ty/sub`.
pub struct DisplayTy<'a>(pub &'a ScriptType, pub Option<&'a ScriptType>);

impl<'a> DisplayTy<'a> {
    pub fn to_string(&self) -> (r: String)
        ensures
            r@ == full_type_text(
                (
                    self.0@,
                    match self.1 {
                        Some(s) => Some(s@),
                        None => None,
                    },
                ),
            ),
    {
        display_full_type(self.0, self.1)
    }
}

/// How scripts of one type are stored and run.
#[derive(Debug, Clone)]
pub struct ScriptTypeConfig {
    pub ext: Option<String>,
    pub color: String,
    pub cmd: Option<String>,
    pub args: Vec<String>,
    pub env: Vec<(String, String)>,
}

/// How a type's scripts are run: the command, its arguments and the extra
/// environment, the last two as templates.
pub type RunV = (Option<Seq<char>>, Seq<Seq<char>>, Seq<(Seq<char>, Seq<char>)>);

/// View of a type's configuration: `(type name, file extension, color name, how
/// its scripts are run)`.
pub type TypeEntryV = (Seq<char>, Option<Seq<char>>, Seq<char>, RunV);

impl ScriptTypeConfig {
    /// The arguments of the command, each template rendered with `info`; the
    /// first failure is the error.
    pub fn args(&self, info: &TemplateInfo) -> (r: crate::error::Result<Vec<String>>)
        ensures
            match rendered_all(self.args.deep_view(), info@) {
                Some(v) => r matches Ok(out) && out.deep_view() == v,
                None => r matches Err(e) && is_render_err(e),
            },
    {
        let ghost ts = self.args.deep_view();
        let mut out: Vec<String> = Vec::new();
        let mut i: usize = 0;
        assert(ts.take(0) =~= Seq::<Seq<char>>::empty());
        while i < self.args.len()
            invariant
                i <= self.args@.len(),
                ts == self.args.deep_view(),
                rendered_all(ts.take(i as int), info@) == Some(out.deep_view()),
            decreases self.args@.len() - i,
        {
            assert(ts.take(i + 1).drop_last() =~= ts.take(i as int));
            assert(ts.take(i + 1).last() == self.args@[i as int]@);
            match crate::render::render(self.args[i].as_str(), info) {
                Ok(res) => {
                    let ghost before = out.deep_view();
                    out.push(res);
                    assert(out.deep_view() =~= before.push(res@));
                },
                Err(e) => {
                    proof {
                        lemma_rendered_all_stops(ts, info@, i + 1, ts.len() as int);
                        assert(ts.take(ts.len() as int) =~= ts);
                    }
                    return Err(e);
                },
            }
            i = i + 1;
        }
        assert(ts.take(ts.len() as int) =~= ts);
        Ok(out)
    }

    /// The environment of a run: each variable with its template rendered with
    /// `info`; the first failure is the error.
    pub fn gen_env(&self, info: &TemplateInfo) -> (r: crate::error::Result<Vec<(String, String)>>)
        ensures
            match rendered_pairs(crate::config::env_view(self.env@), info@) {
                Some(v) => r matches Ok(out) && crate::config::env_view(out@) == v,
                None => r matches Err(e) && is_render_err(e),
            },
    {
        let ghost ev = crate::config::env_view(self.env@);
        let mut out: Vec<(String, String)> = Vec::new();
        let mut i: usize = 0;
        assert(ev.take(0) =~= Seq::<(Seq<char>, Seq<char>)>::empty());
        assert(crate::config::env_view(out@) =~= Seq::<(Seq<char>, Seq<char>)>::empty());
        while i < self.env.len()
            invariant
                i <= self.env@.len(),
                ev == crate::config::env_view(self.env@),
                rendered_pairs(ev.take(i as int), info@) == Some(crate::config::env_view(out@)),
            decreases self.env@.len() - i,
        {
            assert(ev.take(i + 1).drop_last() =~= ev.take(i as int));
            assert(ev.take(i + 1).last() == ev[i as int]);
            match crate::render::render(self.env[i].1.as_str(), info) {
                Ok(res) => {
                    let ghost before = crate::config::env_view(out@);
                    let name = self.env[i].0.clone();
                    out.push((name, res));
                    assert(crate::config::env_view(out@) =~= before.push((ev[i as int].0, res@)));
                },
                Err(e) => {
                    proof {
                        lemma_rendered_pairs_stops(ev, info@, i + 1, ev.len() as int);
                        assert(ev.take(ev.len() as int) =~= ev);
                    }
                    return Err(e);
                },
            }
            i = i + 1;
        }
        assert(ev.take(ev.len() as int) =~= ev);
        Ok(out)
    }
}

/// The configured script types, in the order they are looked up.
#[derive(Debug, Clone)]
pub struct TypeTable(pub Vec<(ScriptType, ScriptTypeConfig)>);

impl View for TypeTable {
    type V = Seq<TypeEntryV>;

    open spec fn view(&self) -> Seq<TypeEntryV> {
        self.0@.map_values(
            |e: (ScriptType, ScriptTypeConfig)|
                (
                    e.0@,
                    match e.1.ext {
                        Some(x) => Some(x@),
                        None => None,
                    },
                    e.1.color@,
                    run_view(e.1),
                ),
        )
    }
}

/// Position of the first entry for type `ty`.
pub open spec fn type_lookup(t: Seq<TypeEntryV>, ty: Seq<char>) -> Option<int>
    decreases t.len(),
{
    if t.len() == 0 {
        None
    } else {
        match type_lookup(t.drop_last(), ty) {
            Some(i) => Some(i),
            None => if t.last().0 == ty {
                Some(t.len() - 1)
            } else {
                None
            },
        }
    }
}

proof fn lemma_type_lookup(t: Seq<TypeEntryV>, ty: Seq<char>, i: int)
    requires
        0 <= i <= t.len(),
        forall|j: int| 0 <= j < i ==> #[trigger] t[j].0 != ty,
    ensures
        type_lookup(t.take(i), ty) is None,
    decreases i,
{
    if i > 0 {
        assert(t.take(i).drop_last() =~= t.take(i - 1));
        lemma_type_lookup(t, ty, i - 1);
    }
}

proof fn lemma_type_lookup_prefix(t: Seq<TypeEntryV>, ty: Seq<char>, i: int)
    requires
        0 <= i < t.len(),
        t[i].0 == ty,
        forall|j: int| 0 <= j < i ==> #[trigger] t[j].0 != ty,
    ensures
        type_lookup(t, ty) == Some(i),
    decreases t.len(),
{
    if i == t.len() - 1 {
        lemma_type_lookup(t, ty, i);
        assert(t.take(i) =~= t.drop_last());
    } else {
        lemma_type_lookup_prefix(t.drop_last(), ty, i);
    }
}

impl TypeTable {
    /// The configuration of type `ty`, or `UnknownType` naming it.
    pub fn get_script_conf(&self, ty: &ScriptType) -> (r: Result<&ScriptTypeConfig>)
        ensures
            match type_lookup(self@, ty@) {
                Some(i) => r matches Ok(c) && 0 <= i < self.0@.len() && *c == self.0@[i].1,
                None => r matches Err(Error::UnknownType(n)) && n@ == ty@,
            },
    {
        let mut i: usize = 0;
        while i < self.0.len()
            invariant
                i <= self.0@.len(),
                forall|j: int| 0 <= j < i ==> #[trigger] self@[j].0 != ty@,
            decreases self.0@.len() - i,
        {
            if crate::text::str_eq(self.0[i].0.as_ref(), ty.as_ref()) {
                proof {
                    lemma_type_lookup_prefix(self@, ty@, i as int);
                }
                return Ok(&self.0[i].1);
            }
            i = i + 1;
        }
        proof {
            lemma_type_lookup(self@, ty@, self@.len() as int);
            assert(self@.take(self@.len() as int) =~= self@);
        }
        Err(Error::UnknownType(ty.0.clone()))
    }
}

/// How a type's scripts are run: the command, its arguments (templates) and the
/// extra environment (templates).
pub open spec fn run_view(c: ScriptTypeConfig) -> RunV {
    (
        match c.cmd {
            Some(s) => Some(s@),
            None => None,
        },
        c.args.deep_view(),
        crate::config::env_view(c.env@),
    )
}

/// One default configuration: running `cmd {{path}}`, with no extra environment.
fn default_config(ext: Option<&str>, color: &str, cmd: &str) -> (r: ScriptTypeConfig)
    ensures
        match ext {
            Some(e) => r.ext matches Some(x) && x@ == e@,
            None => r.ext is None,
        },
        r.color@ == color@,
        run_view(r) == (Some(cmd@), seq!["{{path}}"@], Seq::<(Seq<char>, Seq<char>)>::empty()),
{
    let mut args: Vec<String> = Vec::new();
    args.push("{{path}}".to_owned());
    let ext = match ext {
        Some(e) => Some(e.to_owned()),
        None => None,
    };
    ScriptTypeConfig { ext, color: color.to_owned(), cmd: Some(cmd.to_owned()), args, env: Vec::new() }
}

/// The types known without any configuration, with their extensions, colors and
/// how they run: `bash`, `bash`, `node` (with `NODE_PATH` under the home), `node
/// -i -e` on the content (with `NODE_PATH`), `ruby` and `cat`, each on the
/// script's path but the interactive one.
pub open spec fn default_types() -> Seq<TypeEntryV> {
    let path = seq!["{{path}}"@];
    let node_path = seq![("NODE_PATH"@, "{{{home}}}/node_modules"@)];
    seq![
        ("sh"@, Some("sh"@), "bright magenta"@, (Some("bash"@), path, Seq::empty())),
        ("tmux"@, Some("sh"@), "white"@, (Some("bash"@), path, Seq::empty())),
        ("js"@, Some("js"@), "bright cyan"@, (Some("node"@), path, node_path)),
        ("js-i"@, Some("js"@), "bright cyan"@, (Some("node"@), seq!["-i"@, "-e"@, "{{{content}}}"@], node_path)),
        ("rb"@, Some("rb"@), "bright red"@, (Some("ruby"@), path, Seq::empty())),
        ("txt"@, None, "bright black"@, (Some("cat"@), path, Seq::empty())),
    ]
}

/// The types known without any configuration: `sh`, `tmux`, `js`, `js-i`, `rb` and
/// `txt`.
pub fn default_script_types() -> (r: TypeTable)
    ensures
        r@ == default_types(),
{
    let mut v: Vec<(ScriptType, ScriptTypeConfig)> = Vec::new();
    v.push((ScriptType("sh".to_owned()), default_config(Some("sh"), "bright magenta", "bash")));
    v.push((ScriptType("tmux".to_owned()), default_config(Some("sh"), "white", "bash")));
    let mut js_conf = default_config(Some("js"), "bright cyan", "node");
    js_conf.env.push(("NODE_PATH".to_owned(), "{{{home}}}/node_modules".to_owned()));
    assert(crate::config::env_view(js_conf.env@) =~= seq![("NODE_PATH"@, "{{{home}}}/node_modules"@)]);
    let ghost js_run = run_view(js_conf);
    assert(js_run == default_types()[2].3);
    v.push((ScriptType("js".to_owned()), js_conf));
    let mut jsi_conf = default_config(Some("js"), "bright cyan", "node");
    let mut jsi_args: Vec<String> = Vec::new();
    jsi_args.push("-i".to_owned());
    jsi_args.push("-e".to_owned());
    jsi_args.push("{{{content}}}".to_owned());
    jsi_conf.args = jsi_args;
    jsi_conf.env.push(("NODE_PATH".to_owned(), "{{{home}}}/node_modules".to_owned()));
    assert(crate::config::env_view(jsi_conf.env@) =~= seq![("NODE_PATH"@, "{{{home}}}/node_modules"@)]);
    assert(jsi_conf.args.deep_view() =~= seq!["-i"@, "-e"@, "{{{content}}}"@]);
    let ghost jsi_run = run_view(jsi_conf);
    assert(jsi_run == default_types()[3].3);
    v.push((ScriptType("js-i".to_owned()), jsi_conf));
    v.push((ScriptType("rb".to_owned()), default_config(Some("rb"), "bright red", "ruby")));
    v.push((ScriptType("txt".to_owned()), default_config(None, "bright black", "cat")));
    let r = TypeTable(v);
    assert(r@ =~= default_types());
    r
}

/// The words of the types listing for one type: its name, then, unless
/// `no_sub`, `type/sub` for each of its sub-types.
pub open spec fn type_words(ty: Seq<char>, subs: Seq<Seq<char>>, no_sub: bool) -> Seq<Seq<char>> {
    seq![ty] + if no_sub {
        Seq::empty()
    } else {
        subs.map_values(|s: Seq<char>| ty + seq!['/'] + s)
    }
}

/// The words of the types listing, type after type.
pub open spec fn types_words(types: Seq<(Seq<char>, Seq<Seq<char>>)>, no_sub: bool) -> Seq<Seq<char>>
    decreases types.len(),
{
    if types.len() == 0 {
        Seq::empty()
    } else {
        types_words(types.drop_last(), no_sub) + type_words(types.last().0, types.last().1, no_sub)
    }
}

/// The types listing: each type with its sub-types, separated by spaces.
pub fn types_line(types: &Vec<(String, Vec<String>)>, no_sub: bool) -> (r: String)
    ensures
        r@ == crate::text::join_seq(
            types_words(types@.map_values(|t: (String, Vec<String>)| (t.0@, t.1.deep_view())), no_sub),
            seq![' '],
        ),
{
    let ghost tv = types@.map_values(|t: (String, Vec<String>)| (t.0@, t.1.deep_view()));
    let mut words: Vec<String> = Vec::new();
    let mut i: usize = 0;
    while i < types.len()
        invariant
            i <= types@.len(),
            tv == types@.map_values(|t: (String, Vec<String>)| (t.0@, t.1.deep_view())),
            words.deep_view() == types_words(tv.take(i as int), no_sub),
        decreases types@.len() - i,
    {
        let ghost before = words.deep_view();
        let (ty, subs) = &types[i];
        words.push(ty.clone());
        let ghost head = words.deep_view();
        assert(head =~= before.push(ty@));
        if !no_sub {
            let mut j: usize = 0;
            while j < subs.len()
                invariant
                    j <= subs@.len(),
                    words.deep_view() == head + subs.deep_view().take(j as int).map_values(
                        |s: Seq<char>| ty@ + seq!['/'] + s,
                    ),
                decreases subs@.len() - j,
            {
                let mut v = crate::text::to_chars(ty.as_str());
                v.push('/');
                crate::text::push_str(&mut v, subs[j].as_str());
                let w = crate::text::from_chars(v.as_slice());
                assert(w@ =~= ty@ + seq!['/'] + subs@[j as int]@);
                let ghost prev = words.deep_view();
                words.push(w);
                proof {
                    let sd = subs.deep_view();
                    assert(sd[j as int] == subs@[j as int]@);
                    assert(sd.take(j + 1) =~= sd.take(j as int).push(sd[j as int]));
                    assert(words.deep_view() =~= prev.push(w@));
                    assert(sd.take(j + 1).map_values(|s: Seq<char>| ty@ + seq!['/'] + s) =~= sd.take(
                        j as int,
                    ).map_values(|s: Seq<char>| ty@ + seq!['/'] + s).push(ty@ + seq!['/'] + sd[j as int]));
                    let m = sd.take(j as int).map_values(|s: Seq<char>| ty@ + seq!['/'] + s);
                    assert(head + m.push(w@) =~= (head + m).push(w@));
                }
                j = j + 1;
            }
            assert(subs.deep_view().take(subs@.len() as int) =~= subs.deep_view());
        }
        proof {
            let t = tv.take(i + 1);
            assert(t.drop_last() =~= tv.take(i as int));
            assert(t.last() == (ty@, subs.deep_view()));
            assert(words.deep_view() =~= types_words(t, no_sub));
        }
        i = i + 1;
    }
    assert(tv.take(types@.len() as int) =~= tv);
    proof {
        reveal_strlit(" ");
    }
    assert(" "@ =~= seq![' ']);
    crate::text::join_strings(&words, " ")
}

/// The sub-type a template file of a type names: a file named `sub.hbs` gives
/// `sub`, read as a type name; other files name none.
pub fn sub_type_of(file_name: &str) -> (r: Option<DisplayResult<ScriptType>>)
    ensures
        ({
            let n = file_name@;
            let ext = seq!['.', 'h', 'b', 's'];
            if ext.is_suffix_of(n) {
                r matches Some(res) && agrees(res, checked_name(n.take(n.len() - 4), FormatCode::ScriptType))
            } else {
                r is None
            }
        }),
{
    let v = crate::text::to_chars(file_name);
    let ext = vec!['.', 'h', 'b', 's'];
    if !crate::text::ends_with(v.as_slice(), ext.as_slice()) {
        return None;
    }
    let stem = crate::text::from_chars(crate::text::sub_chars(v.as_slice(), 0, v.len() - 4).as_slice());
    assert(stem@ =~= file_name@.take(file_name@.len() - 4));
    Some(ScriptType::from_str(stem.as_str()))
}

} // verus!
