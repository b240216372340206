//! Errors of the crate and the exit codes they map to.
use vstd::prelude::*;

verus! {

/// Process exit status; a larger code is more severe.
#[derive(Debug, Clone, Copy, PartialEq, Eq, Structural)]
pub struct ExitCode(pub i32);

/// Success.
pub fn exit_ok() -> (r: ExitCode)
    ensures
        r.0 == 0,
{
    ExitCode(0)
}

/// An error that the tool knows about.
pub fn exit_known_err() -> (r: ExitCode)
    ensures
        r.0 == 1,
{
    ExitCode(1)
}

/// Any other error.
pub fn exit_other_err() -> (r: ExitCode)
    ensures
        r.0 == 2,
{
    ExitCode(2)
}

impl ExitCode {
    /// Compares another code with this one and keeps the more severe of the two.
    pub fn cmp_and_replace(&mut self, code: ExitCode)
        ensures
            final(self).0 == if old(self).0 < code.0 {
                code.0
            } else {
                old(self).0
            },
    {
        if self.0 < code.0 {
            self.0 = code.0;
        }
    }

    pub fn code(&self) -> (r: i32)
        ensures
            r == self.0,
    {
        self.0
    }
}

/// Merging exit codes keeps the most severe one whatever the order: replacing is
/// commutative and idempotent, and the result is at least as severe as both codes.
pub proof fn law_exit_code_merge(a: i32, b: i32, c: i32)
    ensures
        ({
            let ab = if a < b {
                b
            } else {
                a
            };
            let ba = if b < a {
                a
            } else {
                b
            };
            let abc = if ab < c {
                c
            } else {
                ab
            };
            let bc = if b < c {
                c
            } else {
                b
            };
            let a_bc = if a < bc {
                bc
            } else {
                a
            };
            &&& ab == ba
            &&& abc == a_bc
            &&& a <= ab && b <= ab
            &&& (if a < a {
                a
            } else {
                a
            }) == a
        }),
{
}

#[derive(Debug, Clone, Copy, PartialEq, Eq, Structural)]
pub enum SysPath {
    Config,
    Home,
}

/// What kind of text failed to parse.
#[derive(Debug, Clone, Copy, PartialEq, Eq, Structural)]
pub enum FormatCode {
    PromptLevel,
    Config,
    ScriptName,
    ScriptType,
    Regex,
    RangeQuery,
    ScriptQuery,
    FilterQuery,
    EnvPair,
    Tag,
    NonEmptyArray,
}

#[derive(Debug, Clone)]
pub enum RedundantOpt {
    Scripts(Vec<String>),
    Type,
    Tag,
    Selector,
}

/// Errors of the crate. Paths are carried as their text, and the source of an
/// `Others` error as its message.
#[derive(Debug, Clone)]
pub enum Error {
    Others(Vec<String>, Option<String>),
    SysPathNotFound(SysPath),
    EmptyCreate,
    PermissionDenied(Vec<String>),
    PathNotFound(Vec<String>),
    GeneralFS(Vec<String>, String),
    PathExist(String),
    ScriptExist(String),
    ScriptIsFiltered(String),
    ScriptNotFound(String),
    NoAlias(String),
    UnknownType(String),
    Format(FormatCode, String),
    ScriptError(i32),
    PreRunError(i32),
    EditorError(i32, Vec<String>),
    RedundantOpt(RedundantOpt),
    TagSelectorNotFound(String),
    DontFuzz,
    NoPreviousArgs,
    Empty,
    Completion,
}

pub type Result<T = ()> = core::result::Result<T, Error>;

/// Spec-level outcome of parsing: the value's view, or the kind and text of the
/// format error.
pub type Parsed<T> = core::result::Result<T, (FormatCode, Seq<char>)>;

/// Exit code of an error.
pub open spec fn error_code(e: Error) -> i32 {
    match e {
        Error::Others(..) | Error::GeneralFS(..) => 2,
        Error::ScriptError(c) => c,
        Error::PreRunError(c) => c,
        Error::EditorError(c, _) => c,
        _ => 1,
    }
}

/// `e2` is `e` with the note `s` appended, when `e` is an `Others` error; other
/// errors are kept as they are.
pub open spec fn error_noted(e: Error, s: Seq<char>, e2: Error) -> bool {
    match e {
        Error::Others(msgs, src) => e2 matches Error::Others(m2, s2) && s2 == src
            && m2.deep_view() == msgs.deep_view().push(s),
        _ => e2 == e,
    }
}

impl Error {
    /// An `Others` error with one message.
    pub fn msg(s: &str) -> (r: Error)
        ensures
            r matches Error::Others(msgs, src) && msgs.deep_view() == seq![s@] && src is None,
    {
        let mut v: Vec<String> = Vec::new();
        let m = s.to_owned();
        v.push(m);
        proof {
            assert(v.deep_view() =~= seq![s@]);
        }
        Error::Others(v, None)
    }

    /// Appends a note to an `Others` error; other errors are returned unchanged.
    pub fn context(self, s: &str) -> (r: Error)
        ensures
            error_noted(self, s@, r),
    {
        match self {
            Error::Others(msgs, src) => {
                let mut msgs = msgs;
                let ghost old_dv = msgs.deep_view();
                msgs.push(s.to_owned());
                proof {
                    assert(msgs.deep_view() =~= old_dv.push(s@));
                }
                Error::Others(msgs, src)
            },
            e => e,
        }
    }

    /// The exit code that this error ends the program with.
    pub fn code(&self) -> (r: ExitCode)
        ensures
            r.0 == error_code(*self),
    {
        match self {
            Error::Others(..) | Error::GeneralFS(..) => exit_other_err(),
            Error::ScriptError(c) | Error::PreRunError(c) => ExitCode(*c),
            Error::EditorError(c, _) => ExitCode(*c),
            _ => exit_known_err(),
        }
    }
}

impl FormatCode {
    /// The format error for the text `s`.
    pub fn to_err(self, s: String) -> (r: Error)
        ensures
            r matches Error::Format(c, t) && c == self && t@ == s@,
    {
        Error::Format(self, s)
    }

    /// A failed result carrying the format error for the text `s`.
    pub fn to_res<T>(self, s: String) -> (r: Result<T>)
        ensures
            r matches Err(Error::Format(c, t)) && c == self && t@ == s@,
    {
        Err(Error::Format(self, s))
    }

    /// Same as `to_res`, for the callers that report through `DisplayError`.
    pub fn to_display_res<T>(self, s: String) -> (r: core::result::Result<T, DisplayError>)
        ensures
            r matches Err(DisplayError(Error::Format(c, t))) && c == self && t@ == s@,
    {
        Err(DisplayError(Error::Format(self, s)))
    }
}

/// Adds a note to the error of a failed result.
pub trait Contextable<T>: Sized {
    spec fn noted_by(self, s: Seq<char>, r: Result<T>) -> bool;

    fn context(self, s: &str) -> (r: Result<T>)
        ensures
            self.noted_by(s@, r),
    ;
}

impl<T> Contextable<T> for Result<T> {
    open spec fn noted_by(self, s: Seq<char>, r: Result<T>) -> bool {
        match self {
            Ok(t) => r == Ok::<T, Error>(t),
            Err(e) => r matches Err(e2) && error_noted(e, s, e2),
        }
    }

    fn context(self, s: &str) -> (r: Result<T>) {
        match self {
            Ok(t) => Ok(t),
            Err(e) => Err(e.context(s)),
        }
    }
}

/// Wrapper of `Error` for the places that hand errors to the standard error traits.
#[derive(Debug)]
pub struct DisplayError(pub Error);

impl DisplayError {
    pub fn into_err(self) -> (r: Error)
        ensures
            r == self.0,
    {
        self.0
    }

    pub fn from(err: Error) -> (r: DisplayError)
        ensures
            r.0 == err,
    {
        DisplayError(err)
    }
}

pub type DisplayResult<T = ()> = core::result::Result<T, DisplayError>;

/// A failed number read as an error with that failure as its source.
pub fn from_parse_int_error(e: std::num::ParseIntError) -> (r: Error)
    ensures
        r matches Error::Others(msgs, src) && msgs@.len() == 0 && src is Some,
{
    Error::Others(Vec::new(), Some(e.to_string()))
}

/// `msg`, then for paths a `:` and each path, a line break before the first.
pub open spec fn multi_path_text(msg: Seq<char>, paths: Seq<Seq<char>>) -> Seq<char> {
    if paths.len() == 0 {
        msg
    } else {
        msg + seq![':', '\n'] + crate::text::join_seq(paths, Seq::empty())
    }
}

pub fn fmt_multi_path(msg: &str, mutli_path: &Vec<String>) -> (r: String)
    ensures
        r@ == multi_path_text(msg@, mutli_path.deep_view()),
{
    let mut v: Vec<char> = Vec::new();
    crate::text::push_str(&mut v, msg);
    if mutli_path.len() > 0 {
        v.push(':');
        v.push('\n');
    }
    let ghost head = v@;
    let ghost ps = mutli_path.deep_view();
    let mut i: usize = 0;
    while i < mutli_path.len()
        invariant
            i <= mutli_path@.len(),
            ps == mutli_path.deep_view(),
            v@ == head + crate::text::join_seq(ps.take(i as int), Seq::empty()),
        decreases mutli_path@.len() - i,
    {
        crate::text::push_str(&mut v, mutli_path[i].as_str());
        proof {
            let t = ps.take(i + 1);
            assert(t.drop_last() =~= ps.take(i as int));
            assert(t.last() == mutli_path@[i as int]@);
            if i == 0 {
                assert(ps.take(0) =~= Seq::<Seq<char>>::empty());
            }
            assert(v@ =~= head + crate::text::join_seq(t, Seq::empty()));
        }
        i = i + 1;
    }
    assert(ps.take(mutli_path@.len() as int) =~= ps);
    crate::text::from_chars(v.as_slice())
}

/// What a format error is reported on; `None` for the kinds that have no words of
/// their own.
pub open spec fn format_subject(code: FormatCode) -> Option<Seq<char>> {
    match code {
        FormatCode::Config => Some("config file"@),
        FormatCode::ScriptName => Some("script name"@),
        FormatCode::Regex => Some("regular expression"@),
        FormatCode::ScriptQuery => Some("script query"@),
        FormatCode::Tag => Some("tag"@),
        FormatCode::FilterQuery => Some("tag filter"@),
        FormatCode::NonEmptyArray => Some("non-empty array"@),
        _ => None,
    }
}

/// The message shown for an error, ending with a line break (nothing at all when
/// the user turned a fuzzy pick down); `None` for the errors shown by their
/// debug form.
pub open spec fn error_message(e: Error) -> Option<Seq<char>> {
    match e {
        Error::DontFuzz => Some(Seq::empty()),
        Error::Empty => Some("No existing script!\n"@),
        Error::SysPathNotFound(SysPath::Config) => Some(
            "Can not find you're config path. Usually it should be `$HOME/.config`\n"@,
        ),
        Error::SysPathNotFound(SysPath::Home) => Some("Can not find you're home path.\n"@),
        Error::PermissionDenied(v) => Some(multi_path_text("Permission denied"@, v.deep_view()) + seq!['\n']),
        Error::PathNotFound(v) => Some(multi_path_text("Path not found"@, v.deep_view()) + seq!['\n']),
        Error::ScriptExist(n) => Some("Script already exist: "@ + n@ + seq!['\n']),
        Error::ScriptIsFiltered(n) => Some("Script filtered out: "@ + n@ + seq!['\n']),
        Error::ScriptNotFound(n) => Some("Script not found: "@ + n@ + seq!['\n']),
        Error::UnknownType(t) => Some("Unknown type: "@ + t@ + seq!['\n']),
        Error::Format(code, s) => match format_subject(code) {
            Some(subject) => if code == FormatCode::NonEmptyArray {
                Some("Format error for "@ + subject)
            } else {
                Some("Format error for "@ + subject + " '"@ + s@ + "'\n"@)
            },
            None => None,
        },
        Error::ScriptError(c) => Some("Script exited unexpectedly with "@ + crate::num::signed_decimal(c as int) + seq!['\n']),
        Error::NoAlias(a) => Some("No such alias: "@ + a@ + seq!['\n']),
        _ => None,
    }
}

fn cat3(a: &str, b: &str, c: &str) -> (r: String)
    ensures
        r@ == a@ + b@ + c@,
{
    let mut v: Vec<char> = Vec::new();
    crate::text::push_str(&mut v, a);
    crate::text::push_str(&mut v, b);
    crate::text::push_str(&mut v, c);
    crate::text::from_chars(v.as_slice())
}

impl Error {
    /// The message shown for the error, as `error_message` gives it.
    pub fn message(&self) -> (r: Option<String>)
        ensures
            match error_message(*self) {
                Some(m) => r matches Some(t) && t@ == m,
                None => r is None,
            },
    {
        proof {
            reveal_strlit("\n");
            reveal_strlit("");
        }
        assert("\n"@ =~= seq!['\n']);
        assert(""@ =~= Seq::<char>::empty());
        let r = match self {
            Error::DontFuzz => Some(String::new()),
            Error::Empty => Some("No existing script!\n".to_owned()),
            Error::SysPathNotFound(SysPath::Config) => Some(
                "Can not find you're config path. Usually it should be `$HOME/.config`\n".to_owned(),
            ),
            Error::SysPathNotFound(SysPath::Home) => Some("Can not find you're home path.\n".to_owned()),
            Error::PermissionDenied(v) => {
                let t = fmt_multi_path("Permission denied", v);
                Some(cat3(t.as_str(), "\n", ""))
            },
            Error::PathNotFound(v) => {
                let t = fmt_multi_path("Path not found", v);
                Some(cat3(t.as_str(), "\n", ""))
            },
            Error::ScriptExist(n) => Some(cat3("Script already exist: ", n.as_str(), "\n")),
            Error::ScriptIsFiltered(n) => Some(cat3("Script filtered out: ", n.as_str(), "\n")),
            Error::ScriptNotFound(n) => Some(cat3("Script not found: ", n.as_str(), "\n")),
            Error::UnknownType(t) => Some(cat3("Unknown type: ", t.as_str(), "\n")),
            Error::Format(code, s) => {
                let subject = match code {
                    FormatCode::Config => Some("config file"),
                    FormatCode::ScriptName => Some("script name"),
                    FormatCode::Regex => Some("regular expression"),
                    FormatCode::ScriptQuery => Some("script query"),
                    FormatCode::Tag => Some("tag"),
                    FormatCode::FilterQuery => Some("tag filter"),
                    FormatCode::NonEmptyArray => Some("non-empty array"),
                    _ => None,
                };
                match subject {
                    Some(sub) => {
                        if *code == FormatCode::NonEmptyArray {
                            Some(cat3("Format error for ", sub, ""))
                        } else {
                            {
                                let head = cat3("Format error for ", sub, " '");
                                Some(cat3(head.as_str(), s.as_str(), "'\n"))
                            }
                        }
                    },
                    None => None,
                }
            },
            Error::ScriptError(c) => {
                let d = crate::num::signed_decimal_chars(*c as i64);
                let ds = crate::text::from_chars(d.as_slice());
                Some(cat3("Script exited unexpectedly with ", ds.as_str(), "\n"))
            },
            Error::NoAlias(a) => Some(cat3("No such alias: ", a.as_str(), "\n")),
            _ => None,
        };
        r
    }
}

} // verus!
