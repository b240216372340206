//! The configuration: aliases, tag selectors, prompt level, script types and the
//! environment handed to scripts.
use crate::color::{color_named, Color};
use crate::error::{DisplayError, DisplayResult, Error, FormatCode, Result};
use crate::num::{decimal, decimal_string, parse_u32_std, spec_parse_nat};
use crate::path::join_path;
use crate::script_type::{default_script_types, type_lookup, ScriptType, ScriptTypeConfig, TypeTable};
use crate::tag::{ControlV, Tag, TagControl, TagGroup, TagOrType, TagSelector, TagSelectorGroup};
use crate::text::{from_chars, push_all, push_str, str_eq, to_chars};
use crate::render::{is_render_err, rendered, rendered_some, InfoV, TemplateInfo};
use vstd::prelude::*;

verus! {

/// When to ask before running a script found by fuzzy search.
#[derive(Debug, Clone, Copy, PartialEq, Eq, Structural)]
pub enum PromptLevel {
    Always,
    Never,
    Smart,
    OnMultiFuzz,
}

impl View for PromptLevel {
    type V = PromptLevel;

    open spec fn view(&self) -> PromptLevel {
        *self
    }
}

/// How `PromptLevel::from_str` reads `s`.
pub open spec fn spec_prompt_level(s: Seq<char>) -> core::result::Result<PromptLevel, (FormatCode, Seq<char>)> {
    if s == "always"@ {
        Ok(PromptLevel::Always)
    } else if s == "never"@ {
        Ok(PromptLevel::Never)
    } else if s == "smart"@ {
        Ok(PromptLevel::Smart)
    } else if s == "on-multi-fuzz"@ {
        Ok(PromptLevel::OnMultiFuzz)
    } else {
        Err((FormatCode::PromptLevel, s))
    }
}

/// The text of a prompt level.
pub open spec fn prompt_level_text(l: PromptLevel) -> Seq<char> {
    match l {
        PromptLevel::Always => "always"@,
        PromptLevel::Never => "never"@,
        PromptLevel::Smart => "smart"@,
        PromptLevel::OnMultiFuzz => "on_multi_fuzz"@,
    }
}

impl PromptLevel {
    pub fn from_str(s: &str) -> (r: DisplayResult<PromptLevel>)
        ensures
            crate::script_type::agrees(r, spec_prompt_level(s@)),
    {
        if str_eq(s, "always") {
            Ok(PromptLevel::Always)
        } else if str_eq(s, "never") {
            Ok(PromptLevel::Never)
        } else if str_eq(s, "smart") {
            Ok(PromptLevel::Smart)
        } else if str_eq(s, "on-multi-fuzz") {
            Ok(PromptLevel::OnMultiFuzz)
        } else {
            FormatCode::PromptLevel.to_display_res(s.to_owned())
        }
    }

    pub fn to_string(&self) -> (r: String)
        ensures
            r@ == prompt_level_text(*self),
    {
        match self {
            PromptLevel::Always => "always".to_owned(),
            PromptLevel::Never => "never".to_owned(),
            PromptLevel::Smart => "smart".to_owned(),
            PromptLevel::OnMultiFuzz => "on_multi_fuzz".to_owned(),
        }
    }
}

/// The text of a prompt level reads back as that level, but for `OnMultiFuzz`,
/// whose text (`on_multi_fuzz`) differs from the one read (`on-multi-fuzz`).
pub proof fn law_prompt_level_round_trip(l: PromptLevel)
    requires
        l != PromptLevel::OnMultiFuzz,
    ensures
        spec_prompt_level(prompt_level_text(l)) == Ok::<PromptLevel, (FormatCode, Seq<char>)>(l),
{
    reveal_strlit("always");
    reveal_strlit("never");
    reveal_strlit("smart");
    reveal_strlit("on-multi-fuzz");
    assert("always"@.len() != "never"@.len());
    assert("always"@.len() != "smart"@.len());
    assert("never"@[0] != "smart"@[0]);
}

/// Which scripts count as recent: all, those not neglected, or those used in the
/// last days.
#[derive(Debug, Clone, Copy, PartialEq, Eq, Structural)]
pub enum Recent {
    Timeless,
    NoNeglect,
    Days(u32),
}

/// How `Recent::from_str` reads `s`; `None` is a number that does not parse.
pub open spec fn spec_recent(s: Seq<char>) -> Option<Recent> {
    if s == "timeless"@ {
        Some(Recent::Timeless)
    } else if s == "no-neglect"@ {
        Some(Recent::NoNeglect)
    } else {
        match spec_parse_nat(s, u32::MAX as nat) {
            Some(d) => Some(Recent::Days(d as u32)),
            None => None,
        }
    }
}

/// The text of a setting of recency.
pub open spec fn recent_text(r: Recent) -> Seq<char> {
    match r {
        Recent::Timeless => "timeless"@,
        Recent::NoNeglect => "no-neglect"@,
        Recent::Days(d) => decimal(d as nat) + " days"@,
    }
}

/// How a setting of recency is stored: a number of days as a number, the others
/// as text.
#[derive(Debug, Clone, PartialEq, Eq)]
pub enum RecentRepr {
    Str(String),
    Int(u32),
}

impl Recent {
    pub fn default() -> (r: Recent)
        ensures
            r == Recent::NoNeglect,
    {
        Recent::NoNeglect
    }

    pub fn from_str(s: &str) -> (r: core::result::Result<Recent, std::num::ParseIntError>)
        ensures
            match r {
                Ok(v) => spec_recent(s@) == Some(v),
                Err(_) => spec_recent(s@) is None,
            },
    {
        if str_eq(s, "timeless") {
            Ok(Recent::Timeless)
        } else if str_eq(s, "no-neglect") {
            Ok(Recent::NoNeglect)
        } else {
            match parse_u32_std(s) {
                Ok(d) => Ok(Recent::Days(d)),
                Err(e) => Err(e),
            }
        }
    }

    pub fn to_string(&self) -> (r: String)
        ensures
            r@ == recent_text(*self),
    {
        match self {
            Recent::Timeless => "timeless".to_owned(),
            Recent::NoNeglect => "no-neglect".to_owned(),
            Recent::Days(d) => {
                let mut v = to_chars(decimal_string(*d as u64).as_str());
                push_str(&mut v, " days");
                from_chars(v.as_slice())
            },
        }
    }

    /// The stored form.
    pub fn serialize(&self) -> (r: RecentRepr)
        ensures
            match *self {
                Recent::Days(d) => r == RecentRepr::Int(d),
                _ => r matches RecentRepr::Str(s) && s@ == recent_text(*self),
            },
    {
        match self {
            Recent::Days(d) => RecentRepr::Int(*d),
            _ => RecentRepr::Str(self.to_string()),
        }
    }

    /// Reads the stored form: a number is a number of days, a text is read by
    /// `from_str`.
    pub fn deserialize(repr: RecentRepr) -> (r: core::result::Result<Recent, std::num::ParseIntError>)
        ensures
            match repr {
                RecentRepr::Int(d) => r == Ok::<Recent, std::num::ParseIntError>(Recent::Days(d)),
                RecentRepr::Str(s) => match r {
                    Ok(v) => spec_recent(s@) == Some(v),
                    Err(_) => spec_recent(s@) is None,
                },
            },
    {
        match repr {
            RecentRepr::Int(d) => Ok(Recent::Days(d)),
            RecentRepr::Str(s) => Recent::from_str(s.as_str()),
        }
    }
}

/// A stored setting of recency reads back as itself.
pub proof fn law_recent_store_round_trip(r: Recent)
    ensures
        r matches Recent::Days(_) || spec_recent(recent_text(r)) == Some(r),
{
    reveal_strlit("timeless");
    reveal_strlit("no-neglect");
    assert("timeless"@.len() != "no-neglect"@.len());
}

/// What an alias stands for, which is never empty.
#[derive(Debug, Clone, PartialEq, Eq)]
pub struct Alias {
    pub after: Vec<String>,
}

/// The arguments of an alias: a first argument `!cmd` (anything but `! ...`) makes
/// it a shell command, the `!` dropped.
pub open spec fn alias_args(after: Seq<Seq<char>>) -> (bool, Seq<Seq<char>>) {
    let f = after[0];
    if f.len() >= 2 && f[0] == '!' && f[1] != ' ' {
        (true, seq![f.skip(1)] + after.skip(1))
    } else {
        (false, after)
    }
}

impl Alias {
    pub fn from(after: Vec<String>) -> (r: Alias)
        ensures
            r.after@ == after@,
    {
        Alias { after }
    }

    /// Whether the alias is a shell command, and its arguments.
    pub fn args(&self) -> (r: (bool, Vec<String>))
        requires
            self.after@.len() > 0,
        ensures
            r.0 == alias_args(self.after.deep_view()).0,
            r.1.deep_view() == alias_args(self.after.deep_view()).1,
    {
        let ghost dv = self.after.deep_view();
        let first = to_chars(self.after[0].as_str());
        assert(first@ == dv[0]);
        let mut out: Vec<String> = Vec::new();
        let mut is_shell = false;
        if first.len() >= 2 && first[0] == '!' && first[1] != ' ' {
            is_shell = true;
            out.push(crate::text::sub_string(first.as_slice(), 1, first.len()));
        } else {
            out.push(self.after[0].clone());
        }
        let mut i: usize = 1;
        while i < self.after.len()
            invariant
                dv == self.after.deep_view(),
                1 <= i <= dv.len(),
                out.deep_view() == (if is_shell {
                    seq![dv[0].skip(1)]
                } else {
                    seq![dv[0]]
                }) + dv.subrange(1, i as int),
            decreases dv.len() - i,
        {
            let ghost before = out.deep_view();
            out.push(self.after[i].clone());
            assert(out.deep_view() =~= before.push(dv[i as int]));
            assert(dv.subrange(1, i + 1) =~= dv.subrange(1, i as int).push(dv[i as int]));
            i = i + 1;
        }
        assert(dv.skip(1) =~= dv.subrange(1, dv.len() as int));
        assert(dv =~= seq![dv[0]] + dv.skip(1));
        (is_shell, out)
    }
}

/// A tag selector with a name, which can be switched off.
#[derive(Debug, Clone)]
pub struct NamedTagSelector {
    pub content: TagSelector,
    pub name: String,
    pub inactivated: bool,
}

/// The configuration. Times are nanoseconds since the epoch; `last_modified` is
/// when the file read was last written, `None` for a configuration not read from
/// a file.
#[derive(Debug)]
pub struct Config {
    pub recent: Recent,
    pub main_tag_selector: TagSelector,
    pub caution_tags: TagGroup,
    pub prompt_level: PromptLevel,
    pub editor: Vec<String>,
    pub tag_selectors: Vec<NamedTagSelector>,
    pub alias: Vec<(String, Alias)>,
    pub types: TypeTable,
    pub env: Vec<(String, String)>,
    pub last_modified: Option<u128>,
}

/// A filter on a tag.
pub open spec fn tag_ctl(name: Seq<char>, allow: bool, mandatory: bool) -> ControlV {
    (allow, mandatory, (false, name))
}

/// The named selectors of the default configuration: `pin` (`+pin,util`),
/// `no-hidden` (`+^hide!`) and `no-removed` (`+^remove!`).
pub open spec fn default_selectors() -> Seq<(Seq<char>, bool, (bool, Seq<ControlV>))> {
    seq![
        ("pin"@, false, (true, seq![tag_ctl("pin"@, true, false), tag_ctl("util"@, true, false)])),
        ("no-hidden"@, false, (true, seq![tag_ctl("hide"@, false, true)])),
        ("no-removed"@, false, (true, seq![tag_ctl("remove"@, false, true)])),
    ]
}

/// The aliases of the default configuration.
pub open spec fn default_aliases() -> Seq<(Seq<char>, Seq<Seq<char>>)> {
    seq![
        ("la"@, seq!["ls"@, "-a"@]),
        ("ll"@, seq!["ls"@, "-l"@]),
        ("l"@, seq!["ls"@, "--grouping"@, "none"@, "--limit"@, "5"@]),
        ("e"@, seq!["edit"@]),
        ("gc"@, seq!["rm"@, "--timeless"@, "--purge"@, "-s"@, "remove"@, "*"@]),
        ("t"@, seq!["tags"@]),
        ("p"@, seq!["run"@, "--previous"@]),
        ("conf"@, seq!["!$HS_EDITOR $HS_HOME/.config.toml"@]),
        ("pc"@, seq!["=util/historian!"@, "--sequence"@, "c"@, "--display=all"@]),
        ("pr"@, seq!["=util/historian!"@, "--sequence"@, "r"@, "--display=all"@]),
        ("h"@, seq!["=util/historian!"@, "--display=all"@]),
        ("hh"@, seq!["=util/historian!"@, "*"@, "--display=all"@, "--no-humble"@]),
    ]
}

/// The environment of the default configuration, as templates.
pub open spec fn default_env() -> Seq<(Seq<char>, Seq<char>)> {
    seq![
        ("NAME"@, "{{name}}"@),
        ("HS_HOME"@, "{{home}}"@),
        ("HS_CMD"@, "{{cmd}}"@),
        ("HS_RUN_ID"@, "{{run_id}}"@),
        ("HS_EDITOR"@, "{{#each editor}}{{{this}}}{{#unless @last}} {{/unless}}{{/each}}"@),
        ("HS_TAGS"@, "{{#each tags}}{{{this}}}{{#unless @last}} {{/unless}}{{/each}}"@),
        ("HS_ENV_DESC"@, "{{#each env_desc}}{{{this}}}{{#unless @last}}\n{{/unless}}{{/each}}"@),
        ("HS_EXE"@, "{{exe}}"@),
        ("HS_SOURCE"@, "{{home}}/.hs_source"@),
        ("TMP_DIR"@, "/tmp"@),
    ]
}

pub(crate) fn tag_control(name: &str, allow: bool, mandatory: bool) -> (r: TagControl)
    ensures
        r@ == tag_ctl(name@, allow, mandatory),
{
    TagControl { allow, mandatory, tag: TagOrType::Tag(Tag(name.to_owned())) }
}

fn owned_all(v: &[&str]) -> (r: Vec<String>)
    ensures
        r.deep_view() == v@.map_values(|s: &str| s@),
{
    let mut r: Vec<String> = Vec::new();
    let mut i: usize = 0;
    while i < v.len()
        invariant
            i <= v@.len(),
            r@.len() == i,
            forall|j: int| 0 <= j < i ==> (#[trigger] r@[j])@ == v@[j]@,
        decreases v@.len() - i,
    {
        r.push(v[i].to_owned());
        i = i + 1;
    }
    assert(r.deep_view() =~= v@.map_values(|s: &str| s@));
    r
}

fn gen_alias(from: &str, after: Vec<&str>) -> (r: (String, Alias))
    ensures
        r.0@ == from@,
        r.1.after.deep_view() == after@.map_values(|s: &str| s@),
{
    (from.to_owned(), Alias { after: owned_all(after.as_slice()) })
}

/// The aliases of a configuration by name and arguments.
pub open spec fn alias_view(a: Seq<(String, Alias)>) -> Seq<(Seq<char>, Seq<Seq<char>>)> {
    a.map_values(|p: (String, Alias)| (p.0@, p.1.after.deep_view()))
}

/// The named selectors of a configuration.
pub open spec fn selectors_view(s: Seq<NamedTagSelector>) -> Seq<(Seq<char>, bool, (bool, Seq<ControlV>))> {
    s.map_values(|n: NamedTagSelector| (n.name@, n.inactivated, n.content@))
}

/// The environment of a configuration.
pub open spec fn env_view(e: Seq<(String, String)>) -> Seq<(Seq<char>, Seq<char>)> {
    e.map_values(|p: (String, String)| (p.0@, p.1@))
}

impl Config {
    /// The configuration used when there is no file.
    pub fn default() -> (r: Config)
        ensures
            r.last_modified is None,
            r.recent == Recent::NoNeglect,
            r.prompt_level == PromptLevel::Smart,
            r.editor.deep_view() == seq!["vim"@, "-p"@],
            selectors_view(r.tag_selectors@) == default_selectors(),
            r.main_tag_selector@ == (true, seq![tag_ctl("all"@, true, false)]),
            r.caution_tags@ == seq![tag_ctl("caution"@, true, false)],
            r.types@ == crate::script_type::default_types(),
            alias_view(r.alias@) == default_aliases(),
            env_view(r.env@) == default_env(),
    {
        let editor = owned_all(vec!["vim", "-p"].as_slice());
        let mut tag_selectors: Vec<NamedTagSelector> = Vec::new();
        tag_selectors.push(
            NamedTagSelector {
                content: TagSelector {
                    tags: TagGroup(vec![tag_control("pin", true, false), tag_control("util", true, false)]),
                    append: true,
                },
                name: "pin".to_owned(),
                inactivated: false,
            },
        );
        tag_selectors.push(
            NamedTagSelector {
                content: TagSelector { tags: TagGroup(vec![tag_control("hide", false, true)]), append: true },
                name: "no-hidden".to_owned(),
                inactivated: false,
            },
        );
        tag_selectors.push(
            NamedTagSelector {
                content: TagSelector { tags: TagGroup(vec![tag_control("remove", false, true)]), append: true },
                name: "no-removed".to_owned(),
                inactivated: false,
            },
        );
        let main_tag_selector = TagSelector { tags: TagGroup(vec![tag_control("all", true, false)]), append: true };
        let caution_tags = TagGroup(vec![tag_control("caution", true, false)]);
        let mut alias: Vec<(String, Alias)> = Vec::new();
        alias.push(gen_alias("la", vec!["ls", "-a"]));
        alias.push(gen_alias("ll", vec!["ls", "-l"]));
        alias.push(gen_alias("l", vec!["ls", "--grouping", "none", "--limit", "5"]));
        alias.push(gen_alias("e", vec!["edit"]));
        alias.push(gen_alias("gc", vec!["rm", "--timeless", "--purge", "-s", "remove", "*"]));
        alias.push(gen_alias("t", vec!["tags"]));
        alias.push(gen_alias("p", vec!["run", "--previous"]));
        alias.push(gen_alias("conf", vec!["!$HS_EDITOR $HS_HOME/.config.toml"]));
        alias.push(gen_alias("pc", vec!["=util/historian!", "--sequence", "c", "--display=all"]));
        alias.push(gen_alias("pr", vec!["=util/historian!", "--sequence", "r", "--display=all"]));
        alias.push(gen_alias("h", vec!["=util/historian!", "--display=all"]));
        alias.push(gen_alias("hh", vec!["=util/historian!", "*", "--display=all", "--no-humble"]));
        let mut env: Vec<(String, String)> = Vec::new();
        env.push(("NAME".to_owned(), "{{name}}".to_owned()));
        env.push(("HS_HOME".to_owned(), "{{home}}".to_owned()));
        env.push(("HS_CMD".to_owned(), "{{cmd}}".to_owned()));
        env.push(("HS_RUN_ID".to_owned(), "{{run_id}}".to_owned()));
        env.push(
            (
                "HS_EDITOR".to_owned(),
                "{{#each editor}}{{{this}}}{{#unless @last}} {{/unless}}{{/each}}".to_owned(),
            ),
        );
        env.push(
            ("HS_TAGS".to_owned(), "{{#each tags}}{{{this}}}{{#unless @last}} {{/unless}}{{/each}}".to_owned()),
        );
        env.push(
            (
                "HS_ENV_DESC".to_owned(),
                "{{#each env_desc}}{{{this}}}{{#unless @last}}\n{{/unless}}{{/each}}".to_owned(),
            ),
        );
        env.push(("HS_EXE".to_owned(), "{{exe}}".to_owned()));
        env.push(("HS_SOURCE".to_owned(), "{{home}}/.hs_source".to_owned()));
        env.push(("TMP_DIR".to_owned(), "/tmp".to_owned()));
        let r = Config {
            last_modified: None,
            recent: Recent::default(),
            editor,
            prompt_level: PromptLevel::Smart,
            tag_selectors,
            main_tag_selector,
            caution_tags,
            types: default_script_types(),
            alias,
            env,
        };
        assert(r.editor.deep_view() =~= seq!["vim"@, "-p"@]);
        assert(selectors_view(r.tag_selectors@) =~= default_selectors()) by {
            assert(r.tag_selectors@[0].content.tags@ =~= seq![tag_ctl("pin"@, true, false), tag_ctl("util"@, true, false)]);
            assert(r.tag_selectors@[1].content.tags@ =~= seq![tag_ctl("hide"@, false, true)]);
            assert(r.tag_selectors@[2].content.tags@ =~= seq![tag_ctl("remove"@, false, true)]);
        }
        assert(r.main_tag_selector.tags@ =~= seq![tag_ctl("all"@, true, false)]);
        assert(r.caution_tags@ =~= seq![tag_ctl("caution"@, true, false)]);
        assert(alias_view(r.alias@) =~= default_aliases()) by {
            let a = alias_view(r.alias@);
            let d = default_aliases();
            assert forall|k: int| 0 <= k < 12 implies a[k] == d[k] by {
                assert(a[k].1 =~= d[k].1);
            }
        }
        assert(env_view(r.env@) =~= default_env());
        r
    }
}

/// A selector added to a group: appended when it appends, replacing the group
/// otherwise.
pub open spec fn push_selector(g: Seq<(bool, Seq<ControlV>)>, s: (bool, Seq<ControlV>)) -> Seq<(bool, Seq<ControlV>)> {
    if s.0 {
        g.push(s)
    } else {
        seq![s]
    }
}

/// The group built from the first `k` named selectors and the names left to
/// toggle: a selector is active unless it is inactivated, a toggled name
/// flipping that; a name is toggled once.
pub open spec fn toggled_group(
    sels: Seq<(Seq<char>, bool, (bool, Seq<ControlV>))>,
    toggle: Set<Seq<char>>,
    k: int,
) -> (Seq<(bool, Seq<ControlV>)>, Set<Seq<char>>)
    decreases k,
{
    if k <= 0 {
        (Seq::empty(), toggle)
    } else {
        let (g, t) = toggled_group(sels, toggle, k - 1);
        let f = sels[k - 1];
        let inactivated = f.1 != t.contains(f.0);
        (if inactivated {
            g
        } else {
            push_selector(g, f.2)
        }, t.remove(f.0))
    }
}

/// The names in a list of names.
pub open spec fn name_set(v: Seq<String>) -> Set<Seq<char>> {
    name_views(v).to_set()
}

/// The texts of a list of names.
pub open spec fn name_views(v: Seq<String>) -> Seq<Seq<char>> {
    v.map_values(|s: String| s@)
}

/// Removes every occurrence of `name`; tells whether there was one.
fn take_name(v: &mut Vec<String>, name: &str) -> (r: bool)
    ensures
        r == name_set(old(v)@).contains(name@),
        name_set(final(v)@) == name_set(old(v)@).remove(name@),
{
    let ghost vv = name_views(v@);
    let mut found = false;
    let mut kept: Vec<String> = Vec::new();
    let mut i: usize = 0;
    while i < v.len()
        invariant
            i <= v@.len(),
            vv == name_views(v@),
            found == vv.take(i as int).contains(name@),
            forall|j: int| 0 <= j < kept@.len() ==> name_views(kept@)[j] != name@ && vv.take(i as int).contains(
                #[trigger] name_views(kept@)[j],
            ),
            forall|k: int| 0 <= k < i && vv[k] != name@ ==> name_views(kept@).contains(#[trigger] vv[k]),
        decreases v@.len() - i,
    {
        let ghost kv = name_views(kept@);
        assert(vv.take(i + 1) =~= vv.take(i as int).push(vv[i as int]));
        proof {
            let t1 = vv.take(i + 1);
            let t0 = vv.take(i as int);
            if t1.contains(name@) && vv[i as int] != name@ {
                let m = choose|m: int| 0 <= m < t1.len() && t1[m] == name@;
                assert(t0[m] == name@);
            }
            if t0.contains(name@) {
                let m = choose|m: int| 0 <= m < t0.len() && t0[m] == name@;
                assert(t1[m] == name@);
            }
            if vv[i as int] == name@ {
                assert(t1[i as int] == name@);
            }
        }
        if str_eq(v[i].as_str(), name) {
            found = true;
        } else {
            kept.push(v[i].clone());
            assert(name_views(kept@) =~= kv.push(vv[i as int]));
            assert(name_views(kept@)[kv.len() as int] == vv[i as int]);
        }
        assert forall|j: int| 0 <= j < kept@.len() implies name_views(kept@)[j] != name@ && vv.take(i + 1).contains(
            #[trigger] name_views(kept@)[j],
        ) by {
            if j < kv.len() {
                assert(name_views(kept@)[j] == kv[j]);
                let t0 = vv.take(i as int);
                let t1 = vv.take(i + 1);
                let m = choose|m: int| 0 <= m < t0.len() && t0[m] == kv[j];
                assert(t1[m] == kv[j]);
            } else {
                assert(vv.take(i + 1)[i as int] == vv[i as int]);
            }
        }
        assert forall|k: int| 0 <= k < i + 1 && vv[k] != name@ implies name_views(kept@).contains(#[trigger] vv[k]) by {
            if k < i {
                let m = choose|m: int| 0 <= m < kv.len() && kv[m] == vv[k];
                assert(name_views(kept@)[m] == vv[k]);
            } else {
                assert(name_views(kept@)[kv.len() as int] == vv[i as int]);
            }
        }
        i = i + 1;
    }
    assert(vv.take(vv.len() as int) =~= vv);
    assert(name_set(kept@) =~= name_set(v@).remove(name@)) by {
        assert forall|x: Seq<char>| name_set(kept@).contains(x) <==> name_set(v@).remove(name@).contains(x) by {
            if name_set(kept@).contains(x) {
                let j = choose|j: int| 0 <= j < kept@.len() && name_views(kept@)[j] == x;
                assert(name_views(kept@)[j] == x);
            }
            if name_set(v@).remove(name@).contains(x) {
                let k = choose|k: int| 0 <= k < vv.len() && vv[k] == x;
                assert(vv[k] == x);
            }
        }
    }
    *v = kept;
    found
}

impl Config {
    /// Whether the configuration was not read from a file.
    pub fn is_from_dafault(&self) -> (r: bool)
        ensures
            r == self.last_modified is None,
    {
        self.last_modified.is_none()
    }

    /// Whether storing may overwrite the file, last written at `file_modified`
    /// (`None` when there is no file): a configuration not read from the file, or
    /// read before the file was written again, is not stored.
    pub fn should_store(&self, file_modified: Option<u128>) -> (r: bool)
        ensures
            r == match file_modified {
                None => true,
                Some(m) => self.last_modified matches Some(t) && !(t < m),
            },
    {
        match file_modified {
            None => true,
            Some(m) => match self.last_modified {
                None => false,
                Some(t) => !(t < m),
            },
        }
    }

    /// The prompt level in force: the one given on the command line, else the
    /// configured one.
    pub fn runtime_prompt_level(&self, prompt_level: Option<PromptLevel>) -> (r: PromptLevel)
        ensures
            r == match prompt_level {
                Some(l) => l,
                None => self.prompt_level,
            },
    {
        match prompt_level {
            Some(l) => l,
            None => self.prompt_level,
        }
    }

    /// The configuration of type `ty`, or `UnknownType`.
    pub fn get_script_conf(&self, ty: &ScriptType) -> (r: Result<&ScriptTypeConfig>)
        ensures
            match type_lookup(self.types@, ty@) {
                Some(i) => r matches Ok(c) && 0 <= i < self.types.0@.len() && *c == self.types.0@[i].1,
                None => r matches Err(Error::UnknownType(n)) && n@ == ty@,
            },
    {
        self.types.get_script_conf(ty)
    }

    /// The color of type `ty`.
    pub fn get_color(&self, ty: &ScriptType) -> (r: Result<Color>)
        ensures
            match type_lookup(self.types@, ty@) {
                Some(i) => r == Ok::<Color, Error>(color_named(self.types@[i].2)),
                None => r matches Err(Error::UnknownType(n)) && n@ == ty@,
            },
    {
        let c = self.get_script_conf(ty)?;
        Ok(Color::from(c.color.as_str()))
    }

    /// The selectors in force, the main one last; the names in `toggle` flip
    /// whether the selector of that name is active, and are taken out of it.
    pub fn get_tag_selector_group(&self, toggle: &mut Vec<String>) -> (r: TagSelectorGroup)
        ensures
            ({
                let (g, t) = toggled_group(
                    selectors_view(self.tag_selectors@),
                    name_set(old(toggle)@),
                    self.tag_selectors@.len() as int,
                );
                &&& r@ == push_selector(g, self.main_tag_selector@)
                &&& name_set(final(toggle)@) == t
            }),
    {
        let ghost sels = selectors_view(self.tag_selectors@);
        let ghost t0 = name_set(toggle@);
        let mut group = TagSelectorGroup::new();
        let mut i: usize = 0;
        while i < self.tag_selectors.len()
            invariant
                sels == selectors_view(self.tag_selectors@),
                t0 == name_set(old(toggle)@),
                i <= self.tag_selectors@.len(),
                (group@, name_set(toggle@)) == toggled_group(sels, t0, i as int),
            decreases self.tag_selectors@.len() - i,
        {
            let f = &self.tag_selectors[i];
            assert(sels[i as int] == (f.name@, f.inactivated, f.content@));
            let toggled = take_name(toggle, f.name.as_str());
            let inactivated = f.inactivated ^ toggled;
            if !inactivated {
                group.push(f.content.clone());
            }
            i = i + 1;
        }
        group.push(self.main_tag_selector.clone());
        group
    }

    /// The environment for a run, with each template of `env` rendered with
    /// `info`: a template that fails is left out, or, when `strict`, its error
    /// is returned (see `gen_env_from`).
    pub fn gen_env(&self, info: &TemplateInfo, strict: bool) -> (r: Result<Vec<(String, String)>>)
        ensures
            ({
                let ev = env_view(self.env@);
                let failed = exists|i: int| 0 <= i < ev.len() && #[trigger] rendered(ev[i].1, info@) is None;
                if strict && failed {
                    r matches Err(e) && is_render_err(e)
                } else {
                    r matches Ok(v) && env_view(v@) == rendered_some(ev, info@)
                }
            }),
    {
        let ghost ev = env_view(self.env@);
        let mut rendered_v: Vec<Result<String>> = Vec::new();
        let mut i: usize = 0;
        while i < self.env.len()
            invariant
                i <= self.env@.len(),
                ev == env_view(self.env@),
                rendered_v@.len() == i,
                forall|k: int| 0 <= k < i ==> render_result(#[trigger] rendered_v@[k], rendered(ev[k].1, info@)),
            decreases self.env@.len() - i,
        {
            let res = crate::render::render(self.env[i].1.as_str(), info);
            assert(ev[i as int].1 == self.env@[i as int].1@);
            rendered_v.push(res);
            i = i + 1;
        }
        let ghost rv = rendered_v@;
        let r = self.gen_env_from(rendered_v, strict);
        proof {
            lemma_rendered_env_some(ev, rv, info@);
            if exists|k: int| 0 <= k < rv.len() && rv[k] is Err {
                let k = choose|k: int| 0 <= k < rv.len() && rv[k] is Err;
                assert(render_result(rv[k], rendered(ev[k].1, info@)));
                assert(rendered(ev[k].1, info@) is None);
            }
            if exists|k: int| 0 <= k < ev.len() && #[trigger] rendered(ev[k].1, info@) is None {
                let k = choose|k: int| 0 <= k < ev.len() && #[trigger] rendered(ev[k].1, info@) is None;
                assert(render_result(rv[k], rendered(ev[k].1, info@)));
                assert(rv[k] is Err);
            }
            if strict && exists|k: int| 0 <= k < rv.len() && rv[k] is Err {
                let e = r->Err_0;
                let k = choose|k: int|
                    0 <= k < rv.len() && rv[k] == Err::<String, Error>(e) && forall|j: int| 0 <= j < k ==> rv[j] is Ok;
                assert(render_result(rv[k], rendered(ev[k].1, info@)));
            }
        }
        r
    }

    /// The environment for a run, from the results of rendering each template
    /// of `env` in turn: a template that failed is left out, or, when `strict`,
    /// its error is returned.
    pub fn gen_env_from(&self, rendered: Vec<Result<String>>, strict: bool) -> (r: Result<Vec<(String, String)>>)
        requires
            rendered@.len() == self.env@.len(),
        ensures
            ({
                let failed = exists|i: int| 0 <= i < rendered@.len() && rendered@[i] is Err;
                if strict && failed {
                    r matches Err(e) && exists|i: int|
                        0 <= i < rendered@.len() && rendered@[i] == Err::<String, Error>(e) && forall|j: int|
                            0 <= j < i ==> rendered@[j] is Ok
                } else {
                    r matches Ok(v) && env_view(v@) == rendered_env(env_view(self.env@), rendered@)
                }
            }),
    {
        let ghost rv = rendered@;
        let ghost ev = env_view(self.env@);
        let mut out: Vec<(String, String)> = Vec::new();
        let mut rest = rendered;
        let mut i: usize = 0;
        assert(ev.take(0) =~= Seq::<(Seq<char>, Seq<char>)>::empty());
        while i < self.env.len()
            invariant
                rv == rendered@,
                rv.len() == self.env@.len(),
                ev == env_view(self.env@),
                i <= rv.len(),
                rest@ == rv.skip(i as int),
                strict ==> forall|j: int| 0 <= j < i ==> rv[j] is Ok,
                env_view(out@) == rendered_env(ev.take(i as int), rv.take(i as int)),
            decreases rv.len() - i,
        {
            let item = rest.remove(0);
            assert(item == rv[i as int]);
            let ghost before = out@;
            assert(ev.take(i + 1).drop_last() =~= ev.take(i as int));
            assert(rv.take(i + 1).drop_last() =~= rv.take(i as int));
            assert(rv.take(i + 1).last() == rv[i as int]);
            assert(ev.take(i + 1).last() == ev[i as int]);
            match item {
                Ok(res) => {
                    out.push((self.env[i].0.clone(), res));
                    assert(env_view(out@) =~= env_view(before).push((ev[i as int].0, rv[i as int]->Ok_0@)));
                },
                Err(e) => {
                    if strict {
                        assert(rv[i as int] == Err::<String, Error>(e));
                        return Err(e);
                    }
                    assert(env_view(out@) =~= env_view(before));
                },
            }
            assert(rest@ =~= rv.skip(i + 1));
            i = i + 1;
        }
        assert(ev.take(rv.len() as int) =~= ev);
        assert(rv.take(rv.len() as int) =~= rv);
        Ok(out)
    }
}

/// The environment from the templates `env` and the results of rendering them:
/// the ones that rendered, with their results.
pub open spec fn rendered_env(env: Seq<(Seq<char>, Seq<char>)>, rendered: Seq<Result<String>>) -> Seq<
    (Seq<char>, Seq<char>),
>
    decreases env.len(),
{
    if env.len() == 0 || rendered.len() == 0 {
        Seq::empty()
    } else {
        let prev = rendered_env(env.drop_last(), rendered.drop_last());
        match rendered.last() {
            Ok(s) => prev.push((env.last().0, s@)),
            Err(_) => prev,
        }
    }
}

/// The file of the configuration: the path in the configuration variable when
/// set, else `.config.toml` under `home`.
pub fn config_file(home: &str, env_value: Option<String>) -> (r: String)
    ensures
        r@ == match env_value {
            Some(p) => p@,
            None => join_path(home@, ".config.toml"@),
        },
{
    match env_value {
        Some(p) => p,
        None => crate::path::join_home(home, ".config.toml"),
    }
}

/// `r` is what rendering gives for the outcome `o` of `rendered`.
pub open spec fn render_result(r: Result<String>, o: Option<Seq<char>>) -> bool {
    match o {
        Some(s) => r matches Ok(t) && t@ == s,
        None => r matches Err(e) && is_render_err(e),
    }
}

proof fn lemma_rendered_env_some(env: Seq<(Seq<char>, Seq<char>)>, rv: Seq<Result<String>>, info: InfoV)
    requires
        rv.len() == env.len(),
        forall|k: int| 0 <= k < rv.len() ==> render_result(#[trigger] rv[k], rendered(env[k].1, info)),
    ensures
        rendered_env(env, rv) == rendered_some(env, info),
    decreases env.len(),
{
    if env.len() > 0 {
        let n = (env.len() - 1) as int;
        assert forall|k: int| 0 <= k < rv.drop_last().len() implies render_result(
            #[trigger] rv.drop_last()[k],
            rendered(env.drop_last()[k].1, info),
        ) by {
            assert(rv.drop_last()[k] == rv[k]);
            assert(env.drop_last()[k] == env[k]);
        }
        lemma_rendered_env_some(env.drop_last(), rv.drop_last(), info);
        assert(render_result(rv[n], rendered(env[n].1, info)));
    }
}

} // verus!
