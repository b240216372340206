//! The command line around the subcommand: global options, aliases expanded
//! before parsing, and what history listings show.
use crate::config::{alias_args, alias_view, tag_ctl, tag_control, Alias, Config, PromptLevel};
use crate::tag::{ControlV, TagGroup, TagSelector};
use crate::text::str_eq;
use crate::Either;
use vstd::prelude::*;

verus! {

/// What a history listing shows of each run: its environment, its arguments, or
/// both.
#[derive(Debug, Clone, Copy, PartialEq, Eq, Structural)]
pub enum HistoryDisplay {
    Env,
    Args,
    All,
}

impl HistoryDisplay {
    pub fn show_args(&self) -> (r: bool)
        ensures
            r == (*self != HistoryDisplay::Env),
    {
        match self {
            HistoryDisplay::Args | HistoryDisplay::All => true,
            HistoryDisplay::Env => false,
        }
    }

    pub fn show_env(&self) -> (r: bool)
        ensures
            r == (*self != HistoryDisplay::Args),
    {
        match self {
            HistoryDisplay::Env | HistoryDisplay::All => true,
            HistoryDisplay::Args => false,
        }
    }
}

/// The global options of the command line.
#[derive(Debug)]
pub struct RootArgs {
    pub hs_home: Option<String>,
    pub dump_args: bool,
    pub no_trace: bool,
    pub humble: bool,
    pub archaeology: bool,
    pub no_alias: bool,
    pub select: Vec<TagSelector>,
    pub toggle: Vec<String>,
    pub all: bool,
    pub recent: Option<u32>,
    pub timeless: bool,
    pub prompt_level: Option<PromptLevel>,
}

/// The selector `all`.
pub open spec fn all_selector() -> (bool, Seq<ControlV>) {
    (false, seq![tag_ctl("all"@, true, false)])
}

/// The selector `all,^remove`.
pub open spec fn all_but_removed_selector() -> (bool, Seq<ControlV>) {
    (false, seq![tag_ctl("all"@, true, false), tag_ctl("remove"@, false, false)])
}

impl RootArgs {
    /// With a bang every script counts, whatever its age; `--all` does the same
    /// but for removed scripts. Otherwise nothing changes.
    pub fn sanitize_flags(&mut self, bang: bool)
        ensures
            bang ==> final(self).timeless && final(self).select@.map_values(|s: TagSelector| s@) == seq![
                all_selector(),
            ],
            !bang && old(self).all ==> final(self).timeless && final(self).select@.map_values(|s: TagSelector| s@)
                == seq![all_but_removed_selector()],
            !bang && !old(self).all ==> final(self).timeless == old(self).timeless && final(self).select@ == old(
                self,
            ).select@,
            final(self).hs_home == old(self).hs_home,
            final(self).all == old(self).all,
            final(self).recent == old(self).recent,
            final(self).toggle@ == old(self).toggle@,
    {
        if bang {
            self.timeless = true;
            let c = tag_control("all", true, false);
            let g = TagGroup(vec![c]);
            assert(g@ =~= seq![tag_ctl("all"@, true, false)]);
            let s = TagSelector { tags: g, append: false };
            assert(s@ == all_selector());
            self.select = vec![s];
            assert(self.select@.map_values(|s: TagSelector| s@) =~= seq![all_selector()]);
        } else if self.all {
            self.timeless = true;
            let c1 = tag_control("all", true, false);
            let c2 = tag_control("remove", false, false);
            let g = TagGroup(vec![c1, c2]);
            assert(g@ =~= seq![tag_ctl("all"@, true, false), tag_ctl("remove"@, false, false)]);
            let s = TagSelector { tags: g, append: false };
            assert(s@ == all_but_removed_selector());
            self.select = vec![s];
            assert(self.select@.map_values(|s: TagSelector| s@) =~= seq![all_but_removed_selector()]);
        }
    }
}

/// The position of the first alias called `name`.
pub open spec fn alias_pos(aliases: Seq<(Seq<char>, Seq<Seq<char>>)>, name: Seq<char>) -> Option<int>
    decreases aliases.len(),
{
    if aliases.len() == 0 {
        None
    } else {
        match alias_pos(aliases.drop_last(), name) {
            Some(i) => Some(i),
            None => if aliases.last().0 == name {
                Some(aliases.len() - 1)
            } else {
                None
            },
        }
    }
}

/// Every alias stands for something.
pub open spec fn aliases_ok(aliases: Seq<(Seq<char>, Seq<Seq<char>>)>) -> bool {
    forall|i: int| 0 <= i < aliases.len() ==> (#[trigger] aliases[i]).1.len() > 0
}

/// The options of the `types` command.
#[derive(Debug)]
pub struct Types {
    pub no_sub: bool,
    pub edit: bool,
    pub ty: Option<crate::script_type::ScriptFullType>,
}

/// The global options and the rest of a command line, read before aliases are
/// expanded.
#[derive(Debug)]
pub struct AliasRoot {
    pub root_args: RootArgs,
    pub subcmd: Vec<String>,
}

/// The alias the first word of `subcmd` names, as its position.
pub open spec fn found_alias(subcmd: Seq<Seq<char>>, aliases: Seq<(Seq<char>, Seq<Seq<char>>)>) -> Option<int> {
    if subcmd.len() == 0 {
        None
    } else {
        alias_pos(aliases, subcmd[0])
    }
}

pub(crate) proof fn lemma_alias_pos_range(a: Seq<(Seq<char>, Seq<Seq<char>>)>, name: Seq<char>)
    ensures
        alias_pos(a, name) matches Some(i) ==> 0 <= i < a.len(),
    decreases a.len(),
{
    if a.len() > 0 {
        lemma_alias_pos_range(a.drop_last(), name);
    }
}

pub(crate) proof fn lemma_alias_pos(a: Seq<(Seq<char>, Seq<Seq<char>>)>, name: Seq<char>, i: int)
    requires
        0 <= i <= a.len(),
        forall|j: int| 0 <= j < i ==> (#[trigger] a[j]).0 != name,
    ensures
        i < a.len() && a[i].0 == name ==> alias_pos(a, name) == Some(i),
        i == a.len() ==> alias_pos(a, name) is None,
    decreases a.len(),
{
    if a.len() > 0 {
        if i < a.len() {
            lemma_alias_pos(a.drop_last(), name, i);
        } else {
            lemma_alias_pos(a.drop_last(), name, i - 1);
        }
    }
}

impl AliasRoot {
    /// The alias the first word of the rest names.
    fn find_alias<'a>(&'a self, conf: &'a Config) -> (r: Option<&'a Alias>)
        ensures
            match found_alias(self.subcmd.deep_view(), alias_view(conf.alias@)) {
                Some(i) => r matches Some(a) && *a == conf.alias@[i].1,
                None => r is None,
            },
    {
        if self.subcmd.len() == 0 {
            return None;
        }
        let first = &self.subcmd[0];
        let ghost av = alias_view(conf.alias@);
        assert(self.subcmd.deep_view()[0] == first@);
        let mut i: usize = 0;
        while i < conf.alias.len()
            invariant
                av == alias_view(conf.alias@),
                av.len() == conf.alias@.len(),
                self.subcmd@.len() > 0,
                self.subcmd.deep_view()[0] == first@,
                i <= conf.alias@.len(),
                forall|j: int| 0 <= j < i ==> (#[trigger] av[j]).0 != first@,
            decreases conf.alias@.len() - i,
        {
            assert(av[i as int].0 == conf.alias@[i as int].0@);
            if str_eq(conf.alias[i].0.as_str(), first.as_str()) {
                proof {
                    lemma_alias_pos(av, first@, i as int);
                }
                let a = &conf.alias[i].1;
                assert(*a == conf.alias@[i as int].1);
                return Some(a);
            }
            i = i + 1;
        }
        proof {
            lemma_alias_pos(av, first@, i as int);
        }
        None
    }

    /// Expands the alias that the first word of the rest names. A shell alias
    /// stands for its arguments followed by the rest shown by `display`; any
    /// other stands, in `args` (the whole command line, which ends with the
    /// rest), for the alias's word: the arguments before it, then the alias's
    /// arguments, then the rest. `None` when there is no such alias.
    pub fn expand_alias<F: Fn(&String) -> String>(&self, args: &Vec<String>, conf: &Config, display: &F) -> (r:
        Option<Either<Vec<String>, Vec<String>>>)
        requires
            aliases_ok(alias_view(conf.alias@)),
            args@.len() >= self.subcmd@.len(),
            forall|s: &String| display.requires((s,)),
        ensures
            ({
                let sub = self.subcmd.deep_view();
                match found_alias(sub, alias_view(conf.alias@)) {
                    None => r is None,
                    Some(i) => {
                        let (is_shell, after) = alias_args(alias_view(conf.alias@)[i].1);
                        let rest = sub.skip(1);
                        if is_shell {
                            r matches Some(Either::Two(v)) && v@.len() == after.len() + rest.len() && v.deep_view().take(
                                after.len() as int,
                            ) == after && forall|j: int|
                                0 <= j < rest.len() ==> display.ensures(
                                    (&self.subcmd@[j + 1],),
                                    #[trigger] v@[after.len() + j],
                                )
                        } else {
                            r matches Some(Either::One(v)) && v.deep_view() == args.deep_view().take(
                                args@.len() - sub.len(),
                            ) + after + rest
                        }
                    },
                }
            }),
    {
        let ghost sub = self.subcmd.deep_view();
        let ghost av = alias_view(conf.alias@);
        let alias = match self.find_alias(conf) {
            Some(a) => a,
            None => {
                return None;
            },
        };
        let ghost i = found_alias(sub, av)->Some_0;
        proof {
            assert(0 <= i < av.len()) by {
                lemma_alias_pos_range(av, sub[0]);
            }
            assert(av[i] == (conf.alias@[i].0@, conf.alias@[i].1.after.deep_view()));
            assert(av[i].1 == alias.after.deep_view());
            assert(aliases_ok(av));
            assert(av[i].1.len() > 0);
            assert(alias.after@.len() == av[i].1.len());
        }
        let (is_shell, after_args) = alias.args();
        let ghost after = after_args.deep_view();
        let ghost rest = sub.skip(1);
        if is_shell {
            let mut ret = after_args;
            let n = ret.len();
            let mut j: usize = 1;
            while j < self.subcmd.len()
                invariant
                    1 <= j <= self.subcmd@.len(),
                    sub == self.subcmd.deep_view(),
                    n == after.len(),
                    ret@.len() == n + j - 1,
                    ret.deep_view().take(n as int) == after,
                    forall|k: int| 0 <= k < j - 1 ==> display.ensures((&self.subcmd@[k + 1],), #[trigger] ret@[n + k]),
                    forall|s: &String| display.requires((s,)),
                decreases self.subcmd@.len() - j,
            {
                let ghost before = ret@;
                let shown = display(&self.subcmd[j]);
                ret.push(shown);
                proof {
                    assert(ret.deep_view().take(n as int) =~= before.map_values(|s: String| s@).take(n as int));
                    assert forall|k: int| 0 <= k < j implies display.ensures((&self.subcmd@[k + 1],), #[trigger] ret@[n + k]) by {
                        if k < j - 1 {
                            assert(ret@[n + k] == before[n + k]);
                        }
                    }
                }
                j = j + 1;
            }
            return Some(Either::Two(ret));
        }
        let base_len = args.len() - self.subcmd.len();
        let mut ret: Vec<String> = Vec::new();
        let mut k: usize = 0;
        while k < base_len
            invariant
                base_len <= args@.len(),
                k <= base_len,
                ret@.len() == k,
                forall|x: int| 0 <= x < k ==> (#[trigger] ret@[x])@ == args@[x]@,
            decreases base_len - k,
        {
            ret.push(args[k].clone());
            k = k + 1;
        }
        let mut t: usize = 0;
        while t < after_args.len()
            invariant
                t <= after_args@.len(),
                ret@.len() == base_len + t,
                forall|x: int| 0 <= x < base_len ==> (#[trigger] ret@[x])@ == args@[x]@,
                forall|x: int| 0 <= x < t ==> (#[trigger] ret@[base_len + x])@ == after_args@[x]@,
            decreases after_args@.len() - t,
        {
            ret.push(after_args[t].clone());
            t = t + 1;
        }
        let m = ret.len();
        let mut j: usize = 1;
        while j < self.subcmd.len()
            invariant
                1 <= j <= self.subcmd@.len(),
                m == base_len + after_args@.len(),
                ret@.len() == m + j - 1,
                forall|x: int| 0 <= x < base_len ==> (#[trigger] ret@[x])@ == args@[x]@,
                forall|x: int| 0 <= x < after_args@.len() ==> (#[trigger] ret@[base_len + x])@ == after_args@[x]@,
                forall|x: int| 0 <= x < j - 1 ==> (#[trigger] ret@[m + x])@ == self.subcmd@[x + 1]@,
            decreases self.subcmd@.len() - j,
        {
            ret.push(self.subcmd[j].clone());
            j = j + 1;
        }
        proof {
            let target = args.deep_view().take(args@.len() - sub.len()) + after + rest;
            assert forall|x: int| 0 <= x < ret@.len() implies ret.deep_view()[x] == target[x] by {
                if x < base_len {
                    assert(ret.deep_view()[x] == ret@[x]@);
                } else if x < m {
                    assert(ret.deep_view()[x] == ret@[base_len + (x - base_len)]@);
                } else {
                    assert(ret.deep_view()[x] == ret@[m + (x - m)]@);
                }
            }
            assert(ret.deep_view() =~= target);
        }
        Some(Either::One(ret))
    }
}

/// The words that `completion` mode parses: the command line after the program,
/// when its first word is `completion`.
pub fn completion_args(args: &Vec<String>) -> (r: Option<Vec<String>>)
    requires
        args@.len() >= 1,
    ensures
        args@.len() > 1 && args@[1]@ == "completion"@ ==> (r matches Some(v) && v.deep_view() == args.deep_view().skip(
            1,
        )),
        !(args@.len() > 1 && args@[1]@ == "completion"@) ==> r is None,
{
    if args.len() > 1 && str_eq(args[1].as_str(), "completion") {
        let mut v: Vec<String> = Vec::new();
        let mut i: usize = 1;
        while i < args.len()
            invariant
                1 <= i <= args@.len(),
                v@.len() == i - 1,
                forall|x: int| 0 <= x < i - 1 ==> (#[trigger] v@[x])@ == args@[x + 1]@,
            decreases args@.len() - i,
        {
            v.push(args[i].clone());
            i = i + 1;
        }
        assert(v.deep_view() =~= args.deep_view().skip(1));
        Some(v)
    } else {
        None
    }
}

/// The words that parse the tags given without a subcommand: `tags set` before
/// them.
pub fn tags_set_args(args: &Vec<String>) -> (r: Vec<String>)
    ensures
        r.deep_view() == seq!["tags"@, "set"@] + args.deep_view(),
{
    let mut v: Vec<String> = Vec::new();
    v.push("tags".to_owned());
    v.push("set".to_owned());
    let mut i: usize = 0;
    while i < args.len()
        invariant
            i <= args@.len(),
            v@.len() == i + 2,
            v@[0]@ == "tags"@,
            v@[1]@ == "set"@,
            forall|x: int| 0 <= x < i ==> (#[trigger] v@[x + 2])@ == args@[x]@,
        decreases args@.len() - i,
    {
        v.push(args[i].clone());
        i = i + 1;
    }
    assert forall|x: int| 0 <= x < v@.len() implies v.deep_view()[x] == (seq!["tags"@, "set"@] + args.deep_view())[x] by {
        if x >= 2 {
            assert(v@[(x - 2) + 2] == v@[x]);
        }
    }
    assert(v.deep_view() =~= seq!["tags"@, "set"@] + args.deep_view());
    v
}

/// The words that parse a script run without a subcommand: `hs run` before them.
pub fn run_args(args: &Vec<String>) -> (r: Vec<String>)
    ensures
        r.deep_view() == seq!["hs"@, "run"@] + args.deep_view(),
{
    let mut v: Vec<String> = Vec::new();
    v.push("hs".to_owned());
    v.push("run".to_owned());
    let mut i: usize = 0;
    while i < args.len()
        invariant
            i <= args@.len(),
            v@.len() == i + 2,
            v@[0]@ == "hs"@,
            v@[1]@ == "run"@,
            forall|x: int| 0 <= x < i ==> (#[trigger] v@[x + 2])@ == args@[x]@,
        decreases args@.len() - i,
    {
        v.push(args[i].clone());
        i = i + 1;
    }
    assert forall|x: int| 0 <= x < v@.len() implies v.deep_view()[x] == (seq!["hs"@, "run"@] + args.deep_view())[x] by {
        if x >= 2 {
            assert(v@[(x - 2) + 2] == v@[x]);
        }
    }
    assert(v.deep_view() =~= seq!["hs"@, "run"@] + args.deep_view());
    v
}

} // verus!
