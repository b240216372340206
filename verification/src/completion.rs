//! What shell completion offers: scripts (the latest ones, or the ones a fuzzy
//! search found), aliases, tags and types, each with its description and group.
use crate::fuzzy::{is_prefix, spec_is_prefix};
use crate::list::{latest_first, sort_scripts};
use crate::num::decimal;
use crate::script::{name_key, ScriptInfo};
use crate::config::Config;
use crate::tag::Tag;
use crate::text::{from_chars, join_seq, join_strings, push_str, to_chars};
use vstd::prelude::*;

verus! {

/// An offered completion: the value, its description, the group it is shown in,
/// and whether the shell is to offer it whatever was typed.
#[derive(Debug, Clone)]
pub struct CompletionItem {
    pub value: String,
    pub desc: String,
    pub group: Option<String>,
    pub always_match: bool,
}

/// View of a completion: value, description, group and whether it always
/// matches.
pub type CompletionV = (Seq<char>, Seq<char>, Option<Seq<char>>, bool);

impl View for CompletionItem {
    type V = CompletionV;

    open spec fn view(&self) -> CompletionV {
        (
            self.value@,
            self.desc@,
            match self.group {
                Some(g) => Some(g@),
                None => None,
            },
            self.always_match,
        )
    }
}

/// Views of completions.
pub open spec fn items_v(v: Seq<CompletionItem>) -> Seq<CompletionV> {
    v.map_values(|c: CompletionItem| c@)
}

/// `text` with `mark` removed from its end when it ends with it.
pub open spec fn strip_end_mark(text: Seq<char>, mark: char) -> (Seq<char>, bool) {
    if text.len() > 0 && text.last() == mark {
        (text.drop_last(), true)
    } else {
        (text, false)
    }
}

/// `text` with `mark` removed from its start when it starts with it.
pub open spec fn strip_start_mark(text: Seq<char>, mark: char) -> (Seq<char>, bool) {
    if text.len() > 0 && text[0] == mark {
        (text.drop_first(), true)
    } else {
        (text, false)
    }
}

/// What was typed, without a trailing `!` (which asks for the scripts hidden by
/// the tags as well), and whether there was one.
pub fn split_bang(value: &str) -> (r: (String, bool))
    ensures
        (r.0@, r.1) == strip_end_mark(value@, '!'),
{
    let v = to_chars(value);
    let n = v.len();
    if n > 0 && v[n - 1] == '!' {
        let mut out: Vec<char> = Vec::new();
        let mut i: usize = 0;
        while i < n - 1
            invariant
                n == v@.len(),
                n > 0,
                i <= n - 1,
                out@ == v@.take(i as int),
            decreases n - 1 - i,
        {
            out.push(v[i]);
            assert(v@.take(i + 1) =~= v@.take(i as int).push(v@[i as int]));
            i = i + 1;
        }
        assert(out@ =~= v@.drop_last());
        (from_chars(out.as_slice()), true)
    } else {
        (value.to_owned(), false)
    }
}

/// What was typed, without a leading `=` (which asks for an exact name), and
/// whether there was one.
pub fn split_exact(value: &str) -> (r: (String, bool))
    ensures
        (r.0@, r.1) == strip_start_mark(value@, '='),
{
    let v = to_chars(value);
    let n = v.len();
    if n > 0 && v[0] == '=' {
        let mut out: Vec<char> = Vec::new();
        let mut i: usize = 1;
        while i < n
            invariant
                n == v@.len(),
                1 <= i <= n,
                out@ == v@.subrange(1, i as int),
            decreases n - i,
        {
            out.push(v[i]);
            assert(v@.subrange(1, i + 1) =~= v@.subrange(1, i as int).push(v@[i as int]));
            i = i + 1;
        }
        assert(out@ =~= v@.drop_first());
        (from_chars(out.as_slice()), true)
    } else {
        (value.to_owned(), false)
    }
}

/// `"!"` when `bang`, nothing otherwise.
pub open spec fn bang_text(bang: bool) -> Seq<char> {
    if bang {
        seq!['!']
    } else {
        Seq::empty()
    }
}

/// The completion of the `i`-th latest script (from 0): its name and its
/// position `^n`, each followed by `!` when `bang`; the name is the value when
/// nothing was typed, the position otherwise.
pub open spec fn latest_item(s: &ScriptInfo, i: int, typed_empty: bool, bang: bool) -> CompletionV {
    let prev = seq!['^'] + decimal((i + 1) as nat) + bang_text(bang);
    let name = name_key(s.name@) + bang_text(bang);
    if typed_empty {
        (name, prev, Some("scripts"@), false)
    } else {
        (prev, name, Some("scripts"@), false)
    }
}

/// The completions of the ten scripts used last, from the latest.
pub open spec fn latest_items(scripts: Seq<&ScriptInfo>, typed_empty: bool, bang: bool) -> Seq<CompletionV> {
    let s = latest_first(scripts);
    let shown = if s.len() > 10 {
        s.take(10)
    } else {
        s
    };
    Seq::new(shown.len(), |i: int| latest_item(shown[i], i, typed_empty, bang))
}

fn scripts_group() -> (r: Option<String>)
    ensures
        r matches Some(g) && g@ == "scripts"@,
{
    Some("scripts".to_owned())
}

/// Completes a script from nothing typed or from `^…`: the ten scripts used
/// last, with their positions.
pub fn latest_completions(scripts: Vec<&ScriptInfo>, typed_empty: bool, bang: bool) -> (r: Vec<CompletionItem>)
    ensures
        items_v(r@) == latest_items(scripts@, typed_empty, bang),
{
    let mut v = scripts;
    sort_scripts(&mut v);
    let ghost s = v@;
    let n: usize = if v.len() > 10 {
        10
    } else {
        v.len()
    };
    let ghost shown = if s.len() > 10 {
        s.take(10)
    } else {
        s
    };
    let ghost target = latest_items(scripts@, typed_empty, bang);
    assert(shown.len() == n);
    let mut out: Vec<CompletionItem> = Vec::new();
    let mut i: usize = 0;
    while i < n
        invariant
            v@ == s,
            s == latest_first(scripts@),
            shown == (if s.len() > 10 {
                s.take(10)
            } else {
                s
            }),
            n == shown.len(),
            n <= 10,
            i <= n,
            target == latest_items(scripts@, typed_empty, bang),
            items_v(out@) == target.take(i as int),
        decreases n - i,
    {
        let s_i = v[i];
        assert(shown[i as int] == s_i);
        let mut prev: Vec<char> = Vec::new();
        prev.push('^');
        let d = crate::num::decimal_chars((i + 1) as u64);
        crate::text::push_all(&mut prev, d.as_slice());
        let mut name = to_chars(s_i.name.key().as_str());
        if bang {
            prev.push('!');
            name.push('!');
        }
        let item = if typed_empty {
            CompletionItem {
                value: from_chars(name.as_slice()),
                desc: from_chars(prev.as_slice()),
                group: scripts_group(),
                always_match: false,
            }
        } else {
            CompletionItem {
                value: from_chars(prev.as_slice()),
                desc: from_chars(name.as_slice()),
                group: scripts_group(),
                always_match: false,
            }
        };
        proof {
            assert(prev@ =~= seq!['^'] + decimal((i + 1) as nat) + bang_text(bang));
            assert(name@ =~= name_key(s_i.name@) + bang_text(bang));
            assert(item@ == latest_item(shown[i as int], i as int, typed_empty, bang));
            assert(target[i as int] == latest_item(shown[i as int], i as int, typed_empty, bang));
        }
        let ghost before = out@;
        out.push(item);
        proof {
            assert(items_v(out@) =~= items_v(before).push(item@));
            assert(target.take(i + 1) =~= target.take(i as int).push(target[i as int]));
        }
        i = i + 1;
    }
    assert(target.take(n as int) =~= target);
    out
}

/// The completions, followed, when what was typed is empty or starts with `+`,
/// by the same ones with `+` before each value.
pub open spec fn plus_prefixed(typed: Seq<char>, comps: Seq<CompletionV>) -> Seq<CompletionV> {
    if typed.len() > 0 && typed[0] != '+' {
        comps
    } else {
        comps + comps.map_values(|c: CompletionV| (seq!['+'] + c.0, c.1, c.2, c.3))
    }
}

pub fn prefix_plus(value: &str, comps: Vec<CompletionItem>) -> (r: Vec<CompletionItem>)
    ensures
        items_v(r@) == plus_prefixed(value@, items_v(comps@)),
{
    let v = to_chars(value);
    if v.len() > 0 && v[0] != '+' {
        return comps;
    }
    let ghost base = items_v(comps@);
    let mut out = comps;
    let n = out.len();
    let mut i: usize = 0;
    while i < n
        invariant
            n == base.len(),
            out@.len() == n + i,
            i <= n,
            items_v(out@) == base + base.take(i as int).map_values(
                |c: CompletionV| (seq!['+'] + c.0, c.1, c.2, c.3),
            ),
        decreases n - i,
    {
        assert(items_v(out@)[i as int] == base[i as int]);
        let c = &out[i];
        let mut value: Vec<char> = Vec::new();
        value.push('+');
        push_str(&mut value, c.value.as_str());
        let item = CompletionItem {
            value: from_chars(value.as_slice()),
            desc: c.desc.clone(),
            group: match &c.group {
                Some(g) => Some(g.clone()),
                None => None,
            },
            always_match: c.always_match,
        };
        let ghost before = out@;
        out.push(item);
        proof {
            assert(items_v(out@) =~= items_v(before).push(item@));
            assert(base.take(i + 1) =~= base.take(i as int).push(base[i as int]));
            assert(base.take(i + 1).map_values(|c: CompletionV| (seq!['+'] + c.0, c.1, c.2, c.3)) =~= base.take(
                i as int,
            ).map_values(|c: CompletionV| (seq!['+'] + c.0, c.1, c.2, c.3)).push(
                (seq!['+'] + base[i as int].0, base[i as int].1, base[i as int].2, base[i as int].3),
            ));
        }
        i = i + 1;
    }
    assert(base.take(n as int) =~= base);
    out
}

/// What a fuzzy search of the scripts found: nothing, one script, or an answer
/// with the candidates close to it and the other matches.
#[derive(Debug)]
pub enum FuzzOutcome<'a> {
    NoMatch,
    Single(&'a ScriptInfo),
    Multi { ans: &'a ScriptInfo, others: Vec<&'a ScriptInfo>, still_others: Vec<&'a ScriptInfo> },
}

/// The name of `c` extends the name of `ans` (as `is_prefix` with `/` decides).
pub open spec fn extends(ans: &ScriptInfo, c: &ScriptInfo) -> bool {
    spec_is_prefix(name_key(ans.name@), name_key(c.name@), seq!['/'])
}

/// The scripts of `s` whose names extend the name of `ans`, in order (`ext`), or
/// those whose names do not (`!ext`).
pub open spec fn by_extension<'a>(ans: &ScriptInfo, s: Seq<&'a ScriptInfo>, ext: bool) -> Seq<&'a ScriptInfo>
    decreases s.len(),
{
    if s.len() == 0 {
        s
    } else {
        let r = by_extension(ans, s.drop_last(), ext);
        if extends(ans, s.last()) == ext {
            r.push(s.last())
        } else {
            r
        }
    }
}

/// The scripts a fuzzy search found, in the order completion offers them: the
/// answer with the close candidates whose names do not extend its name, then
/// those whose names do, then the other matches, each part from the script used
/// last.
pub open spec fn fuzz_order<'a>(f: FuzzOutcome<'a>) -> Seq<&'a ScriptInfo> {
    match f {
        FuzzOutcome::NoMatch => Seq::empty(),
        FuzzOutcome::Single(t) => seq![t],
        FuzzOutcome::Multi { ans, others, still_others } => latest_first(
            by_extension(ans, others@, false).push(ans),
        ) + latest_first(by_extension(ans, others@, true)) + latest_first(still_others@),
    }
}

pub fn order_fuzz_matches<'a>(f: FuzzOutcome<'a>) -> (r: Vec<&'a ScriptInfo>)
    ensures
        r@ == fuzz_order(f),
{
    match f {
        FuzzOutcome::NoMatch => Vec::new(),
        FuzzOutcome::Single(t) => vec![t],
        FuzzOutcome::Multi { ans, others, still_others } => {
            let prefix = ans.name.key();
            let mut firsts: Vec<&'a ScriptInfo> = Vec::new();
            let mut prefixed: Vec<&'a ScriptInfo> = Vec::new();
            let mut i: usize = 0;
            while i < others.len()
                invariant
                    i <= others@.len(),
                    prefix@ == name_key(ans.name@),
                    firsts@ == by_extension(ans, others@.take(i as int), false),
                    prefixed@ == by_extension(ans, others@.take(i as int), true),
                decreases others@.len() - i,
            {
                let c = others[i];
                let key = c.name.key();
                proof {
                    reveal_strlit("/");
                    assert("/"@ =~= seq!['/']);
                    assert(others@.take(i + 1).drop_last() =~= others@.take(i as int));
                    assert(others@.take(i + 1).last() == c);
                }
                if is_prefix(prefix.as_str(), key.as_str(), "/") {
                    prefixed.push(c);
                } else {
                    firsts.push(c);
                }
                i = i + 1;
            }
            assert(others@.take(others@.len() as int) =~= others@);
            firsts.push(ans);
            sort_scripts(&mut firsts);
            sort_scripts(&mut prefixed);
            let mut rest = still_others;
            sort_scripts(&mut rest);
            firsts.append(&mut prefixed);
            firsts.append(&mut rest);
            firsts
        },
    }
}

/// The completion of a script a fuzzy search found: its name, after `=` when an
/// exact name was asked for and followed by `!` when `bang`, described by what
/// was typed, offered whatever was typed (the search reorders the parts).
pub open spec fn fuzz_item(s: &ScriptInfo, typed: Seq<char>, exact: bool, bang: bool) -> CompletionV {
    (
        (if exact {
            seq!['=']
        } else {
            Seq::empty()
        }) + name_key(s.name@) + bang_text(bang),
        typed,
        Some("scripts"@),
        true,
    )
}

pub fn fuzz_completions(scripts: Vec<&ScriptInfo>, typed: &str, exact: bool, bang: bool) -> (r: Vec<CompletionItem>)
    ensures
        items_v(r@) == scripts@.map_values(|s: &ScriptInfo| fuzz_item(s, typed@, exact, bang)),
{
    let ghost target = scripts@.map_values(|s: &ScriptInfo| fuzz_item(s, typed@, exact, bang));
    let mut out: Vec<CompletionItem> = Vec::new();
    let mut i: usize = 0;
    while i < scripts.len()
        invariant
            i <= scripts@.len(),
            target == scripts@.map_values(|s: &ScriptInfo| fuzz_item(s, typed@, exact, bang)),
            items_v(out@) == target.take(i as int),
        decreases scripts@.len() - i,
    {
        let s = scripts[i];
        let mut name: Vec<char> = Vec::new();
        if exact {
            name.push('=');
        }
        push_str(&mut name, s.name.key().as_str());
        if bang {
            name.push('!');
        }
        let item = CompletionItem {
            value: from_chars(name.as_slice()),
            desc: typed.to_owned(),
            group: scripts_group(),
            always_match: true,
        };
        proof {
            assert(name@ =~= fuzz_item(s, typed@, exact, bang).0);
            assert(item@ == fuzz_item(s, typed@, exact, bang));
        }
        let ghost before = out@;
        out.push(item);
        proof {
            assert(items_v(out@) =~= items_v(before).push(item@));
            assert(target.take(i + 1) =~= target.take(i as int).push(target[i as int]));
        }
        i = i + 1;
    }
    assert(target.take(scripts@.len() as int) =~= target);
    out
}

/// What completing a script asks for: the latest scripts (nothing typed, or
/// `^…`), or a fuzzy search for `name`; `exact` for a leading `=`, `bang` for a
/// trailing `!`.
#[derive(Debug)]
pub enum ScriptCompletion {
    Latest { typed_empty: bool, bang: bool },
    Fuzzy { name: String, exact: bool, bang: bool },
}

/// How `completion_query` reads what was typed.
pub open spec fn spec_completion_query(value: Seq<char>) -> (bool, Option<(Seq<char>, bool)>, bool) {
    let (v, bang) = strip_end_mark(value, '!');
    if v.len() == 0 || v[0] == '^' {
        (v.len() == 0, None, bang)
    } else {
        let (n, exact) = strip_start_mark(v, '=');
        (false, Some((n, exact)), bang)
    }
}

pub fn completion_query(value: &str) -> (r: ScriptCompletion)
    ensures
        match r {
            ScriptCompletion::Latest { typed_empty, bang } => spec_completion_query(value@) == (
                typed_empty,
                None::<(Seq<char>, bool)>,
                bang,
            ),
            ScriptCompletion::Fuzzy { name, exact, bang } => spec_completion_query(value@) == (
                false,
                Some((name@, exact)),
                bang,
            ),
        },
{
    let (v, bang) = split_bang(value);
    let c = to_chars(v.as_str());
    if c.len() == 0 || c[0] == '^' {
        ScriptCompletion::Latest { typed_empty: c.len() == 0, bang }
    } else {
        let (name, exact) = split_exact(v.as_str());
        ScriptCompletion::Fuzzy { name, exact, bang }
    }
}

/// A completion with no description, in `group` when there is one.
pub open spec fn plain_item(value: Seq<char>, group: Option<Seq<char>>) -> CompletionV {
    (value, Seq::empty(), group, false)
}

fn plain_completion(value: String, group: Option<&str>) -> (r: CompletionItem)
    ensures
        r@ == plain_item(
            value@,
            match group {
                Some(g) => Some(g@),
                None => None,
            },
        ),
{
    CompletionItem {
        value,
        desc: String::new(),
        group: match group {
            Some(g) => Some(g.to_owned()),
            None => None,
        },
        always_match: false,
    }
}

/// The completions of the aliases: each name, described by what it stands
/// for, its words joined with spaces.
pub open spec fn alias_items(aliases: Seq<(Seq<char>, Seq<Seq<char>>)>) -> Seq<CompletionV> {
    aliases.map_values(|a: (Seq<char>, Seq<Seq<char>>)| (a.0, join_seq(a.1, seq![' ']), Some("alias"@), false))
}

/// Views of the configured aliases: names and the words they stand for.
pub open spec fn aliases_v(conf: &Config) -> Seq<(Seq<char>, Seq<Seq<char>>)> {
    conf.alias@.map_values(|a: (String, crate::config::Alias)| (a.0@, a.1.after.deep_view()))
}

pub fn alias_completions(conf: &Config) -> (r: Vec<CompletionItem>)
    ensures
        items_v(r@) == alias_items(aliases_v(conf)),
{
    let ghost target = alias_items(aliases_v(conf));
    let mut out: Vec<CompletionItem> = Vec::new();
    let mut i: usize = 0;
    proof {
        reveal_strlit(" ");
    }
    while i < conf.alias.len()
        invariant
            i <= conf.alias@.len(),
            target == alias_items(aliases_v(conf)),
            items_v(out@) == target.take(i as int),
            " "@ == seq![' '],
        decreases conf.alias@.len() - i,
    {
        let (name, alias) = &conf.alias[i];
        let item = CompletionItem {
            value: name.clone(),
            desc: join_strings(&alias.after, " "),
            group: Some("alias".to_owned()),
            always_match: false,
        };
        let ghost before = out@;
        out.push(item);
        proof {
            assert(target[i as int] == item@);
            assert(items_v(out@) =~= items_v(before).push(item@));
            assert(target.take(i + 1) =~= target.take(i as int).push(target[i as int]));
        }
        i = i + 1;
    }
    assert(target.take(conf.alias@.len() as int) =~= target);
    out
}

/// The completions of the named tag selectors: their names.
pub fn selector_completions(conf: &Config) -> (r: Vec<CompletionItem>)
    ensures
        items_v(r@) == conf.tag_selectors@.map_values(
            |s: crate::config::NamedTagSelector| plain_item(s.name@, None),
        ),
{
    let ghost target = conf.tag_selectors@.map_values(|s: crate::config::NamedTagSelector| plain_item(s.name@, None));
    let mut out: Vec<CompletionItem> = Vec::new();
    let mut i: usize = 0;
    while i < conf.tag_selectors.len()
        invariant
            i <= conf.tag_selectors@.len(),
            target == conf.tag_selectors@.map_values(
                |s: crate::config::NamedTagSelector| plain_item(s.name@, None),
            ),
            items_v(out@) == target.take(i as int),
        decreases conf.tag_selectors@.len() - i,
    {
        let item = plain_completion(conf.tag_selectors[i].name.clone(), None);
        let ghost before = out@;
        out.push(item);
        proof {
            assert(items_v(out@) =~= items_v(before).push(item@));
            assert(target.take(i + 1) =~= target.take(i as int).push(target[i as int]));
        }
        i = i + 1;
    }
    assert(target.take(conf.tag_selectors@.len() as int) =~= target);
    out
}

/// `values`, each between `before` and `after`, as completions in `group`.
pub open spec fn wrapped_items(values: Seq<Seq<char>>, before: Seq<char>, after: Seq<char>, group: Seq<char>) -> Seq<
    CompletionV,
> {
    values.map_values(|v: Seq<char>| plain_item(before + v + after, Some(group)))
}

fn wrapped_completions(values: &Vec<String>, before: &str, after: &str, group: &str, out: &mut Vec<CompletionItem>)
    ensures
        items_v(final(out)@) == items_v(old(out)@) + wrapped_items(values.deep_view(), before@, after@, group@),
{
    let ghost start = items_v(out@);
    let ghost target = wrapped_items(values.deep_view(), before@, after@, group@);
    let mut i: usize = 0;
    while i < values.len()
        invariant
            i <= values@.len(),
            target == wrapped_items(values.deep_view(), before@, after@, group@),
            items_v(out@) == start + target.take(i as int),
        decreases values@.len() - i,
    {
        let mut v: Vec<char> = Vec::new();
        push_str(&mut v, before);
        push_str(&mut v, values[i].as_str());
        push_str(&mut v, after);
        let item = plain_completion(from_chars(v.as_slice()), Some(group));
        let ghost prev = out@;
        out.push(item);
        proof {
            assert(values.deep_view()[i as int] == values@[i as int]@);
            assert(item@ == target[i as int]);
            assert(items_v(out@) =~= items_v(prev).push(item@));
            assert(start + target.take(i + 1) =~= (start + target.take(i as int)).push(target[i as int]));
        }
        i = i + 1;
    }
    assert(target.take(values@.len() as int) =~= target);
}

fn tag_names(tags: &Vec<Tag>) -> (r: Vec<String>)
    ensures
        r.deep_view() == tags@.map_values(|t: Tag| t@),
{
    let mut out: Vec<String> = Vec::new();
    let mut i: usize = 0;
    while i < tags.len()
        invariant
            i <= tags@.len(),
            out.deep_view() == tags@.take(i as int).map_values(|t: Tag| t@),
        decreases tags@.len() - i,
    {
        out.push(tags[i].0.clone());
        proof {
            assert(tags@.take(i + 1).map_values(|t: Tag| t@) =~= tags@.take(i as int).map_values(|t: Tag| t@).push(
                tags@[i as int]@,
            ));
            assert(out.deep_view() =~= tags@.take(i + 1).map_values(|t: Tag| t@));
        }
        i = i + 1;
    }
    assert(tags@.take(tags@.len() as int) =~= tags@);
    out
}

/// Completes a selection (`--select`): each type as `@type!`, each known tag as
/// `tag!`, all of them also after `+` when nothing or `+…` was typed.
pub fn select_completions(value: &str, types: &Vec<String>, tags: &Vec<Tag>) -> (r: Vec<CompletionItem>)
    ensures
        items_v(r@) == plus_prefixed(
            value@,
            wrapped_items(types.deep_view(), seq!['@'], seq!['!'], "types"@) + wrapped_items(
                tags@.map_values(|t: Tag| t@),
                Seq::empty(),
                seq!['!'],
                "tags"@,
            ),
        ),
{
    proof {
        reveal_strlit("@");
        reveal_strlit("!");
        reveal_strlit("");
    }
    assert("@"@ =~= seq!['@'] && "!"@ =~= seq!['!'] && ""@ =~= Seq::<char>::empty());
    let mut out: Vec<CompletionItem> = Vec::new();
    wrapped_completions(types, "@", "!", "types", &mut out);
    wrapped_completions(&tag_names(tags), "", "!", "tags", &mut out);
    assert(items_v(Seq::<CompletionItem>::empty()) =~= Seq::<CompletionV>::empty());
    prefix_plus(value, out)
}

/// Completes the first argument of an unknown command: each known tag as `+tag`.
pub fn filter_tag_completions(tags: &Vec<Tag>) -> (r: Vec<CompletionItem>)
    ensures
        items_v(r@) == wrapped_items(tags@.map_values(|t: Tag| t@), seq!['+'], Seq::empty(), "tags"@),
{
    proof {
        reveal_strlit("+");
        reveal_strlit("");
    }
    assert("+"@ =~= seq!['+'] && ""@ =~= Seq::<char>::empty());
    let mut out: Vec<CompletionItem> = Vec::new();
    wrapped_completions(&tag_names(tags), "+", "", "tags", &mut out);
    assert(items_v(Seq::<CompletionItem>::empty()) =~= Seq::<CompletionV>::empty());
    out
}

/// Completes the tags of an edit, a move or a copy: each known tag, also after
/// `+` when nothing or `+…` was typed.
pub fn edit_tag_completions(value: &str, tags: &Vec<Tag>) -> (r: Vec<CompletionItem>)
    ensures
        items_v(r@) == plus_prefixed(
            value@,
            wrapped_items(tags@.map_values(|t: Tag| t@), Seq::empty(), Seq::empty(), "tags"@),
        ),
{
    proof {
        reveal_strlit("");
    }
    let mut out: Vec<CompletionItem> = Vec::new();
    wrapped_completions(&tag_names(tags), "", "", "tags", &mut out);
    assert(items_v(Seq::<CompletionItem>::empty()) =~= Seq::<CompletionV>::empty());
    prefix_plus(value, out)
}

/// Completes a type: each of `types`.
pub fn type_completions(types: &Vec<String>) -> (r: Vec<CompletionItem>)
    ensures
        items_v(r@) == wrapped_items(types.deep_view(), Seq::empty(), Seq::empty(), "types"@),
{
    proof {
        reveal_strlit("");
    }
    let mut out: Vec<CompletionItem> = Vec::new();
    wrapped_completions(types, "", "", "types", &mut out);
    assert(items_v(Seq::<CompletionItem>::empty()) =~= Seq::<CompletionV>::empty());
    out
}

/// Completes the setting of recency: `no-neglect` and `timeless`.
pub fn recent_completions() -> (r: Vec<CompletionItem>)
    ensures
        items_v(r@) == seq![plain_item("no-neglect"@, None), plain_item("timeless"@, None)],
{
    let mut out: Vec<CompletionItem> = Vec::new();
    out.push(plain_completion("no-neglect".to_owned(), None));
    out.push(plain_completion("timeless".to_owned(), None));
    assert(items_v(out@) =~= seq![plain_item("no-neglect"@, None), plain_item("timeless"@, None)]);
    out
}

} // verus!
