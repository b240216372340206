//! Changes to the configuration asked for on the command line: setting and
//! removing aliases, and setting, toggling and removing named tag selectors.
use crate::args::{alias_pos, lemma_alias_pos, lemma_alias_pos_range};
use crate::config::{alias_view, selectors_view, Alias, Config, NamedTagSelector};
use crate::error::{Error, Result};
use crate::tag::{ControlV, TagSelector};
use crate::text::{from_chars, join_seq, join_strings, push_str, str_eq};
use vstd::prelude::*;

verus! {

/// View of the named selectors: name, whether it is switched off, and content.
pub type SelectorV = (Seq<char>, bool, (bool, Seq<ControlV>));

/// The aliases with `name` standing for `after`: what it stood for replaced, or
/// added last when there was no such alias.
pub open spec fn alias_set(
    aliases: Seq<(Seq<char>, Seq<Seq<char>>)>,
    name: Seq<char>,
    after: Seq<Seq<char>>,
) -> Seq<(Seq<char>, Seq<Seq<char>>)> {
    match alias_pos(aliases, name) {
        Some(i) => aliases.update(i, (name, after)),
        None => aliases.push((name, after)),
    }
}

/// The line that shows an alias: its name, a tab, and its words joined with
/// spaces.
pub open spec fn alias_line_text(name: Seq<char>, after: Seq<Seq<char>>) -> Seq<char> {
    name + seq!['\t'] + join_seq(after, seq![' '])
}

/// The position of the selector named `name`.
pub open spec fn selector_pos(s: Seq<SelectorV>, name: Seq<char>) -> Option<int>
    decreases s.len(),
{
    if s.len() == 0 {
        None
    } else {
        match selector_pos(s.drop_last(), name) {
            Some(i) => Some(i),
            None => if s.last().0 == name {
                Some(s.len() - 1)
            } else {
                None
            },
        }
    }
}

/// The selectors with the one named `name` switched on or off.
pub open spec fn selector_toggled(s: Seq<SelectorV>, name: Seq<char>) -> Seq<SelectorV> {
    match selector_pos(s, name) {
        Some(i) => s.update(i, (s[i].0, !s[i].1, s[i].2)),
        None => s,
    }
}

/// The selectors with `content` under `name`: its content replaced (whether it
/// is switched off kept), or added last and switched on.
pub open spec fn selector_set(s: Seq<SelectorV>, name: Seq<char>, content: (bool, Seq<ControlV>)) -> Seq<SelectorV> {
    match selector_pos(s, name) {
        Some(i) => s.update(i, (name, s[i].1, content)),
        None => s.push((name, false, content)),
    }
}

proof fn lemma_selector_pos(s: Seq<SelectorV>, name: Seq<char>, i: int)
    requires
        0 <= i <= s.len(),
        forall|j: int| 0 <= j < i ==> (#[trigger] s[j]).0 != name,
    ensures
        i < s.len() && s[i].0 == name ==> selector_pos(s, name) == Some(i),
        i == s.len() ==> selector_pos(s, name) is None,
    decreases s.len(),
{
    if s.len() > 0 {
        if i < s.len() {
            lemma_selector_pos(s.drop_last(), name, i);
        } else {
            lemma_selector_pos(s.drop_last(), name, i - 1);
        }
    }
}

pub proof fn lemma_selector_pos_range(s: Seq<SelectorV>, name: Seq<char>)
    ensures
        selector_pos(s, name) matches Some(i) ==> 0 <= i < s.len() && s[i].0 == name,
    decreases s.len(),
{
    if s.len() > 0 {
        lemma_selector_pos_range(s.drop_last(), name);
    }
}

/// The first selector named `name` among the first `n` of `s`, if any.
fn find_selector(s: &Vec<NamedTagSelector>, name: &str) -> (r: Option<usize>)
    ensures
        match selector_pos(selectors_view(s@), name@) {
            Some(i) => r matches Some(k) && k as int == i,
            None => r is None,
        },
{
    let ghost sv = selectors_view(s@);
    let mut i: usize = 0;
    while i < s.len()
        invariant
            sv == selectors_view(s@),
            i <= s@.len(),
            forall|j: int| 0 <= j < i ==> (#[trigger] sv[j]).0 != name@,
        decreases s@.len() - i,
    {
        if str_eq(s[i].name.as_str(), name) {
            proof {
                lemma_selector_pos(sv, name@, i as int);
            }
            return Some(i);
        }
        i = i + 1;
    }
    proof {
        lemma_selector_pos(sv, name@, i as int);
    }
    None
}

/// The first alias named `name`, if any.
fn find_alias_pos(a: &Vec<(String, Alias)>, name: &str) -> (r: Option<usize>)
    ensures
        match alias_pos(alias_view(a@), name@) {
            Some(i) => r matches Some(k) && k as int == i,
            None => r is None,
        },
{
    let ghost av = alias_view(a@);
    let mut i: usize = 0;
    while i < a.len()
        invariant
            av == alias_view(a@),
            i <= a@.len(),
            forall|j: int| 0 <= j < i ==> (#[trigger] av[j]).0 != name@,
        decreases a@.len() - i,
    {
        if str_eq(a[i].0.as_str(), name) {
            proof {
                lemma_alias_pos(av, name@, i as int);
            }
            return Some(i);
        }
        i = i + 1;
    }
    proof {
        lemma_alias_pos(av, name@, i as int);
    }
    None
}

impl Config {
    /// Lets `name` stand for `after`.
    pub fn set_alias(&mut self, name: String, after: Vec<String>)
        ensures
            alias_view(final(self).alias@) == alias_set(alias_view(old(self).alias@), name@, after.deep_view()),
            final(self).tag_selectors@ == old(self).tag_selectors@,
    {
        let ghost av = alias_view(self.alias@);
        let ghost nv = name@;
        let ghost dv = after.deep_view();
        match find_alias_pos(&self.alias, name.as_str()) {
            Some(i) => {
                proof {
                    lemma_alias_pos_range(av, nv);
                }
                self.alias.set(i, (name, Alias { after }));
                assert(alias_view(self.alias@) =~= av.update(i as int, (nv, dv)));
            },
            None => {
                self.alias.push((name, Alias { after }));
                assert(alias_view(self.alias@) =~= av.push((nv, dv)));
            },
        }
    }

    /// Removes the alias `name`; `NoAlias` when there is none.
    pub fn unset_alias(&mut self, name: &str) -> (r: Result<()>)
        ensures
            match alias_pos(alias_view(old(self).alias@), name@) {
                Some(i) => r is Ok && alias_view(final(self).alias@) == alias_view(old(self).alias@).remove(i),
                None => r matches Err(Error::NoAlias(n)) && n@ == name@ && final(self).alias@ == old(self).alias@,
            },
            final(self).tag_selectors@ == old(self).tag_selectors@,
    {
        let ghost av = alias_view(self.alias@);
        match find_alias_pos(&self.alias, name) {
            Some(i) => {
                proof {
                    lemma_alias_pos_range(av, name@);
                }
                self.alias.remove(i);
                assert(alias_view(self.alias@) =~= av.remove(i as int));
                Ok(())
            },
            None => Err(Error::NoAlias(name.to_owned())),
        }
    }

    /// The line that shows the alias `name`; `NoAlias` when there is none.
    pub fn alias_line(&self, name: &str) -> (r: Result<String>)
        ensures
            match alias_pos(alias_view(self.alias@), name@) {
                Some(i) => r matches Ok(t) && t@ == alias_line_text(name@, alias_view(self.alias@)[i].1),
                None => r matches Err(Error::NoAlias(n)) && n@ == name@,
            },
    {
        match find_alias_pos(&self.alias, name) {
            Some(i) => {
                proof {
                    lemma_alias_pos_range(alias_view(self.alias@), name@);
                    reveal_strlit(" ");
                }
                assert(alias_pos(alias_view(self.alias@), name@) == Some(i as int));
                assert(" "@ =~= seq![' ']);
                let mut v: Vec<char> = Vec::new();
                push_str(&mut v, name);
                v.push('\t');
                let after = join_strings(&self.alias[i as usize].1.after, " ");
                push_str(&mut v, after.as_str());
                assert(v@ =~= alias_line_text(name@, alias_view(self.alias@)[i as int].1));
                Ok(from_chars(v.as_slice()))
            },
            None => Err(Error::NoAlias(name.to_owned())),
        }
    }

    /// The lines that show every alias, in order.
    pub fn alias_lines(&self) -> (r: Vec<String>)
        ensures
            r.deep_view() == alias_view(self.alias@).map_values(
                |a: (Seq<char>, Seq<Seq<char>>)| alias_line_text(a.0, a.1),
            ),
    {
        let ghost target = alias_view(self.alias@).map_values(
            |a: (Seq<char>, Seq<Seq<char>>)| alias_line_text(a.0, a.1),
        );
        proof {
            reveal_strlit(" ");
        }
        let mut out: Vec<String> = Vec::new();
        let mut i: usize = 0;
        while i < self.alias.len()
            invariant
                i <= self.alias@.len(),
                " "@ == seq![' '],
                target == alias_view(self.alias@).map_values(
                    |a: (Seq<char>, Seq<Seq<char>>)| alias_line_text(a.0, a.1),
                ),
                out.deep_view() == target.take(i as int),
            decreases self.alias@.len() - i,
        {
            let mut v: Vec<char> = Vec::new();
            push_str(&mut v, self.alias[i].0.as_str());
            v.push('\t');
            let after = join_strings(&self.alias[i].1.after, " ");
            push_str(&mut v, after.as_str());
            let line = from_chars(v.as_slice());
            proof {
                assert(line@ =~= target[i as int]);
            }
            let ghost before = out.deep_view();
            out.push(line);
            proof {
                assert(out.deep_view() =~= before.push(line@));
                assert(target.take(i + 1) =~= target.take(i as int).push(target[i as int]));
            }
            i = i + 1;
        }
        assert(target.take(self.alias@.len() as int) =~= target);
        out
    }

    /// Removes the selector `name`; `TagSelectorNotFound` when there is none.
    pub fn unset_selector(&mut self, name: &str) -> (r: Result<()>)
        ensures
            match selector_pos(selectors_view(old(self).tag_selectors@), name@) {
                Some(i) => r is Ok && selectors_view(final(self).tag_selectors@) == selectors_view(
                    old(self).tag_selectors@,
                ).remove(i),
                None => r matches Err(Error::TagSelectorNotFound(n)) && n@ == name@ && final(self).tag_selectors@
                    == old(self).tag_selectors@,
            },
            final(self).alias@ == old(self).alias@,
    {
        let ghost sv = selectors_view(self.tag_selectors@);
        match find_selector(&self.tag_selectors, name) {
            Some(i) => {
                proof {
                    lemma_selector_pos_range(sv, name@);
                }
                self.tag_selectors.remove(i);
                assert(selectors_view(self.tag_selectors@) =~= sv.remove(i as int));
                Ok(())
            },
            None => Err(Error::TagSelectorNotFound(name.to_owned())),
        }
    }

    /// Switches the selector `name` off, or on again; `TagSelectorNotFound` when
    /// there is none.
    pub fn toggle_selector(&mut self, name: &str) -> (r: Result<()>)
        ensures
            match selector_pos(selectors_view(old(self).tag_selectors@), name@) {
                Some(_) => r is Ok,
                None => r matches Err(Error::TagSelectorNotFound(n)) && n@ == name@,
            },
            selectors_view(final(self).tag_selectors@) == selector_toggled(
                selectors_view(old(self).tag_selectors@),
                name@,
            ),
            final(self).alias@ == old(self).alias@,
    {
        let ghost sv = selectors_view(self.tag_selectors@);
        match find_selector(&self.tag_selectors, name) {
            Some(i) => {
                proof {
                    lemma_selector_pos_range(sv, name@);
                }
                let mut s = self.tag_selectors.remove(i);
                s.inactivated = !s.inactivated;
                self.tag_selectors.insert(i, s);
                assert(selectors_view(self.tag_selectors@) =~= selector_toggled(sv, name@));
                Ok(())
            },
            None => {
                assert(selectors_view(self.tag_selectors@) =~= selector_toggled(sv, name@));
                Err(Error::TagSelectorNotFound(name.to_owned()))
            },
        }
    }

    /// Puts `content` under the selector `name`, or, with no name, makes it the
    /// main selector.
    pub fn set_selector(&mut self, name: Option<String>, content: TagSelector)
        ensures
            match name {
                Some(n) => selectors_view(final(self).tag_selectors@) == selector_set(
                    selectors_view(old(self).tag_selectors@),
                    n@,
                    content@,
                ) && final(self).main_tag_selector == old(self).main_tag_selector,
                None => final(self).main_tag_selector == content && final(self).tag_selectors@ == old(
                    self,
                ).tag_selectors@,
            },
            final(self).alias@ == old(self).alias@,
    {
        match name {
            Some(n) => {
                let ghost sv = selectors_view(self.tag_selectors@);
                let ghost nv = n@;
                let ghost cv = content@;
                match find_selector(&self.tag_selectors, n.as_str()) {
                    Some(i) => {
                        proof {
                            lemma_selector_pos_range(sv, nv);
                        }
                        assert(selector_pos(sv, nv) == Some(i as int));
                        assert(sv[i as int].0 == nv);
                        let mut s = self.tag_selectors.remove(i);
                        assert(s.name@ == nv && s.inactivated == sv[i as int].1);
                        s.content = content;
                        assert(s.content@ == cv);
                        self.tag_selectors.insert(i, s);
                        assert(selectors_view(self.tag_selectors@) =~= sv.update(i as int, (nv, sv[i as int].1, cv)));
                    },
                    None => {
                        self.tag_selectors.push(NamedTagSelector { content, name: n, inactivated: false });
                        assert(selectors_view(self.tag_selectors@) =~= sv.push((nv, false, cv)));
                    },
                }
            },
            None => {
                self.main_tag_selector = content;
            },
        }
    }
}

proof fn lemma_alias_pos_first(a: Seq<(Seq<char>, Seq<Seq<char>>)>, name: Seq<char>)
    ensures
        match alias_pos(a, name) {
            Some(i) => 0 <= i < a.len() && a[i].0 == name && forall|j: int| 0 <= j < i ==> (#[trigger] a[j]).0 != name,
            None => forall|j: int| 0 <= j < a.len() ==> (#[trigger] a[j]).0 != name,
        },
    decreases a.len(),
{
    if a.len() > 0 {
        lemma_alias_pos_first(a.drop_last(), name);
        let d = a.drop_last();
        assert forall|j: int| 0 <= j < d.len() implies (#[trigger] a[j]).0 == d[j].0 by {}
    }
}

proof fn lemma_selector_pos_first(s: Seq<SelectorV>, name: Seq<char>)
    ensures
        match selector_pos(s, name) {
            Some(i) => 0 <= i < s.len() && s[i].0 == name && forall|j: int| 0 <= j < i ==> (#[trigger] s[j]).0 != name,
            None => forall|j: int| 0 <= j < s.len() ==> (#[trigger] s[j]).0 != name,
        },
    decreases s.len(),
{
    if s.len() > 0 {
        lemma_selector_pos_first(s.drop_last(), name);
        let d = s.drop_last();
        assert forall|j: int| 0 <= j < d.len() implies (#[trigger] s[j]).0 == d[j].0 by {}
    }
}

/// After `name` is set to stand for `after`, looking `name` up finds `after`.
pub proof fn law_alias_set_then_found(aliases: Seq<(Seq<char>, Seq<Seq<char>>)>, name: Seq<char>, after: Seq<Seq<char>>)
    ensures
        ({
            let r = alias_set(aliases, name, after);
            alias_pos(r, name) matches Some(i) && r[i].1 == after
        }),
{
    lemma_alias_pos_first(aliases, name);
    let r = alias_set(aliases, name, after);
    match alias_pos(aliases, name) {
        Some(i) => {
            assert forall|j: int| 0 <= j < i implies (#[trigger] r[j]).0 != name by {
                assert(r[j] == aliases[j]);
            }
            lemma_alias_pos(r, name, i);
        },
        None => {
            assert forall|j: int| 0 <= j < aliases.len() implies (#[trigger] r[j]).0 != name by {
                assert(r[j] == aliases[j]);
            }
            lemma_alias_pos(r, name, aliases.len() as int);
        },
    }
}

/// Once `content` is put under `name`, the selector `name` holds `content`.
pub proof fn law_selector_set_then_found(s: Seq<SelectorV>, name: Seq<char>, content: (bool, Seq<ControlV>))
    ensures
        ({
            let r = selector_set(s, name, content);
            selector_pos(r, name) matches Some(i) && r[i].2 == content
        }),
{
    lemma_selector_pos_first(s, name);
    let r = selector_set(s, name, content);
    match selector_pos(s, name) {
        Some(i) => {
            assert forall|j: int| 0 <= j < i implies (#[trigger] r[j]).0 != name by {
                assert(r[j] == s[j]);
            }
            lemma_selector_pos(r, name, i);
        },
        None => {
            assert forall|j: int| 0 <= j < s.len() implies (#[trigger] r[j]).0 != name by {
                assert(r[j] == s[j]);
            }
            lemma_selector_pos(r, name, s.len() as int);
        },
    }
}

/// Switching a selector twice leaves the selectors as they were.
pub proof fn law_toggle_twice(s: Seq<SelectorV>, name: Seq<char>)
    ensures
        selector_toggled(selector_toggled(s, name), name) == s,
{
    lemma_selector_pos_first(s, name);
    let t = selector_toggled(s, name);
    match selector_pos(s, name) {
        Some(i) => {
            assert forall|j: int| 0 <= j < i implies (#[trigger] t[j]).0 != name by {
                assert(t[j] == s[j]);
            }
            lemma_selector_pos(t, name, i);
            assert(selector_toggled(t, name) =~= s);
        },
        None => {},
    }
}

/// No two aliases share a name.
pub open spec fn alias_names_distinct(a: Seq<(Seq<char>, Seq<Seq<char>>)>) -> bool {
    forall|i: int, j: int| 0 <= i < j < a.len() ==> (#[trigger] a[i]).0 != (#[trigger] a[j]).0
}

/// No two named selectors share a name.
pub open spec fn selector_names_distinct(s: Seq<SelectorV>) -> bool {
    forall|i: int, j: int| 0 <= i < j < s.len() ==> (#[trigger] s[i]).0 != (#[trigger] s[j]).0
}

/// Setting an alias, or removing the one at `k`, keeps the names of the aliases
/// distinct, as the keys of a map are.
pub proof fn law_alias_names_stay_distinct(
    aliases: Seq<(Seq<char>, Seq<Seq<char>>)>,
    name: Seq<char>,
    after: Seq<Seq<char>>,
    k: int,
)
    requires
        alias_names_distinct(aliases),
    ensures
        alias_names_distinct(alias_set(aliases, name, after)),
        0 <= k < aliases.len() ==> alias_names_distinct(aliases.remove(k)),
{
    lemma_alias_pos_first(aliases, name);
    let r = alias_set(aliases, name, after);
    assert forall|i: int, j: int| 0 <= i < j < r.len() implies (#[trigger] r[i]).0 != (#[trigger] r[j]).0 by {
        match alias_pos(aliases, name) {
            Some(p) => {
                assert(r[i].0 == aliases[i].0 && r[j].0 == aliases[j].0);
            },
            None => {
                if j == aliases.len() {
                    assert(r[i] == aliases[i]);
                } else {
                    assert(r[i] == aliases[i] && r[j] == aliases[j]);
                }
            },
        }
    }
    if 0 <= k < aliases.len() {
        let d = aliases.remove(k);
        assert forall|i: int, j: int| 0 <= i < j < d.len() implies (#[trigger] d[i]).0 != (#[trigger] d[j]).0 by {
            let i2 = if i < k { i } else { i + 1 };
            let j2 = if j < k { j } else { j + 1 };
            assert(d[i] == aliases[i2] && d[j] == aliases[j2]);
        }
    }
}

/// Setting, switching or removing a named selector keeps the names of the
/// selectors distinct.
pub proof fn law_selector_names_stay_distinct(
    s: Seq<SelectorV>,
    name: Seq<char>,
    content: (bool, Seq<ControlV>),
    k: int,
)
    requires
        selector_names_distinct(s),
    ensures
        selector_names_distinct(selector_set(s, name, content)),
        selector_names_distinct(selector_toggled(s, name)),
        0 <= k < s.len() ==> selector_names_distinct(s.remove(k)),
{
    lemma_selector_pos_first(s, name);
    let r = selector_set(s, name, content);
    assert forall|i: int, j: int| 0 <= i < j < r.len() implies (#[trigger] r[i]).0 != (#[trigger] r[j]).0 by {
        match selector_pos(s, name) {
            Some(p) => {
                assert(r[i].0 == s[i].0 && r[j].0 == s[j].0);
            },
            None => {
                if j == s.len() {
                    assert(r[i] == s[i]);
                } else {
                    assert(r[i] == s[i] && r[j] == s[j]);
                }
            },
        }
    }
    let t = selector_toggled(s, name);
    assert forall|i: int, j: int| 0 <= i < j < t.len() implies (#[trigger] t[i]).0 != (#[trigger] t[j]).0 by {
        assert(t[i].0 == s[i].0 && t[j].0 == s[j].0);
    }
    if 0 <= k < s.len() {
        let d = s.remove(k);
        assert forall|i: int, j: int| 0 <= i < j < d.len() implies (#[trigger] d[i]).0 != (#[trigger] d[j]).0 by {
            let i2 = if i < k { i } else { i + 1 };
            let j2 = if j < k { j } else { j + 1 };
            assert(d[i] == s[i2] && d[j] == s[j2]);
        }
    }
}

} // verus!
