//! Listing scripts: how they are grouped and named, and the tree of their names.
use crate::color::{styled_text, Color, Stylize};
use crate::error::{DisplayResult, FormatCode, Result};
use crate::fuzzy::byte_len;
use crate::script::{name_key, NameV, ScriptInfo};
use crate::tag::{Tag, TagSet};
use crate::table::Collumn;
use crate::text::{from_chars, push_str, split_char, split_seq, str_eq, to_chars};
use crate::tree_lib::{
    dir_safe, dirs_filled, entry_key, find_entry, inner_tidy, leading_ok, leading_v_pieces, lines_v, map_insert,
    nested_tidy, path_from, pieces_text, put_entry, tree_lines, tv_display, tv_list, TreeItem, TreeLine, TreeNode,
    TreeV, TreeValue,
};
use vstd::prelude::*;

verus! {

/// How a script is named in a short listing.
#[derive(Debug, Clone, Copy, PartialEq, Eq, Structural)]
pub enum DisplayIdentStyle {
    File,
    Name,
    Normal,
    NameAndFile,
}

/// A short listing, with how scripts are named and where it goes, or a long one.
#[derive(Debug)]
pub enum DisplayStyle<T, U> {
    Short(DisplayIdentStyle, U),
    Long(T),
}

impl<T, U> DisplayStyle<T, U> {
    pub fn is_long(&self) -> (r: bool)
        ensures
            r == (self is Long),
    {
        if let DisplayStyle::Long(_) = self {
            true
        } else {
            false
        }
    }
}

/// How listed scripts are grouped: by their tags, as a tree of their names, or
/// not at all.
#[derive(Debug, Clone, Copy, PartialEq, Eq, Structural)]
pub enum Grouping {
    Tag,
    Tree,
    Flat,
}

/// The grouping a word names: `tag`, `tree` or `none`.
pub open spec fn grouping_named(s: Seq<char>) -> Option<Grouping> {
    if s == seq!['t', 'a', 'g'] {
        Some(Grouping::Tag)
    } else if s == seq!['t', 'r', 'e', 'e'] {
        Some(Grouping::Tree)
    } else if s == seq!['n', 'o', 'n', 'e'] {
        Some(Grouping::Flat)
    } else {
        None
    }
}

impl Grouping {
    /// The scripts are not grouped.
    pub fn is_none(self) -> (r: bool)
        ensures
            r == (self == Grouping::Flat),
    {
        self == Grouping::Flat
    }

    pub fn default() -> (r: Grouping)
        ensures
            r == Grouping::Flat,
    {
        Grouping::Flat
    }

    /// Reads one of the three words of `grouping_named`.
    pub fn from_str(s: &str) -> (r: DisplayResult<Grouping>)
        requires
            grouping_named(s@) is Some,
        ensures
            r matches Ok(g) && grouping_named(s@) == Some(g),
    {
        proof {
            reveal_strlit("tag");
            reveal_strlit("tree");
        }
        assert("tag"@ =~= seq!['t', 'a', 'g']);
        assert("tree"@ =~= seq!['t', 'r', 'e', 'e']);
        if str_eq(s, "tag") {
            Ok(Grouping::Tag)
        } else if str_eq(s, "tree") {
            Ok(Grouping::Tree)
        } else {
            Ok(Grouping::Flat)
        }
    }
}

/// The name a script is shown with in a tree: the last part of a named script's
/// name, the whole name of an anonymous one.
pub open spec fn leaf_name(n: NameV) -> Seq<char> {
    match n {
        Ok(_) => name_key(n),
        Err(k) => split_seq(k, seq!['/']).last(),
    }
}

/// A script in a tree listing.
#[derive(Debug)]
pub struct TrimmedScriptInfo<'b>(pub &'b ScriptInfo);

impl<'b> TreeValue for TrimmedScriptInfo<'b> {
    /// Scripts never run come first; then by how often they ran.
    open spec fn spec_cmp_key(&self) -> u64 {
        if self.0.exec_time is None {
            0
        } else {
            self.0.exec_count
        }
    }

    open spec fn spec_display_key(&self) -> Seq<char> {
        leaf_name(self.0.name@)
    }

    fn cmp_key(&self) -> (r: u64) {
        let s = self.0;
        if s.exec_time.is_none() {
            0
        } else {
            s.exec_count
        }
    }

    fn display_key(&self) -> (r: String) {
        let key = self.0.name.key();
        if self.0.name.is_anonymous() {
            key
        } else {
            let parts = split_char(to_chars(key.as_str()).as_slice(), '/');
            proof {
                crate::text::lemma_split_nonempty(key@, seq!['/']);
            }
            let last = parts.len() - 1;
            assert(parts[last as int]@ == parts.deep_view()[last as int]);
            from_chars(parts[last].as_slice())
        }
    }
}

/// The directories a script is filed under: the parts of a named script's name
/// but the last; none for an anonymous script.
pub open spec fn script_dirs(n: NameV) -> Seq<Seq<char>> {
    match n {
        Ok(_) => Seq::empty(),
        Err(k) => split_seq(k, seq!['/']).drop_last(),
    }
}

/// The entries of the root of the tree of `scripts`: an anonymous script is
/// filed at the root as it is, a named one along its directories.
pub open spec fn forest_entries<'b>(scripts: Seq<&'b ScriptInfo>) -> Seq<(bool, TreeV<TrimmedScriptInfo<'b>>)>
    decreases scripts.len(),
{
    if scripts.len() == 0 {
        Seq::empty()
    } else {
        let cs = forest_entries(scripts.drop_last());
        let s = scripts.last();
        let leaf = TreeV::Leaf(TrimmedScriptInfo(s));
        if s.name@ is Ok {
            put_entry(cs, (false, leaf))
        } else {
            map_insert(cs, script_dirs(s.name@), leaf)
        }
    }
}

/// No named script's first directory looks like an anonymous script's name.
pub open spec fn dirs_apart(scripts: Seq<&ScriptInfo>) -> bool {
    forall|i: int|
        0 <= i < scripts.len() ==> #[trigger] script_dirs(scripts[i].name@).len() > 0 ==> !(
        script_dirs(scripts[i].name@)[0].len() > 0 && script_dirs(scripts[i].name@)[0][0] == '.')
}

/// Every entry of the root filed as a directory is one, or a leaf whose name
/// starts with `.`.
pub open spec fn root_apart<T: TreeValue>(cs: Seq<(bool, TreeV<T>)>) -> bool {
    forall|i: int|
        0 <= i < cs.len() ==> !(#[trigger] cs[i]).0 ==> (cs[i].1 is NonLeaf || (tv_display(cs[i].1).len() > 0
            && tv_display(cs[i].1)[0] == '.'))
}

proof fn lemma_put_apart<T: TreeValue>(cs: Seq<(bool, TreeV<T>)>, c: (bool, TreeV<T>))
    requires
        root_apart(cs),
        nested_tidy(cs),
        inner_tidy(c.1),
        !c.0 ==> (c.1 is NonLeaf || (tv_display(c.1).len() > 0 && tv_display(c.1)[0] == '.')),
    ensures
        root_apart(put_entry(cs, c)),
        nested_tidy(put_entry(cs, c)),
{
    crate::tree_lib::lemma_find_entry_found(cs, entry_key(c));
    let r = put_entry(cs, c);
    assert forall|i: int| 0 <= i < r.len() implies inner_tidy((#[trigger] r[i]).1) by {
        if i < cs.len() && r[i] == cs[i] {
        }
    }
    assert forall|i: int| 0 <= i < r.len() && !(#[trigger] r[i]).0 implies (r[i].1 is NonLeaf || (tv_display(r[i].1).len()
        > 0 && tv_display(r[i].1)[0] == '.')) by {
        if i < cs.len() && r[i] == cs[i] {
        }
    }
}

proof fn lemma_dir_safe<T: TreeValue>(cs: Seq<(bool, TreeV<T>)>, p: Seq<char>)
    requires
        root_apart(cs),
        !(p.len() > 0 && p[0] == '.'),
    ensures
        dir_safe(cs, p),
{
    crate::tree_lib::lemma_find_entry_found(cs, (false, p));
}

/// Builds the tree of `scripts` under a root named `.`.
pub fn build_forest<'b>(scripts: Vec<&'b ScriptInfo>) -> (r: TreeNode<TrimmedScriptInfo<'b>>)
    requires
        dirs_apart(scripts@),
    ensures
        r.tv() == TreeV::NonLeaf(None, seq!['.'], forest_entries(scripts@)),
{
    let mut m: Vec<(bool, TreeNode<TrimmedScriptInfo<'b>>)> = Vec::new();
    let mut i: usize = 0;
    assert(tv_list(m@) =~= forest_entries(scripts@.take(0))) by {
        crate::tree_lib::lemma_tv_list(m@);
    }
    while i < scripts.len()
        invariant
            i <= scripts@.len(),
            dirs_apart(scripts@),
            tv_list(m@) == forest_entries(scripts@.take(i as int)),
            root_apart(tv_list(m@)),
            nested_tidy(tv_list(m@)),
        decreases scripts@.len() - i,
    {
        let script = scripts[i];
        let ghost cs = tv_list(m@);
        proof {
            assert(scripts@.take(i + 1).drop_last() =~= scripts@.take(i as int));
            assert(scripts@.take(i + 1).last() == script);
        }
        let leaf = TreeNode::new_leaf(TrimmedScriptInfo(script));
        if script.name.is_anonymous() {
            proof {
                lemma_put_apart(cs, (false, leaf.tv()));
            }
            TreeNode::put(&mut m, false, leaf);
        } else {
            let key = script.name.key();
            let parts = split_char(to_chars(key.as_str()).as_slice(), '/');
            proof {
                crate::text::lemma_split_nonempty(key@, seq!['/']);
            }
            let n = parts.len() - 1;
            let mut path: Vec<String> = Vec::new();
            let mut j: usize = 0;
            while j < n
                invariant
                    n == parts@.len() - 1,
                    parts.deep_view() == split_seq(key@, seq!['/']),
                    j <= n,
                    path@.len() == j,
                    forall|k: int| 0 <= k < j ==> (#[trigger] path@[k])@ == parts.deep_view()[k],
                decreases n - j,
            {
                assert(parts[j as int]@ == parts.deep_view()[j as int]);
                path.push(from_chars(parts[j].as_slice()));
                j = j + 1;
            }
            let ghost dirs = script_dirs(script.name@);
            proof {
                assert(path_from(path@, 0) =~= dirs);
                assert(dirs_apart(scripts@));
                assert(script == scripts@[i as int]);
                if dirs.len() > 0 {
                    assert(script_dirs(scripts@[i as int].name@).len() > 0);
                    lemma_dir_safe(cs, dirs[0]);
                    assert(path@[0]@ == dirs[0]);
                }
            }
            TreeNode::insert_to_map(&mut m, &path, 0, leaf);
            proof {
                let r = tv_list(m@);
                crate::tree_lib::lemma_find_entry_found(cs, (false, dirs[0]));
                crate::tree_lib::lemma_find_entry_found(cs, (true, tv_display(leaf.tv())));
                assert forall|k: int| 0 <= k < r.len() && !(#[trigger] r[k]).0 implies (r[k].1 is NonLeaf || (tv_display(
                    r[k].1,
                ).len() > 0 && tv_display(r[k].1)[0] == '.')) by {
                    if k < cs.len() && r[k] == cs[k] {
                    }
                }
            }
        }
        i = i + 1;
    }
    assert(scripts@.take(scripts@.len() as int) =~= scripts@);
    proof {
        reveal_strlit(".");
    }
    let root = TreeNode::new_nonleaf(".".to_owned(), m);
    assert("."@ =~= seq!['.']);
    root
}

/// The marks before a script's name: the first for the latest script, the
/// second (padding) for the others.
#[derive(Debug, Clone, Copy)]
pub struct LatestTxt(pub &'static str, pub &'static str);

/// The marks of a short listing: `*` for the latest script, nothing otherwise.
pub fn short_latest_txt() -> (r: LatestTxt)
    ensures
        r.0@ == seq!['*'],
        r.1@ == Seq::<char>::empty(),
{
    proof {
        reveal_strlit("*");
        reveal_strlit("");
    }
    LatestTxt("*", "")
}

/// The marks of a long listing: ` *` for the latest script, two spaces otherwise.
pub fn long_latest_txt() -> (r: LatestTxt)
    ensures
        r.0@ == seq![' ', '*'],
        r.1@ == seq![' ', ' '],
{
    proof {
        reveal_strlit(" *");
        reveal_strlit("  ");
    }
    LatestTxt(" *", "  ")
}

/// A script's name as listed, with its width in bytes: the latest script gets the
/// first mark in bold yellow, the others the second mark; unless `plain`, the
/// name is bold in the script's color, and underlined for the latest script.
pub open spec fn style_name_text(plain: bool, is_latest: bool, l0: Seq<char>, l1: Seq<char>, color: Color, name: Seq<char>) -> (
    Seq<char>,
    int,
) {
    let (mark, mark_len) = if is_latest && !plain {
        (styled_text(l0, Some(Color::Yellow), 1), byte_len(l0) as int)
    } else {
        (l1, byte_len(l1) as int)
    };
    let shown = if plain {
        name
    } else {
        styled_text(name, Some(color), if is_latest {
            9u8
        } else {
            1u8
        })
    };
    (mark + shown, byte_len(name) + mark_len)
}

/// The name as listed, and its width; the width fits when the name and either
/// mark fit together.
pub fn style_name(plain: bool, is_latest: bool, latest_txt: LatestTxt, color: Color, name: &str) -> (r: Result<
    (String, usize),
>)
    requires
        byte_len(name@) + byte_len(latest_txt.0@) <= usize::MAX,
        byte_len(name@) + byte_len(latest_txt.1@) <= usize::MAX,
    ensures
        r matches Ok((t, w)) && (t@, w as int) == style_name_text(
            plain,
            is_latest,
            latest_txt.0@,
            latest_txt.1@,
            color,
            name@,
        ),
{
    let mut v: Vec<char> = Vec::new();
    let mut width = name.len();
    if is_latest && !plain {
        let mut mark = latest_txt.0.to_owned().stylize();
        mark.color(Color::Yellow).bold();
        let t = mark.to_string();
        push_str(&mut v, t.as_str());
        width = width + latest_txt.0.len();
    } else {
        push_str(&mut v, latest_txt.1);
        width = width + latest_txt.1.len();
    }
    if plain {
        push_str(&mut v, name);
    } else {
        let mut shown = name.to_owned().stylize();
        shown.color(color).bold();
        if is_latest {
            shown.underline();
        }
        let t = shown.to_string();
        assert(1u8 | 8u8 == 9u8) by (bit_vector);
        assert(0u8 | 1u8 == 1u8) by (bit_vector);
        push_str(&mut v, t.as_str());
    }
    Ok((from_chars(v.as_slice()), width))
}

/// How a script is named in a tree listing, with `ty` the name of its type and
/// `file` its file.
pub open spec fn ident_text(style: DisplayIdentStyle, name: Seq<char>, ty: Seq<char>, file: Seq<char>) -> Seq<char> {
    match style {
        DisplayIdentStyle::Normal => name + seq!['('] + ty + seq![')'],
        DisplayIdentStyle::File => file,
        DisplayIdentStyle::Name => name,
        DisplayIdentStyle::NameAndFile => name + seq!['('] + file + seq![')'],
    }
}

pub fn ident_string(style: DisplayIdentStyle, ty: &str, t: &TrimmedScriptInfo, file: &str) -> (r: String)
    ensures
        r@ == ident_text(style, t.spec_display_key(), ty@, file@),
{
    let name = t.display_key();
    ident_for(style, name.as_str(), ty, file)
}

/// How a script named `name`, of type `ty` and stored in `file`, is named.
pub fn ident_for(style: DisplayIdentStyle, name: &str, ty: &str, file: &str) -> (r: String)
    ensures
        r@ == ident_text(style, name@, ty@, file@),
{
    let mut v: Vec<char> = Vec::new();
    match style {
        DisplayIdentStyle::Normal => {
            push_str(&mut v, name);
            v.push('(');
            push_str(&mut v, ty);
            v.push(')');
        },
        DisplayIdentStyle::File => {
            push_str(&mut v, file);
        },
        DisplayIdentStyle::Name => {
            push_str(&mut v, name);
        },
        DisplayIdentStyle::NameAndFile => {
            push_str(&mut v, name);
            v.push('(');
            push_str(&mut v, file);
            v.push(')');
        },
    }
    assert(v@ =~= ident_text(style, name@, ty@, file@));
    from_chars(v.as_slice())
}

/// `text` dimmed (with the styles `map`) unless `plain`.
pub open spec fn maybe_styled(plain: bool, text: Seq<char>, map: u8) -> Seq<char> {
    if plain {
        text
    } else {
        styled_text(text, None, map)
    }
}

/// A line of a short tree listing: the branch lines, dimmed, then, for a script,
/// `ident` shown as `style_name` shows it, or, for a directory, its name dimmed
/// and italic; the styles are left out when `plain`.
pub open spec fn short_line_text(
    leading: Option<(Seq<bool>, bool)>,
    item: (Option<TrimmedScriptInfo>, Seq<char>),
    plain: bool,
    ident: Seq<char>,
    is_latest: bool,
    color: Color,
) -> Seq<char> {
    let l = maybe_styled(plain, pieces_text(leading_v_pieces(leading)), 2);
    match item.0 {
        Some(_) => l + style_name_text(plain, is_latest, seq!['*'], Seq::empty(), color, ident).0 + seq!['\n'],
        None => l + maybe_styled(plain, item.1, 6) + seq!['\n'],
    }
}

pub(crate) fn styled_if(plain: bool, text: String, map: u8) -> (r: String)
    requires
        map == 2 || map == 6,
    ensures
        r@ == maybe_styled(plain, text@, map),
{
    if plain {
        text
    } else {
        let mut s = text.stylize();
        s.dimmed();
        if map == 6 {
            s.italic();
        }
        assert(0u8 | 2u8 == 2u8) by (bit_vector);
        assert(2u8 | 4u8 == 6u8) by (bit_vector);
        s.to_string()
    }
}

/// Renders a line of a short tree listing; `ident`, `is_latest` and `color`
/// describe the script of a leaf line.
pub fn fmt_short_line(line: &TreeLine<TrimmedScriptInfo>, plain: bool, ident: &str, is_latest: bool, color: Color) -> (r: String)
    requires
        leading_ok(line.leading@),
        byte_len(ident@) + 1 <= usize::MAX,
    ensures
        r@ == short_line_text(line.leading@, line@.1, plain, ident@, is_latest, color),
{
    let l = styled_if(plain, line.leading.to_string(), 2);
    let mut v: Vec<char> = Vec::new();
    push_str(&mut v, l.as_str());
    match &line.item {
        TreeItem::Leaf(_) => {
            proof {
                crate::text::lemma_blen_char('*');
                crate::text::lemma_blen_add(Seq::<char>::empty(), Seq::<char>::empty());
                assert(Seq::<char>::empty() + Seq::<char>::empty() =~= Seq::<char>::empty());
            }
            let (t, _) = match style_name(plain, is_latest, short_latest_txt(), color, ident) {
                Ok(x) => x,
                Err(_) => (String::new(), 0),
            };
            push_str(&mut v, t.as_str());
        },
        TreeItem::NonLeaf(name) => {
            let t = styled_if(plain, name.clone(), 6);
            push_str(&mut v, t.as_str());
        },
    }
    v.push('\n');
    from_chars(v.as_slice())
}

/// `a` sorts before `b`, characters compared by their code points (as the
/// order of `String`, whose UTF-8 encoding keeps that order).
pub open spec fn str_lt(a: Seq<char>, b: Seq<char>) -> bool
    decreases a.len(),
{
    if b.len() == 0 {
        false
    } else if a.len() == 0 {
        true
    } else if a[0] != b[0] {
        (a[0] as u32) < (b[0] as u32)
    } else {
        str_lt(a.drop_first(), b.drop_first())
    }
}

pub(crate) fn str_less(a: &str, b: &str) -> (r: bool)
    ensures
        r == str_lt(a@, b@),
{
    let x = to_chars(a);
    let y = to_chars(b);
    let mut i: usize = 0;
    assert(a@.skip(0) =~= a@);
    assert(b@.skip(0) =~= b@);
    while i < x.len() && i < y.len() && x[i] == y[i]
        invariant
            x@ == a@,
            y@ == b@,
            i <= x@.len(),
            i <= y@.len(),
            str_lt(a@, b@) == str_lt(a@.skip(i as int), b@.skip(i as int)),
        decreases x@.len() - i,
    {
        assert(a@.skip(i as int).drop_first() =~= a@.skip(i + 1));
        assert(b@.skip(i as int).drop_first() =~= b@.skip(i + 1));
        i = i + 1;
    }
    if i == y.len() {
        false
    } else if i == x.len() {
        true
    } else {
        (x[i] as u32) < (y[i] as u32)
    }
}

/// `names` with `x` placed after the leading names it does not sort before.
pub open spec fn insert_name(names: Seq<Seq<char>>, x: Seq<char>) -> Seq<Seq<char>>
    decreases names.len(),
{
    if names.len() == 0 {
        seq![x]
    } else if !str_lt(x, names[0]) {
        seq![names[0]] + insert_name(names.drop_first(), x)
    } else {
        seq![x] + names
    }
}

/// `names` in ascending order.
pub open spec fn sort_names(names: Seq<Seq<char>>) -> Seq<Seq<char>>
    decreases names.len(),
{
    if names.len() == 0 {
        names
    } else {
        insert_name(sort_names(names.drop_last()), names.last())
    }
}

/// The tags of a group of scripts, in ascending order.
#[derive(Debug)]
pub struct TagsKey(pub Vec<Tag>);

impl View for TagsKey {
    type V = Seq<Seq<char>>;

    open spec fn view(&self) -> Seq<Seq<char>> {
        self.0@.map_values(|t: Tag| t@)
    }
}

/// How a group's tags are shown: `(no tag)`, or each tag after `#` between
/// brackets.
pub open spec fn tags_key_text(k: Seq<Seq<char>>) -> Seq<char> {
    if k.len() == 0 {
        seq!['(', 'n', 'o', ' ', 't', 'a', 'g', ')']
    } else {
        seq!['['] + crate::text::join_seq(k.map_values(|t: Seq<char>| seq!['#'] + t), seq![' ']) + seq![']']
    }
}

impl TagsKey {
    /// The tags of `tags`, in ascending order.
    pub fn new(tags: &TagSet) -> (r: TagsKey)
        ensures
            r@ == sort_names(tags.spec_list()),
    {
        let list = tags.to_vec();
        let ghost lv = list@.map_values(|t: Tag| t@);
        let mut sorted: Vec<Tag> = Vec::new();
        let mut i: usize = 0;
        assert(lv.take(0) =~= Seq::<Seq<char>>::empty());
        while i < list.len()
            invariant
                lv == list@.map_values(|t: Tag| t@),
                i <= list@.len(),
                sorted@.map_values(|t: Tag| t@) == sort_names(lv.take(i as int)),
            decreases list@.len() - i,
        {
            let ghost s = sort_names(lv.take(i as int));
            let ghost sv = sorted@;
            let x = list[i].clone();
            let ghost xv = x@;
            assert(xv == lv[i as int]);
            let mut p: usize = 0;
            assert(s.skip(0) =~= s);
            assert(s.take(0) + insert_name(s.skip(0), xv) =~= insert_name(s, xv));
            while p < sorted.len() && !str_less(x.as_ref(), sorted[p].as_ref())
                invariant
                    sorted@ == sv,
                    sv.map_values(|t: Tag| t@) == s,
                    p <= s.len(),
                    x@ == xv,
                    insert_name(s, xv) == s.take(p as int) + insert_name(s.skip(p as int), xv),
                decreases s.len() - p,
            {
                assert(s[p as int] == sorted@[p as int]@);
                assert(s.skip(p as int)[0] == s[p as int]);
                assert(s.skip(p as int).drop_first() =~= s.skip(p + 1));
                assert(s.take(p + 1) =~= s.take(p as int).push(s[p as int]));
                assert(s.take(p as int) + (seq![s[p as int]] + insert_name(s.skip(p + 1), xv)) =~= s.take(p + 1)
                    + insert_name(s.skip(p + 1), xv));
                p = p + 1;
            }
            proof {
                if p < s.len() {
                    assert(s[p as int] == sorted@[p as int]@);
                    assert(s.skip(p as int)[0] == s[p as int]);
                    assert(insert_name(s.skip(p as int), xv) == seq![xv] + s.skip(p as int));
                } else {
                    assert(s.skip(p as int) =~= Seq::<Seq<char>>::empty());
                }
            }
            sorted.insert(p, x);
            proof {
                assert(lv.take(i + 1).drop_last() =~= lv.take(i as int));
                assert(lv.take(i + 1).last() == xv);
                assert(sorted@.map_values(|t: Tag| t@) =~= insert_name(s, xv));
            }
            i = i + 1;
        }
        proof {
            assert(lv.take(list@.len() as int) =~= lv);
        }
        TagsKey(sorted)
    }

    pub fn is_empty(&self) -> (r: bool)
        ensures
            r == (self@.len() == 0),
    {
        self.0.len() == 0
    }

    /// The tags as a group's title.
    pub fn to_string(&self) -> (r: String)
        ensures
            r@ == tags_key_text(self@),
    {
        if self.0.len() == 0 {
            proof {
                reveal_strlit("(no tag)");
            }
            let r = "(no tag)".to_owned();
            assert(r@ =~= tags_key_text(self@));
            return r;
        }
        let ghost parts = self@.map_values(|t: Seq<char>| seq!['#'] + t);
        let mut v: Vec<char> = Vec::new();
        v.push('[');
        let mut i: usize = 0;
        while i < self.0.len()
            invariant
                i <= self.0@.len(),
                parts == self@.map_values(|t: Seq<char>| seq!['#'] + t),
                v@ == seq!['['] + crate::text::join_seq(parts.take(i as int), seq![' ']),
            decreases self.0@.len() - i,
        {
            let ghost before = v@;
            if i > 0 {
                v.push(' ');
            }
            v.push('#');
            push_str(&mut v, self.0[i].as_ref());
            proof {
                let t = parts.take(i + 1);
                assert(t.drop_last() =~= parts.take(i as int));
                assert(t.last() == seq!['#'] + self.0@[i as int]@);
                if i == 0 {
                    assert(parts.take(i as int) =~= Seq::<Seq<char>>::empty());
                }
                assert(v@ =~= seq!['['] + crate::text::join_seq(t, seq![' ']));
            }
            i = i + 1;
        }
        assert(parts.take(self.0@.len() as int) =~= parts);
        v.push(']');
        from_chars(v.as_slice())
    }
}

fn keys_same(a: &TagsKey, b: &TagsKey) -> (r: bool)
    ensures
        r == (a@ == b@),
{
    if a.0.len() != b.0.len() {
        assert(a@.len() != b@.len());
        return false;
    }
    let mut i: usize = 0;
    while i < a.0.len()
        invariant
            a.0@.len() == b.0@.len(),
            i <= a.0@.len(),
            forall|j: int| 0 <= j < i ==> a.0@[j]@ == b.0@[j]@,
        decreases a.0@.len() - i,
    {
        if !str_eq(a.0[i].as_ref(), b.0[i].as_ref()) {
            assert(a@[i as int] != b@[i as int]);
            return false;
        }
        i = i + 1;
    }
    assert(a@ =~= b@);
    true
}

/// How often a script ran, for ordering: none when it never ran.
pub open spec fn run_count(s: &ScriptInfo) -> u64 {
    if s.exec_time is None {
        0
    } else {
        s.exec_count
    }
}

/// The most runs among `v` (none for no script).
pub open spec fn max_runs(v: Seq<&ScriptInfo>) -> u64
    decreases v.len(),
{
    if v.len() == 0 {
        0
    } else {
        let m = max_runs(v.drop_last());
        let r = run_count(v.last());
        if r > m {
            r
        } else {
            m
        }
    }
}

/// A group of scripts: its tags and its scripts.
pub type GroupV<'a> = (Seq<Seq<char>>, Seq<&'a ScriptInfo>);

/// The position of the group with tags `k`.
pub open spec fn find_group<'a>(g: Seq<GroupV<'a>>, k: Seq<Seq<char>>) -> Option<int>
    decreases g.len(),
{
    if g.len() == 0 {
        None
    } else {
        match find_group(g.drop_last(), k) {
            Some(i) => Some(i),
            None => if g.last().0 == k {
                Some(g.len() - 1)
            } else {
                None
            },
        }
    }
}

/// The scripts grouped by their tags, groups in order of first appearance and
/// scripts in order within each.
pub open spec fn tag_groups<'a>(s: Seq<&'a ScriptInfo>) -> Seq<GroupV<'a>>
    decreases s.len(),
{
    if s.len() == 0 {
        Seq::empty()
    } else {
        let g = tag_groups(s.drop_last());
        let x = s.last();
        let k = sort_names(x.tags.spec_list());
        match find_group(g, k) {
            Some(i) => g.update(i, (k, g[i].1.push(x))),
            None => g.push((k, seq![x])),
        }
    }
}

proof fn lemma_find_group_found<'a>(g: Seq<GroupV<'a>>, k: Seq<Seq<char>>)
    ensures
        match find_group(g, k) {
            Some(i) => 0 <= i < g.len() && g[i].0 == k,
            None => forall|j: int| 0 <= j < g.len() ==> (#[trigger] g[j]).0 != k,
        },
    decreases g.len(),
{
    if g.len() > 0 {
        let d = g.drop_last();
        lemma_find_group_found(d, k);
        match find_group(d, k) {
            Some(i) => {
                assert(d[i] == g[i]);
            },
            None => {
                assert forall|j: int| 0 <= j < g.len() implies (#[trigger] g[j]).0 != k || find_group(g, k) is Some by {
                    if j < d.len() {
                        assert(d[j] == g[j]);
                    }
                }
            },
        }
    }
}

/// Grouping scripts by their tags gives one group per set of tags, as the keys
/// of a map are: no two groups share their tags.
pub proof fn law_tag_groups_distinct<'a>(s: Seq<&'a ScriptInfo>)
    ensures
        forall|i: int, j: int|
            0 <= i < j < tag_groups(s).len() ==> (#[trigger] tag_groups(s)[i]).0 != (#[trigger] tag_groups(s)[j]).0,
    decreases s.len(),
{
    if s.len() > 0 {
        let g0 = tag_groups(s.drop_last());
        law_tag_groups_distinct(s.drop_last());
        let x = s.last();
        let k = sort_names(x.tags.spec_list());
        lemma_find_group_found(g0, k);
        let g = tag_groups(s);
        assert forall|i: int, j: int| 0 <= i < j < g.len() implies (#[trigger] g[i]).0 != (#[trigger] g[j]).0 by {
            match find_group(g0, k) {
                Some(p) => {
                    assert(g[i].0 == g0[i].0 && g[j].0 == g0[j].0);
                },
                None => {
                    if j == g0.len() {
                        assert(g[i] == g0[i]);
                    } else {
                        assert(g[i] == g0[i] && g[j] == g0[j]);
                    }
                },
            }
        }
    }
}

/// The key a group is ordered by: none for the group without tags, which comes
/// first; otherwise the most runs among its scripts.
pub open spec fn group_key<'a>(g: GroupV<'a>) -> Option<u64> {
    if g.0.len() == 0 {
        None
    } else {
        Some(max_runs(g.1))
    }
}

/// Option keys in order, none first.
pub open spec fn opt_le(a: Option<u64>, b: Option<u64>) -> bool {
    match (a, b) {
        (None, _) => true,
        (Some(_), None) => false,
        (Some(x), Some(y)) => x <= y,
    }
}

/// `s` with `x` placed after the leading groups ordered no later.
pub open spec fn insert_group<'a>(s: Seq<GroupV<'a>>, x: GroupV<'a>) -> Seq<GroupV<'a>>
    decreases s.len(),
{
    if s.len() == 0 {
        seq![x]
    } else if opt_le(group_key(s[0]), group_key(x)) {
        seq![s[0]] + insert_group(s.drop_first(), x)
    } else {
        seq![x] + s
    }
}

/// Groups ordered by their keys, equal keys keeping their order.
pub open spec fn sort_groups<'a>(s: Seq<GroupV<'a>>) -> Seq<GroupV<'a>>
    decreases s.len(),
{
    if s.len() == 0 {
        s
    } else {
        insert_group(sort_groups(s.drop_last()), s.last())
    }
}

/// Views of listed groups: key, tags and scripts.
pub open spec fn groups_v<'a>(r: Seq<(Option<u64>, TagsKey, Vec<&'a ScriptInfo>)>) -> Seq<(Option<u64>, GroupV<'a>)> {
    r.map_values(|g: (Option<u64>, TagsKey, Vec<&'a ScriptInfo>)| (g.0, (g.1@, g.2@)))
}

fn max_runs_exec(v: &Vec<&ScriptInfo>) -> (r: u64)
    ensures
        r == max_runs(v@),
{
    let mut m: u64 = 0;
    let mut i: usize = 0;
    assert(v@.take(0) =~= Seq::<&ScriptInfo>::empty());
    while i < v.len()
        invariant
            i <= v@.len(),
            m == max_runs(v@.take(i as int)),
        decreases v@.len() - i,
    {
        assert(v@.take(i + 1).drop_last() =~= v@.take(i as int));
        let s = v[i];
        let r = if s.exec_time.is_none() {
            0
        } else {
            s.exec_count
        };
        if r > m {
            m = r;
        }
        i = i + 1;
    }
    assert(v@.take(v@.len() as int) =~= v@);
    m
}

/// Groups the scripts by their tags, the group without tags first and the others
/// by the most runs among their scripts (equal ones in order of first
/// appearance), each with that key.
pub fn group_by_tags<'a>(scripts: Vec<&'a ScriptInfo>) -> (r: Vec<(Option<u64>, TagsKey, Vec<&'a ScriptInfo>)>)
    ensures
        groups_v(r@) == sort_groups(tag_groups(scripts@)).map_values(|g: GroupV<'a>| (group_key(g), g)),
{
    let mut groups: Vec<(TagsKey, Vec<&'a ScriptInfo>)> = Vec::new();
    let ghost sv = scripts@;
    let mut i: usize = 0;
    assert(sv.take(0) =~= Seq::<&ScriptInfo>::empty());
    while i < scripts.len()
        invariant
            sv == scripts@,
            i <= sv.len(),
            groups@.map_values(|g: (TagsKey, Vec<&'a ScriptInfo>)| (g.0@, g.1@)) == tag_groups(sv.take(i as int)),
        decreases sv.len() - i,
    {
        let ghost gv = groups@.map_values(|g: (TagsKey, Vec<&'a ScriptInfo>)| (g.0@, g.1@));
        let x = scripts[i];
        let key = TagsKey::new(&x.tags);
        proof {
            assert(sv.take(i + 1).drop_last() =~= sv.take(i as int));
            assert(sv.take(i + 1).last() == x);
        }
        let mut j: usize = 0;
        let mut found = false;
        while j < groups.len() && !found
            invariant
                gv == groups@.map_values(|g: (TagsKey, Vec<&'a ScriptInfo>)| (g.0@, g.1@)),
                gv.len() == groups@.len(),
                j <= groups@.len(),
                forall|t: int| 0 <= t < j ==> gv[t].0 != key@,
                found ==> j < groups@.len() && gv[j as int].0 == key@,
            decreases groups@.len() - j, if found {
                0int
            } else {
                1int
            },
        {
            if keys_same(&groups[j].0, &key) {
                found = true;
            } else {
                j = j + 1;
            }
        }
        proof {
            lemma_find_group(gv, key@, j as int);
        }
        if found {
            let (k, mut v) = groups.remove(j);
            v.push(x);
            groups.insert(j, (k, v));
            proof {
                let ng = groups@.map_values(|g: (TagsKey, Vec<&'a ScriptInfo>)| (g.0@, g.1@));
                assert(ng =~= gv.update(j as int, (key@, gv[j as int].1.push(x))));
            }
        } else {
            let mut v: Vec<&'a ScriptInfo> = Vec::new();
            v.push(x);
            groups.push((key, v));
            proof {
                let ng = groups@.map_values(|g: (TagsKey, Vec<&'a ScriptInfo>)| (g.0@, g.1@));
                assert(ng =~= gv.push((key@, seq![x])));
            }
        }
        i = i + 1;
    }
    assert(sv.take(sv.len() as int) =~= sv);
    let ghost all = tag_groups(sv);
    let mut sorted: Vec<(Option<u64>, TagsKey, Vec<&'a ScriptInfo>)> = Vec::new();
    let mut rest = groups;
    let ghost mut k: int = 0;
    assert(all.take(0) =~= Seq::<GroupV<'a>>::empty());
    while rest.len() > 0
        invariant
            0 <= k <= all.len(),
            rest@.map_values(|g: (TagsKey, Vec<&'a ScriptInfo>)| (g.0@, g.1@)) == all.skip(k),
            groups_v(sorted@) == sort_groups(all.take(k)).map_values(|g: GroupV<'a>| (group_key(g), g)),
        decreases rest@.len(),
    {
        let ghost s = sort_groups(all.take(k));
        let (key, v) = rest.remove(0);
        proof {
            assert(all.skip(k)[0] == (key@, v@));
            assert(all.skip(k + 1) =~= all.skip(k).drop_first());
        }
        let gk = if key.is_empty() {
            None
        } else {
            Some(max_runs_exec(&v))
        };
        let ghost xv: GroupV<'a> = (key@, v@);
        assert(gk == group_key(xv));
        assert(sorted@.len() == groups_v(sorted@).len());
        let mut p: usize = 0;
        assert(s.skip(0) =~= s);
        assert(s.take(0) + insert_group(s.skip(0), xv) =~= insert_group(s, xv));
        while p < sorted.len() && key_le(sorted[p].0, gk)
            invariant
                groups_v(sorted@) == s.map_values(|g: GroupV<'a>| (group_key(g), g)),
                sorted@.len() == s.len(),
                p <= s.len(),
                gk == group_key(xv),
                insert_group(s, xv) == s.take(p as int) + insert_group(s.skip(p as int), xv),
            decreases s.len() - p,
        {
            assert(groups_v(sorted@)[p as int] == (group_key(s[p as int]), s[p as int]));
            assert(s.skip(p as int)[0] == s[p as int]);
            assert(s.skip(p as int).drop_first() =~= s.skip(p + 1));
            assert(s.take(p + 1) =~= s.take(p as int).push(s[p as int]));
            assert(s.take(p as int) + (seq![s[p as int]] + insert_group(s.skip(p + 1), xv)) =~= s.take(p + 1)
                + insert_group(s.skip(p + 1), xv));
            p = p + 1;
        }
        proof {
            if p < s.len() {
                assert(groups_v(sorted@)[p as int] == (group_key(s[p as int]), s[p as int]));
                assert(s.skip(p as int)[0] == s[p as int]);
                assert(insert_group(s.skip(p as int), xv) == seq![xv] + s.skip(p as int));
            } else {
                assert(s.skip(p as int) =~= Seq::<GroupV<'a>>::empty());
            }
        }
        let ghost before = sorted@;
        sorted.insert(p, (gk, key, v));
        proof {
            assert(all.take(k + 1).drop_last() =~= all.take(k));
            assert(all.take(k + 1).last() == xv);
            let target = insert_group(s, xv);
            assert(target =~= s.take(p as int) + (seq![xv] + s.skip(p as int)));
            assert(sorted@[p as int].1@ == xv.0 && sorted@[p as int].2@ == xv.1);
            assert forall|i: int| 0 <= i < sorted@.len() implies #[trigger] groups_v(sorted@)[i] == (group_key(target[i]), target[i]) by {
                if i < p {
                    assert(sorted@[i] == before[i]);
                    assert(groups_v(before)[i] == (group_key(s[i]), s[i]));
                } else if i > p {
                    assert(sorted@[i] == before[i - 1]);
                    assert(groups_v(before)[i - 1] == (group_key(s[i - 1]), s[i - 1]));
                }
            }
            assert(groups_v(sorted@) =~= insert_group(s, xv).map_values(|g: GroupV<'a>| (group_key(g), g)));
            k = k + 1;
        }
    }
    proof {
        assert(all.skip(k).len() == 0);
        assert(all.take(k) =~= all);
    }
    sorted
}

fn key_le(a: Option<u64>, b: Option<u64>) -> (r: bool)
    ensures
        r == opt_le(a, b),
{
    match (a, b) {
        (None, _) => true,
        (Some(_), None) => false,
        (Some(x), Some(y)) => x <= y,
    }
}

proof fn lemma_find_group<'a>(g: Seq<GroupV<'a>>, k: Seq<Seq<char>>, j: int)
    requires
        0 <= j <= g.len(),
        forall|t: int| 0 <= t < j ==> g[t].0 != k,
    ensures
        j < g.len() && g[j].0 == k ==> find_group(g, k) == Some(j),
        j == g.len() ==> find_group(g, k) is None,
    decreases g.len(),
{
    if g.len() > 0 {
        if j < g.len() {
            if j == g.len() - 1 {
                lemma_find_group(g.drop_last(), k, j);
            } else {
                lemma_find_group(g.drop_last(), k, j);
            }
        } else {
            lemma_find_group(g.drop_last(), k, j - 1);
        }
    }
}

/// `s` with `x` placed after the leading scripts used no earlier than it.
pub open spec fn insert_latest<'a>(s: Seq<&'a ScriptInfo>, x: &'a ScriptInfo) -> Seq<&'a ScriptInfo>
    decreases s.len(),
{
    if s.len() == 0 {
        seq![x]
    } else if s[0].spec_last_time() >= x.spec_last_time() {
        seq![s[0]] + insert_latest(s.drop_first(), x)
    } else {
        seq![x] + s
    }
}

/// The scripts from the one used last to the one used first, scripts used at
/// the same time keeping their order.
pub open spec fn latest_first<'a>(s: Seq<&'a ScriptInfo>) -> Seq<&'a ScriptInfo>
    decreases s.len(),
{
    if s.len() == 0 {
        s
    } else {
        insert_latest(latest_first(s.drop_last()), s.last())
    }
}

/// Orders the scripts from the one used last.
pub fn sort_scripts<'a>(v: &mut Vec<&'a ScriptInfo>)
    ensures
        final(v)@ == latest_first(old(v)@),
{
    let ghost all = v@;
    let mut sorted: Vec<&'a ScriptInfo> = Vec::new();
    let mut i: usize = 0;
    assert(all.take(0) =~= Seq::<&ScriptInfo>::empty());
    while i < v.len()
        invariant
            v@ == all,
            i <= all.len(),
            sorted@ == latest_first(all.take(i as int)),
        decreases all.len() - i,
    {
        let x = v[i];
        let t = x.last_time();
        let ghost s = sorted@;
        let mut p: usize = 0;
        assert(s.skip(0) =~= s);
        assert(s.take(0) + insert_latest(s.skip(0), x) =~= insert_latest(s, x));
        while p < sorted.len() && sorted[p].last_time() >= t
            invariant
                sorted@ == s,
                p <= s.len(),
                t == x.spec_last_time(),
                insert_latest(s, x) == s.take(p as int) + insert_latest(s.skip(p as int), x),
            decreases s.len() - p,
        {
            assert(s.skip(p as int)[0] == s[p as int]);
            assert(s.skip(p as int).drop_first() =~= s.skip(p + 1));
            assert(s.take(p + 1) =~= s.take(p as int).push(s[p as int]));
            assert(s.take(p as int) + (seq![s[p as int]] + insert_latest(s.skip(p + 1), x)) =~= s.take(p + 1)
                + insert_latest(s.skip(p + 1), x));
            p = p + 1;
        }
        proof {
            if p < s.len() {
                assert(s.skip(p as int)[0] == s[p as int]);
                assert(insert_latest(s.skip(p as int), x) == seq![x] + s.skip(p as int));
            } else {
                assert(s.skip(p as int) =~= Seq::<&ScriptInfo>::empty());
            }
        }
        sorted.insert(p, x);
        proof {
            assert(all.take(i + 1).drop_last() =~= all.take(i as int));
            assert(all.take(i + 1).last() == x);
            assert(sorted@ =~= s.take(p as int) + (seq![x] + s.skip(p as int)));
        }
        i = i + 1;
    }
    assert(all.take(all.len() as int) =~= all);
    *v = sorted;
}

/// The scripts to list: with a limit, the ones used last, as many as the limit
/// allows and from the one used last (the second part then holds); without one,
/// all as they are.
pub fn limit_scripts<'a>(scripts: Vec<&'a ScriptInfo>, limit: Option<usize>) -> (r: (Vec<&'a ScriptInfo>, bool))
    ensures
        match limit {
            Some(l) => r.1 && r.0@ == if l < scripts@.len() {
                latest_first(scripts@).take(l as int)
            } else {
                latest_first(scripts@)
            },
            None => !r.1 && r.0@ == scripts@,
        },
{
    match limit {
        Some(l) => {
            let mut v = scripts;
            sort_scripts(&mut v);
            proof {
                lemma_latest_first_len(scripts@);
            }
            v.truncate(l);
            (v, true)
        },
        None => (scripts, false),
    }
}

proof fn lemma_insert_latest_len<'a>(s: Seq<&'a ScriptInfo>, x: &'a ScriptInfo)
    ensures
        insert_latest(s, x).len() == s.len() + 1,
    decreases s.len(),
{
    if s.len() > 0 {
        lemma_insert_latest_len(s.drop_first(), x);
    }
}

proof fn lemma_latest_first_len<'a>(s: Seq<&'a ScriptInfo>)
    ensures
        latest_first(s).len() == s.len(),
    decreases s.len(),
{
    if s.len() > 0 {
        lemma_latest_first_len(s.drop_last());
        lemma_insert_latest_len(latest_first(s.drop_last()), s.last());
    }
}

/// The columns of a long listing: the script and its type keep their width,
/// the times and the help message may shrink.
pub fn gen_title() -> (r: Vec<Collumn>)
    ensures
        r@.map_values(|c: Collumn| (c@.name, c@.fixed)) == seq![
            ("Script"@, true),
            ("Type"@, true),
            ("Write"@, false),
            ("Execute"@, false),
            ("Help Message"@, false),
        ],
{
    let mut r: Vec<Collumn> = Vec::new();
    r.push(Collumn::new_fixed("Script"));
    r.push(Collumn::new_fixed("Type"));
    r.push(Collumn::new("Write"));
    r.push(Collumn::new("Execute"));
    r.push(Collumn::new("Help Message"));
    assert(r@.map_values(|c: Collumn| (c@.name, c@.fixed)) =~= seq![
        ("Script"@, true),
        ("Type"@, true),
        ("Write"@, false),
        ("Execute"@, false),
        ("Help Message"@, false),
    ]);
    r
}

/// How a time is shown in a listing: its hour and minute, its day and month, or
/// its year.
#[derive(Debug, Clone, Copy, PartialEq, Eq, Structural)]
pub enum TimeFormat {
    HourMinute,
    DayMonth,
    Year,
}

impl TimeFormat {
    /// The `strftime` pattern of the format.
    pub fn pattern(&self) -> (r: &'static str)
        ensures
            r@ == match self {
                TimeFormat::HourMinute => "%H:%M"@,
                TimeFormat::DayMonth => "%d %b"@,
                TimeFormat::Year => "%Y"@,
            },
    {
        match self {
            TimeFormat::HourMinute => "%H:%M",
            TimeFormat::DayMonth => "%d %b",
            TimeFormat::Year => "%Y",
        }
    }
}

/// A time less than 12 hours ago, or of today, shows its hour and minute; one less
/// than 180 days ago, or of this year, its day and month; any other its year.
pub fn display_time_format(diff_hours: i64, same_date: bool, diff_days: i64, same_year: bool) -> (r: TimeFormat)
    ensures
        r == if diff_hours < 12 || same_date {
            TimeFormat::HourMinute
        } else if diff_days < 180 || same_year {
            TimeFormat::DayMonth
        } else {
            TimeFormat::Year
        },
{
    if diff_hours < 12 || same_date {
        TimeFormat::HourMinute
    } else if diff_days < 180 || same_year {
        TimeFormat::DayMonth
    } else {
        TimeFormat::Year
    }
}

/// When a script last ran, with how often it ran: `Never` when it never ran, else
/// the time as shown and the count in brackets.
pub fn exec_time_str(shown_time: Option<&str>, exec_count: u64) -> (r: String)
    ensures
        r@ == match shown_time {
            None => "Never"@,
            Some(t) => t@ + seq![' ', '('] + crate::num::decimal(exec_count as nat) + seq![')'],
        },
{
    match shown_time {
        None => "Never".to_owned(),
        Some(t) => {
            let mut v: Vec<char> = Vec::new();
            push_str(&mut v, t);
            v.push(' ');
            v.push('(');
            let d = crate::num::decimal_chars(exec_count);
            crate::text::push_all(&mut v, d.as_slice());
            v.push(')');
            from_chars(v.as_slice())
        },
    }
}

/// How a listing shows scripts, from its flags: long, or short by file, by
/// name, by both, or by name and type. Long excludes the other two.
pub fn display_style_of(long: bool, file: bool, name: bool) -> (r: DisplayStyle<(), ()>)
    requires
        long ==> !file && !name,
    ensures
        r == if long {
            DisplayStyle::<(), ()>::Long(())
        } else if file && name {
            DisplayStyle::Short(DisplayIdentStyle::NameAndFile, ())
        } else if file {
            DisplayStyle::Short(DisplayIdentStyle::File, ())
        } else if name {
            DisplayStyle::Short(DisplayIdentStyle::Name, ())
        } else {
            DisplayStyle::Short(DisplayIdentStyle::Normal, ())
        },
{
    if long {
        DisplayStyle::Long(())
    } else if file && name {
        DisplayStyle::Short(DisplayIdentStyle::NameAndFile, ())
    } else if file {
        DisplayStyle::Short(DisplayIdentStyle::File, ())
    } else if name {
        DisplayStyle::Short(DisplayIdentStyle::Name, ())
    } else {
        DisplayStyle::Short(DisplayIdentStyle::Normal, ())
    }
}

} // verus!
