//! Putting a listing together: the groups of scripts in the order they are
//! shown, the note on scripts left out by age, and what shows each script.
use crate::color::{styled_text, Color, Stylize};
use crate::fuzzy::byte_len;
use crate::list::{
    find_group, group_by_tags, group_key, groups_v, insert_group, insert_latest, sort_names, ident_for, ident_text, latest_first, long_latest_txt, maybe_styled,
    short_latest_txt, sort_groups, sort_scripts, style_name, style_name_text, styled_if, tag_groups,
    tags_key_text, DisplayIdentStyle, GroupV, Grouping, TagsKey, TrimmedScriptInfo,
};
use crate::config::recent_text;
use crate::repo::{by_visibility, sort_by_time, RecentFilter, ScriptRepo, Visibility};
use crate::script::{name_key, ScriptInfo};
use crate::table::{display_width, Cell};
use crate::text::{from_chars, push_str};
use crate::tree_lib::{leading_ok, leading_v_pieces, pieces_text, pieces_width, TreeItem, TreeLine, TreeValue};
use vstd::multiset::Multiset;
use vstd::prelude::*;

verus! {

/// The scripts of a group in the order they are shown: as they come when they
/// are already ordered, otherwise from the one used last.
pub open spec fn shown_order<'a>(s: Seq<&'a ScriptInfo>, sorted: bool) -> Seq<&'a ScriptInfo> {
    if sorted {
        s
    } else {
        latest_first(s)
    }
}

/// Groups titled by their tags, their scripts in the order they are shown.
pub open spec fn titled_groups<'a>(g: Seq<GroupV<'a>>, sorted: bool) -> Seq<(Option<Seq<Seq<char>>>, Seq<&'a ScriptInfo>)> {
    g.map_values(|x: GroupV<'a>| (Some(x.0), shown_order(x.1, sorted)))
}

/// The groups of a listing that is not a tree: one group without a title, or,
/// grouped by tags, the groups in the order `group_by_tags` gives, titled by
/// their tags.
pub open spec fn listed_groups<'a>(scripts: Seq<&'a ScriptInfo>, sorted: bool, grouping: Grouping) -> Seq<
    (Option<Seq<Seq<char>>>, Seq<&'a ScriptInfo>),
> {
    match grouping {
        Grouping::Tag => titled_groups(sort_groups(tag_groups(scripts)), sorted),
        _ => seq![(None, shown_order(scripts, sorted))],
    }
}

/// Views of groups: their titles' tags and their scripts.
pub open spec fn groups_view<'a>(r: Seq<(Option<TagsKey>, Vec<&'a ScriptInfo>)>) -> Seq<
    (Option<Seq<Seq<char>>>, Seq<&'a ScriptInfo>),
> {
    r.map_values(
        |g: (Option<TagsKey>, Vec<&'a ScriptInfo>)|
            (
                match g.0 {
                    Some(k) => Some(k@),
                    None => None,
                },
                g.1@,
            ),
    )
}

/// The groups of a listing that is not a tree, `sorted` telling whether the
/// scripts already come from the one used last.
pub fn list_groups<'a>(scripts: Vec<&'a ScriptInfo>, sorted: bool, grouping: Grouping) -> (r: Vec<
    (Option<TagsKey>, Vec<&'a ScriptInfo>),
>)
    requires
        grouping !is Tree,
    ensures
        groups_view(r@) == listed_groups(scripts@, sorted, grouping),
{
    let mut out: Vec<(Option<TagsKey>, Vec<&'a ScriptInfo>)> = Vec::new();
    match grouping {
        Grouping::Tag => {
            let ghost target = listed_groups(scripts@, sorted, grouping);
            let mut groups = group_by_tags(scripts);
            let ghost all = groups@;
            let ghost n = all.len();
            proof {
                assert(groups_v(all).len() == n);
                assert(target.len() == n);
                assert(all.skip(0) =~= all);
            }
            while groups.len() > 0
                invariant
                    groups_v(all) == sort_groups(tag_groups(scripts@)).map_values(
                        |g: GroupV<'a>| (group_key(g), g),
                    ),
                    target == titled_groups(sort_groups(tag_groups(scripts@)), sorted),
                    target.len() == n,
                    n == all.len(),
                    groups@.len() <= n,
                    groups@ == all.skip(n - groups@.len()),
                    groups_view(out@) == target.take(n - groups@.len()),
                decreases groups@.len(),
            {
                let ghost k = n - groups@.len();
                let (_, key, mut v) = groups.remove(0);
                proof {
                    assert(all[k] == all.skip(k)[0]);
                    assert(groups@ =~= all.skip(k + 1));
                    assert(groups_v(all)[k] == (all[k].0, (all[k].1@, all[k].2@)));
                    let sg = sort_groups(tag_groups(scripts@));
                    let sm = sg.map_values(|g: GroupV<'a>| (group_key(g), g));
                    assert(groups_v(all).len() == n);
                    assert(sm.len() == sg.len());
                    assert(0 <= k < sg.len());
                    assert(sm[k] == (group_key(sg[k]), sg[k]));
                    assert(sg[k] == (all[k].1@, all[k].2@));
                    assert(target[k] == (Some(sg[k].0), shown_order(sg[k].1, sorted)));
                }
                if !sorted {
                    sort_scripts(&mut v);
                }
                let ghost before = out@;
                let ghost kv = (Some(key@), v@);
                out.push((Some(key), v));
                proof {
                    assert(groups_view(out@) =~= groups_view(before).push(kv));
                    assert(target.take(k + 1) =~= target.take(k).push(target[k]));
                }
            }
            proof {
                assert(target.take(n as int) =~= target);
            }
        },
        _ => {
            let mut v = scripts;
            if !sorted {
                sort_scripts(&mut v);
            }
            out.push((None, v));
            proof {
                assert(groups_view(out@) =~= listed_groups(scripts@, sorted, grouping));
            }
        },
    }
    out
}

/// The note that opens a listing when scripts were left out by their age (and
/// the listing is not plain): how many, and by which setting.
pub open spec fn time_filter_text(plain: bool, hidden: u32, filter: RecentFilter) -> Option<Seq<char>> {
    if !plain && hidden > 0 {
        Some(
            crate::num::decimal(hidden as nat) + " scripts ignored due to time filter: "@ + recent_text(
                filter.recent,
            ) + (if filter.archaeology {
                " (archaeology)"@
            } else {
                Seq::empty()
            }) + seq!['\n'],
        )
    } else {
        None
    }
}

pub fn time_filter_note(plain: bool, hidden: u32, filter: &RecentFilter) -> (r: Option<String>)
    ensures
        match time_filter_text(plain, hidden, *filter) {
            Some(t) => r matches Some(s) && s@ == t,
            None => r is None,
        },
{
    if plain || hidden == 0 {
        return None;
    }
    let mut v = crate::num::decimal_chars(hidden as u64);
    push_str(&mut v, " scripts ignored due to time filter: ");
    let f = filter.to_string();
    push_str(&mut v, f.as_str());
    v.push('\n');
    Some(from_chars(v.as_slice()))
}

/// The id of the script used last among the shown ones, `-1` when none is shown.
pub fn latest_script_id(repo: &ScriptRepo) -> (r: i64)
    ensures
        ({
            let v = sort_by_time(by_visibility(repo.spec_shown(), repo.spec_hidden(), Visibility::Normal));
            r == if v.len() >= 1 {
                v[v.len() - 1].id as int
            } else {
                -1int
            }
        }),
{
    match repo.latest_mut(1, Visibility::Normal) {
        Some(s) => s.id,
        None => -1,
    }
}

/// `ty` in bold in `color`, unless `plain`.
pub open spec fn type_text(plain: bool, color: Color, ty: Seq<char>) -> Seq<char> {
    if plain {
        ty
    } else {
        styled_text(ty, Some(color), 1)
    }
}

/// The cells of a long row after the name: the type (as wide as its bytes),
/// the time of the last write, the last run and the help message.
pub open spec fn info_cells(plain: bool, color: Color, ty: Seq<char>, write: Seq<char>, exec: Seq<char>, help: Seq<char>) -> Seq<
    (Seq<char>, usize),
> {
    seq![
        (type_text(plain, color, ty), byte_len(ty)),
        (write, display_width(write)),
        (exec, display_width(exec)),
        (help, display_width(help)),
    ]
}

fn type_cell(plain: bool, color: Color, ty: &str) -> (r: Cell)
    ensures
        r@ == (type_text(plain, color, ty@), byte_len(ty@)),
{
    let width = ty.len();
    let text = if plain {
        ty.to_owned()
    } else {
        let mut s = ty.to_owned().stylize();
        s.color(color).bold();
        assert(0u8 | 1u8 == 1u8) by (bit_vector);
        s.to_string()
    };
    Cell::new_with_len(text, width)
}

fn push_info_cells(row: &mut Vec<Cell>, plain: bool, color: Color, ty: &str, write: &str, exec: &str, help: String)
    ensures
        final(row)@.map_values(|c: Cell| c@) == old(row)@.map_values(|c: Cell| c@) + info_cells(
            plain,
            color,
            ty@,
            write@,
            exec@,
            help@,
        ),
{
    let ghost before = row@.map_values(|c: Cell| c@);
    row.push(type_cell(plain, color, ty));
    row.push(Cell::new(write.to_owned()));
    row.push(Cell::new(exec.to_owned()));
    row.push(Cell::new(help));
    assert(row@.map_values(|c: Cell| c@) =~= before + info_cells(plain, color, ty@, write@, exec@, help@));
}

/// The row of a script in a long listing: its name marked as `style_name` does
/// with the long marks, then `info_cells`.
pub open spec fn meta_row_text(
    name: Seq<char>,
    plain: bool,
    is_latest: bool,
    color: Color,
    ty: Seq<char>,
    write: Seq<char>,
    exec: Seq<char>,
    help: Seq<char>,
) -> Seq<(Seq<char>, usize)> {
    let (t, w) = style_name_text(plain, is_latest, seq![' ', '*'], seq![' ', ' '], color, name);
    seq![(t, w as usize)] + info_cells(plain, color, ty, write, exec, help)
}

/// The row of `script` in a long listing, with `ty` its type as shown, `write`
/// and `exec` the times of its last write and run as shown, and `help` its help
/// message.
pub fn meta_row(
    script: &ScriptInfo,
    is_latest: bool,
    plain: bool,
    color: Color,
    ty: &str,
    write: &str,
    exec: &str,
    help: String,
) -> (r: Vec<Cell>)
    requires
        byte_len(name_key(script.name@)) + 2 <= usize::MAX,
    ensures
        r@.map_values(|c: Cell| c@) == meta_row_text(
            name_key(script.name@),
            plain,
            is_latest,
            color,
            ty@,
            write@,
            exec@,
            help@,
        ),
{
    let name = script.name.key();
    let marks = long_latest_txt();
    proof {
        lemma_two_char_blen(' ', '*');
        lemma_two_char_blen(' ', ' ');
    }
    let (text, width) = match style_name(plain, is_latest, marks, color, name.as_str()) {
        Ok(x) => x,
        Err(_) => (String::new(), 0),
    };
    let mut row: Vec<Cell> = Vec::new();
    row.push(Cell::new_with_len(text, width));
    push_info_cells(&mut row, plain, color, ty, write, exec, help);
    assert(row@.map_values(|c: Cell| c@) =~= meta_row_text(
        name_key(script.name@),
        plain,
        is_latest,
        color,
        ty@,
        write@,
        exec@,
        help@,
    ));
    row
}

proof fn lemma_two_char_blen(a: char, b: char)
    requires
        (a as u32) < 0x80,
        (b as u32) < 0x80,
    ensures
        crate::text::blen(seq![a, b]) == 2,
        byte_len(seq![a, b]) == 2,
{
    crate::text::lemma_blen_char(a);
    crate::text::lemma_blen_char(b);
    crate::text::lemma_blen_add(seq![a], seq![b]);
    assert(seq![a] + seq![b] =~= seq![a, b]);
}

/// The entry of `script` in a short listing and its width: how `style` names it
/// (`ty` its type as shown, `file` its file), marked as `style_name` does with
/// the short marks.
pub fn meta_short(
    script: &ScriptInfo,
    style: DisplayIdentStyle,
    ty: &str,
    file: &str,
    is_latest: bool,
    plain: bool,
    color: Color,
) -> (r: (String, usize))
    requires
        byte_len(ident_text(style, name_key(script.name@), ty@, file@)) + 1 <= usize::MAX,
    ensures
        ({
            let (t, w) = style_name_text(
                plain,
                is_latest,
                seq!['*'],
                Seq::empty(),
                color,
                ident_text(style, name_key(script.name@), ty@, file@),
            );
            r.0@ == t && r.1 == w
        }),
{
    let name = script.name.key();
    let ident = ident_for(style, name.as_str(), ty, file);
    let marks = short_latest_txt();
    proof {
        crate::text::lemma_blen_char('*');
        assert(crate::text::blen(Seq::<char>::empty()) == 0) by {
            assert(vstd::utf8::encode_utf8(Seq::<char>::empty()) =~= Seq::<u8>::empty());
        }
    }
    match style_name(plain, is_latest, marks, color, ident.as_str()) {
        Ok(x) => x,
        Err(_) => (String::new(), 0),
    }
}

/// The title of a group of scripts with the tags `key`: its text dimmed and
/// italic, unless `plain`.
pub fn group_title(key: &TagsKey, plain: bool) -> (r: String)
    ensures
        r@ == maybe_styled(plain, tags_key_text(key@), 6),
{
    styled_if(plain, key.to_string(), 6)
}

/// The row of a line of a long tree listing: for a script, the branch lines
/// (dimmed) and its name marked as `style_name` does with the short marks, as
/// wide as both, then `info_cells`; for a directory, the branch lines and its
/// name dimmed and italic, as wide as both, alone.
pub open spec fn tree_row_text(
    line: (Option<(Seq<bool>, bool)>, (Option<TrimmedScriptInfo>, Seq<char>)),
    plain: bool,
    is_latest: bool,
    color: Color,
    ty: Seq<char>,
    write: Seq<char>,
    exec: Seq<char>,
    help: Seq<char>,
) -> Seq<(Seq<char>, usize)> {
    let l = maybe_styled(plain, pieces_text(leading_v_pieces(line.0)), 2);
    let lw = pieces_width(leading_v_pieces(line.0));
    match line.1.0 {
        Some(t) => {
            let (n, w) = style_name_text(plain, is_latest, seq!['*'], Seq::empty(), color, t.spec_display_key());
            seq![(l + n, (lw + w) as usize)] + info_cells(plain, color, ty, write, exec, help)
        },
        None => seq![(l + maybe_styled(plain, line.1.1, 6), (lw + byte_len(line.1.1)) as usize)],
    }
}

/// The row of a listed line fits the machine's sizes.
pub open spec fn tree_row_fits(line: (Option<(Seq<bool>, bool)>, (Option<TrimmedScriptInfo>, Seq<char>))) -> bool {
    let lw = pieces_width(leading_v_pieces(line.0));
    &&& leading_ok(line.0)
    &&& match line.1.0 {
        Some(t) => lw + byte_len(t.spec_display_key()) + 1 <= usize::MAX,
        None => lw + byte_len(line.1.1) <= usize::MAX,
    }
}

/// The row of a line of a long tree listing; `is_latest`, `color`, `ty`,
/// `write`, `exec` and `help` describe the script of a leaf line as `meta_row`
/// takes them.
pub fn tree_row(
    line: &TreeLine<TrimmedScriptInfo>,
    is_latest: bool,
    plain: bool,
    color: Color,
    ty: &str,
    write: &str,
    exec: &str,
    help: String,
) -> (r: Vec<Cell>)
    requires
        tree_row_fits(line@),
    ensures
        r@.map_values(|c: Cell| c@) == tree_row_text(line@, plain, is_latest, color, ty@, write@, exec@, help@),
{
    let lw = line.leading.width();
    let l = styled_if(plain, line.leading.to_string(), 2);
    let mut text: Vec<char> = Vec::new();
    push_str(&mut text, l.as_str());
    let mut row: Vec<Cell> = Vec::new();
    match &line.item {
        TreeItem::Leaf(t) => {
            let name = t.display_key();
            proof {
                crate::text::lemma_blen_char('*');
                assert(crate::text::blen(Seq::<char>::empty()) == 0) by {
                    assert(vstd::utf8::encode_utf8(Seq::<char>::empty()) =~= Seq::<u8>::empty());
                }
            }
            let (n, w) = match style_name(plain, is_latest, short_latest_txt(), color, name.as_str()) {
                Ok(x) => x,
                Err(_) => (String::new(), 0),
            };
            push_str(&mut text, n.as_str());
            row.push(Cell::new_with_len(from_chars(text.as_slice()), lw + w));
            push_info_cells(&mut row, plain, color, ty, write, exec, help);
        },
        TreeItem::NonLeaf(name) => {
            let n = styled_if(plain, name.clone(), 6);
            push_str(&mut text, n.as_str());
            row.push(Cell::new_with_len(from_chars(text.as_slice()), lw + name.as_str().len()));
        },
    }
    assert(row@.map_values(|c: Cell| c@) =~= tree_row_text(line@, plain, is_latest, color, ty@, write@, exec@, help@));
    row
}

/// All the scripts that the groups `g` hold, counted with multiplicity.
pub open spec fn groups_ms<'a, K>(g: Seq<(K, Seq<&'a ScriptInfo>)>) -> Multiset<&'a ScriptInfo>
    decreases g.len(),
{
    if g.len() == 0 {
        Multiset::empty()
    } else {
        groups_ms(g.drop_last()).add(g.last().1.to_multiset())
    }
}

proof fn lemma_insert_latest_ms<'a>(s: Seq<&'a ScriptInfo>, x: &'a ScriptInfo)
    ensures
        insert_latest(s, x).to_multiset() =~= s.to_multiset().insert(x),
    decreases s.len(),
{
    broadcast use vstd::seq_lib::group_to_multiset_ensures, vstd::multiset::group_multiset_axioms;

    if s.len() == 0 {
        assert(seq![x] =~= Seq::<&ScriptInfo>::empty().push(x));
    } else {
        vstd::seq_lib::lemma_multiset_commutative(seq![s[0]], s.drop_first());
        assert(s =~= seq![s[0]] + s.drop_first());
        if s[0].spec_last_time() >= x.spec_last_time() {
            lemma_insert_latest_ms(s.drop_first(), x);
            vstd::seq_lib::lemma_multiset_commutative(seq![s[0]], insert_latest(s.drop_first(), x));
        } else {
            vstd::seq_lib::lemma_multiset_commutative(seq![x], s);
            assert(seq![x] =~= Seq::<&ScriptInfo>::empty().push(x));
        }
    }
}

proof fn lemma_latest_first_ms<'a>(s: Seq<&'a ScriptInfo>)
    ensures
        latest_first(s).to_multiset() =~= s.to_multiset(),
    decreases s.len(),
{
    broadcast use vstd::seq_lib::group_to_multiset_ensures, vstd::multiset::group_multiset_axioms;

    if s.len() > 0 {
        lemma_latest_first_ms(s.drop_last());
        lemma_insert_latest_ms(latest_first(s.drop_last()), s.last());
        assert(s =~= s.drop_last().push(s.last()));
    }
}

proof fn lemma_groups_ms_prepend<'a, K>(a: (K, Seq<&'a ScriptInfo>), r: Seq<(K, Seq<&'a ScriptInfo>)>)
    ensures
        groups_ms(seq![a] + r) =~= a.1.to_multiset().add(groups_ms(r)),
    decreases r.len(),
{
    broadcast use vstd::multiset::group_multiset_axioms;

    if r.len() == 0 {
        assert(seq![a] + r =~= seq![a]);
        assert(seq![a].drop_last() =~= Seq::<(K, Seq<&ScriptInfo>)>::empty());
        assert(groups_ms(Seq::<(K, Seq<&ScriptInfo>)>::empty()) == Multiset::<&ScriptInfo>::empty());
        assert(groups_ms(r) == Multiset::<&ScriptInfo>::empty());
        assert(groups_ms(seq![a]) == groups_ms(seq![a].drop_last()).add(a.1.to_multiset()));
    } else {
        lemma_groups_ms_prepend(a, r.drop_last());
        let t = seq![a] + r;
        assert(t.drop_last() =~= seq![a] + r.drop_last());
        assert(t.last() == r.last());
        assert(groups_ms(t) == groups_ms(t.drop_last()).add(t.last().1.to_multiset()));
        assert(groups_ms(r) == groups_ms(r.drop_last()).add(r.last().1.to_multiset()));
    }
}

proof fn lemma_groups_ms_update<'a, K>(g: Seq<(K, Seq<&'a ScriptInfo>)>, i: int, k: K, v: Seq<&'a ScriptInfo>, x: &'a ScriptInfo)
    requires
        0 <= i < g.len(),
        v.to_multiset() == g[i].1.to_multiset().insert(x),
    ensures
        groups_ms(g.update(i, (k, v))) =~= groups_ms(g).insert(x),
    decreases g.len(),
{
    broadcast use vstd::multiset::group_multiset_axioms;

    let u = g.update(i, (k, v));
    if i == g.len() - 1 {
        assert(u.drop_last() =~= g.drop_last());
    } else {
        lemma_groups_ms_update(g.drop_last(), i, k, v, x);
        assert(u.drop_last() =~= g.drop_last().update(i, (k, v)));
    }
}

proof fn lemma_find_group_range<'a>(g: Seq<GroupV<'a>>, k: Seq<Seq<char>>)
    ensures
        find_group(g, k) matches Some(i) ==> 0 <= i < g.len(),
    decreases g.len(),
{
    if g.len() > 0 {
        lemma_find_group_range(g.drop_last(), k);
    }
}

proof fn lemma_tag_groups_ms<'a>(s: Seq<&'a ScriptInfo>)
    ensures
        groups_ms(tag_groups(s)) =~= s.to_multiset(),
    decreases s.len(),
{
    broadcast use vstd::seq_lib::group_to_multiset_ensures, vstd::multiset::group_multiset_axioms;

    if s.len() > 0 {
        lemma_tag_groups_ms(s.drop_last());
        let g = tag_groups(s.drop_last());
        let x = s.last();
        let k = sort_names(x.tags.spec_list());
        lemma_find_group_range(g, k);
        assert(s =~= s.drop_last().push(x));
        match find_group(g, k) {
            Some(i) => {
                lemma_groups_ms_update(g, i, k, g[i].1.push(x), x);
            },
            None => {
                assert(g.push((k, seq![x])).drop_last() =~= g);
                assert(seq![x] =~= Seq::<&ScriptInfo>::empty().push(x));
            },
        }
    }
}

proof fn lemma_insert_group_ms<'a>(s: Seq<GroupV<'a>>, x: GroupV<'a>)
    ensures
        groups_ms(insert_group(s, x)) =~= groups_ms(s).add(x.1.to_multiset()),
    decreases s.len(),
{
    broadcast use vstd::multiset::group_multiset_axioms;

    if s.len() == 0 {
        assert(seq![x].drop_last() =~= Seq::<GroupV>::empty());
        assert(groups_ms(Seq::<GroupV<'a>>::empty()) == Multiset::<&ScriptInfo>::empty());
        assert(groups_ms(seq![x]) == groups_ms(seq![x].drop_last()).add(x.1.to_multiset()));
    } else {
        lemma_groups_ms_prepend(s[0], s.drop_first());
        assert(s =~= seq![s[0]] + s.drop_first());
        if opt_le_key(s[0], x) {
            lemma_insert_group_ms(s.drop_first(), x);
            lemma_groups_ms_prepend(s[0], insert_group(s.drop_first(), x));
        } else {
            lemma_groups_ms_prepend(x, s);
        }
    }
}

spec fn opt_le_key<'a>(a: GroupV<'a>, b: GroupV<'a>) -> bool {
    crate::list::opt_le(group_key(a), group_key(b))
}

proof fn lemma_sort_groups_ms<'a>(s: Seq<GroupV<'a>>)
    ensures
        groups_ms(sort_groups(s)) =~= groups_ms(s),
    decreases s.len(),
{
    broadcast use vstd::multiset::group_multiset_axioms;

    if s.len() > 0 {
        lemma_sort_groups_ms(s.drop_last());
        lemma_insert_group_ms(sort_groups(s.drop_last()), s.last());
    }
}

proof fn lemma_shown_groups_ms<'a>(g: Seq<GroupV<'a>>, sorted: bool)
    ensures
        groups_ms(titled_groups(g, sorted)) =~= groups_ms(g),
    decreases g.len(),
{
    broadcast use vstd::multiset::group_multiset_axioms;

    let m = titled_groups(g, sorted);
    if g.len() > 0 {
        lemma_shown_groups_ms(g.drop_last(), sorted);
        assert(m.drop_last() =~= titled_groups(g.drop_last(), sorted));
        assert(m.last() == (Some(g.last().0), shown_order(g.last().1, sorted)));
        lemma_latest_first_ms(g.last().1);
        assert(groups_ms(m) == groups_ms(m.drop_last()).add(m.last().1.to_multiset()));
        assert(groups_ms(g) == groups_ms(g.drop_last()).add(g.last().1.to_multiset()));
    } else {
        assert(m.len() == 0);
    }
}

/// A listing that is not a tree shows every script once: its groups together
/// hold exactly the scripts listed.
pub proof fn law_listing_keeps_scripts<'a>(scripts: Seq<&'a ScriptInfo>, sorted: bool, grouping: Grouping)
    ensures
        groups_ms(listed_groups(scripts, sorted, grouping)) =~= scripts.to_multiset(),
{
    broadcast use vstd::multiset::group_multiset_axioms;

    match grouping {
        Grouping::Tag => {
            lemma_tag_groups_ms(scripts);
            lemma_sort_groups_ms(tag_groups(scripts));
            lemma_shown_groups_ms(sort_groups(tag_groups(scripts)), sorted);
        },
        _ => {
            lemma_latest_first_ms(scripts);
            let g = listed_groups(scripts, sorted, grouping);
            assert(g.drop_last() =~= Seq::<(Option<Seq<Seq<char>>>, Seq<&ScriptInfo>)>::empty());
            assert(groups_ms(Seq::<(Option<Seq<Seq<char>>>, Seq<&ScriptInfo>)>::empty()) == Multiset::<
                &ScriptInfo,
            >::empty());
            assert(groups_ms(g) == groups_ms(g.drop_last()).add(g.last().1.to_multiset()));
        },
    }
}

} // verus!
