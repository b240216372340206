//! Trees of names split at `/`: leaves hold values, inner nodes name directories
//! and remember the largest key found beneath them; listing a tree orders each
//! directory's entries (leaves first, then by key) and draws branch lines.
use crate::text::{from_chars, push_str, str_eq};
use vstd::prelude::*;

verus! {

/// A value shown as a leaf: ordered by its key, named by its display text.
pub trait TreeValue {
    spec fn spec_cmp_key(&self) -> u64;

    spec fn spec_display_key(&self) -> Seq<char>;

    fn cmp_key(&self) -> (r: u64)
        ensures
            r == self.spec_cmp_key(),
    ;

    fn display_key(&self) -> (r: String)
        ensures
            r@ == self.spec_display_key(),
    ;
}

/// View of a tree: a leaf, or a directory with its largest key, its name and its
/// entries, each with whether it was filed as a leaf.
pub enum TreeV<T> {
    Leaf(T),
    NonLeaf(Option<u64>, Seq<char>, Seq<(bool, TreeV<T>)>),
}

/// A directory of the tree.
pub struct NonLeafInner<T> {
    max_key: Option<u64>,
    value: String,
    childs: Vec<(bool, TreeNode<T>)>,
}

/// A node of the tree.
pub enum TreeNode<T> {
    Leaf(T),
    NonLeaf(NonLeafInner<T>),
}

impl<T> TreeNode<T> {
    pub closed spec fn tv(&self) -> TreeV<T>
        decreases self,
    {
        match self {
            TreeNode::Leaf(t) => TreeV::Leaf(*t),
            TreeNode::NonLeaf(inner) => TreeV::NonLeaf(inner.max_key, inner.value@, tv_list(inner.childs@)),
        }
    }
}

/// Views of a directory's entries.
pub closed spec fn tv_list<T>(s: Seq<(bool, TreeNode<T>)>) -> Seq<(bool, TreeV<T>)>
    decreases s,
{
    if s.len() == 0 {
        Seq::empty()
    } else {
        seq![(s[0].0, s[0].1.tv())] + tv_list(s.drop_first())
    }
}

pub proof fn lemma_tv_list<T>(s: Seq<(bool, TreeNode<T>)>)
    ensures
        tv_list(s).len() == s.len(),
        forall|i: int| 0 <= i < s.len() ==> #[trigger] tv_list(s)[i] == (s[i].0, s[i].1.tv()),
    decreases s.len(),
{
    if s.len() > 0 {
        lemma_tv_list(s.drop_first());
        assert forall|i: int| 0 <= i < s.len() implies #[trigger] tv_list(s)[i] == (s[i].0, s[i].1.tv()) by {
            if i > 0 {
                assert(tv_list(s)[i] == tv_list(s.drop_first())[i - 1]);
            }
        }
    }
}

proof fn lemma_tv_list_update<T>(s: Seq<(bool, TreeNode<T>)>, i: int, x: (bool, TreeNode<T>))
    requires
        0 <= i < s.len(),
    ensures
        tv_list(s.update(i, x)) == tv_list(s).update(i, (x.0, x.1.tv())),
{
    lemma_tv_list(s);
    lemma_tv_list(s.update(i, x));
    assert(tv_list(s.update(i, x)) =~= tv_list(s).update(i, (x.0, x.1.tv())));
}

proof fn lemma_tv_list_push<T>(s: Seq<(bool, TreeNode<T>)>, x: (bool, TreeNode<T>))
    ensures
        tv_list(s.push(x)) == tv_list(s).push((x.0, x.1.tv())),
{
    lemma_tv_list(s);
    lemma_tv_list(s.push(x));
    assert(tv_list(s.push(x)) =~= tv_list(s).push((x.0, x.1.tv())));
}

/// The name a node is shown with.
pub open spec fn tv_display<T: TreeValue>(t: TreeV<T>) -> Seq<char> {
    match t {
        TreeV::Leaf(x) => x.spec_display_key(),
        TreeV::NonLeaf(_, v, _) => v,
    }
}

/// The key a node is ordered by: a leaf's own, a directory's largest.
pub open spec fn tv_cmp_key<T: TreeValue>(t: TreeV<T>) -> Option<u64> {
    match t {
        TreeV::Leaf(x) => Some(x.spec_cmp_key()),
        TreeV::NonLeaf(m, _, _) => m,
    }
}

/// The key an entry is filed under in its directory.
pub open spec fn entry_key<T: TreeValue>(c: (bool, TreeV<T>)) -> (bool, Seq<char>) {
    (c.0, tv_display(c.1))
}

/// The first entry filed under `k`.
pub open spec fn find_entry<T: TreeValue>(cs: Seq<(bool, TreeV<T>)>, k: (bool, Seq<char>)) -> Option<int>
    decreases cs.len(),
{
    if cs.len() == 0 {
        None
    } else {
        match find_entry(cs.drop_last(), k) {
            Some(i) => Some(i),
            None => if entry_key(cs.last()) == k {
                Some(cs.len() - 1)
            } else {
                None
            },
        }
    }
}

/// Files `c` under its key, replacing the entry already filed there.
pub open spec fn put_entry<T: TreeValue>(cs: Seq<(bool, TreeV<T>)>, c: (bool, TreeV<T>)) -> Seq<(bool, TreeV<T>)> {
    match find_entry(cs, entry_key(c)) {
        Some(i) => cs.update(i, c),
        None => cs.push(c),
    }
}

/// The directory called `name` among `cs`, as its largest key and entries; a new
/// empty one when there is none.
pub open spec fn dir_of<T: TreeValue>(cs: Seq<(bool, TreeV<T>)>, name: Seq<char>) -> (Option<u64>, Seq<(bool, TreeV<T>)>) {
    match find_entry(cs, (false, name)) {
        Some(i) => match cs[i].1 {
            TreeV::NonLeaf(m, _, c) => (m, c),
            TreeV::Leaf(_) => (None, Seq::empty()),
        },
        None => (None, Seq::empty()),
    }
}

/// A key `k` raises the largest key `m` when it is larger, or when there was none.
pub open spec fn raises(k: Option<u64>, m: Option<u64>) -> bool {
    match k {
        Some(k) => match m {
            Some(m) => k > m,
            None => true,
        },
        None => false,
    }
}

/// The directory `(m, cs)` after filing `leaf` along `path` beneath it, with the
/// key by which its largest key rose (`None` when it did not).
pub open spec fn dir_insert<T: TreeValue>(m: Option<u64>, cs: Seq<(bool, TreeV<T>)>, path: Seq<Seq<char>>, leaf: TreeV<T>) -> (
    Option<u64>,
    Seq<(bool, TreeV<T>)>,
    Option<u64>,
)
    decreases path.len(),
{
    let (cs2, key) = if path.len() > 0 {
        let (cm, cc) = dir_of(cs, path[0]);
        let (m2, c2, k2) = dir_insert(cm, cc, path.drop_first(), leaf);
        (put_entry(cs, (false, TreeV::NonLeaf(m2, path[0], c2))), k2)
    } else {
        (put_entry(cs, (true, leaf)), tv_cmp_key(leaf))
    };
    if raises(key, m) {
        (key, cs2, key)
    } else {
        (m, cs2, None)
    }
}

/// The entries `cs` after filing `leaf` along `path`.
pub open spec fn map_insert<T: TreeValue>(cs: Seq<(bool, TreeV<T>)>, path: Seq<Seq<char>>, leaf: TreeV<T>) -> Seq<(bool, TreeV<T>)> {
    if path.len() > 0 {
        let (cm, cc) = dir_of(cs, path[0]);
        let (m2, c2, _) = dir_insert(cm, cc, path.drop_first(), leaf);
        put_entry(cs, (false, TreeV::NonLeaf(m2, path[0], c2)))
    } else {
        put_entry(cs, (true, leaf))
    }
}

/// No entry filed as a directory is a leaf, here and at every depth below.
pub open spec fn dirs_tidy<T>(cs: Seq<(bool, TreeV<T>)>) -> bool
    decreases cs,
{
    forall|i: int| 0 <= i < cs.len() ==> {
        &&& (!cs[i].0 ==> cs[i].1 is NonLeaf)
        &&& match cs[i].1 {
            TreeV::NonLeaf(_, _, c) => dirs_tidy(c),
            TreeV::Leaf(_) => true,
        }
    }
}

proof fn lemma_find_entry<T: TreeValue>(cs: Seq<(bool, TreeV<T>)>, k: (bool, Seq<char>), i: int)
    requires
        0 <= i <= cs.len(),
        forall|j: int| 0 <= j < i ==> entry_key(#[trigger] cs[j]) != k,
    ensures
        find_entry(cs.take(i), k) is None,
        i < cs.len() && entry_key(cs[i]) == k ==> find_entry(cs, k) == Some(i),
        i == cs.len() ==> find_entry(cs, k) is None,
    decreases cs.len(),
{
    if i < cs.len() {
        lemma_find_entry(cs.drop_last(), k, i);
        assert(cs.drop_last().take(i) =~= cs.take(i));
        if i == cs.len() - 1 {
            assert(cs.drop_last() =~= cs.take(i));
        }
    } else {
        if cs.len() > 0 {
            lemma_find_entry(cs.drop_last(), k, i - 1);
            assert(cs.drop_last().take(i - 1) =~= cs.drop_last());
        }
        assert(cs.take(i) =~= cs);
    }
}

pub proof fn lemma_find_entry_found<T: TreeValue>(cs: Seq<(bool, TreeV<T>)>, k: (bool, Seq<char>))
    ensures
        find_entry(cs, k) matches Some(i) ==> 0 <= i < cs.len() && entry_key(cs[i]) == k,
    decreases cs.len(),
{
    if cs.len() > 0 {
        lemma_find_entry_found(cs.drop_last(), k);
    }
}

/// The path parts from `start` on.
pub open spec fn path_from(path: Seq<String>, start: int) -> Seq<Seq<char>> {
    path.skip(start).map_values(|s: String| s@)
}

/// No directory's name is filed by a leaf among `cs`.
pub open spec fn dir_safe<T: TreeValue>(cs: Seq<(bool, TreeV<T>)>, name: Seq<char>) -> bool {
    find_entry(cs, (false, name)) matches Some(i) ==> cs[i].1 is NonLeaf
}

/// A directory is tidy inside; a leaf always is.
pub open spec fn inner_tidy<T>(t: TreeV<T>) -> bool {
    match t {
        TreeV::NonLeaf(_, _, c) => dirs_tidy(c),
        TreeV::Leaf(_) => true,
    }
}

/// Every directory among `cs` is tidy inside.
pub open spec fn nested_tidy<T>(cs: Seq<(bool, TreeV<T>)>) -> bool {
    forall|i: int| 0 <= i < cs.len() ==> inner_tidy((#[trigger] cs[i]).1)
}

proof fn lemma_tidy_parts<T: TreeValue>(cs: Seq<(bool, TreeV<T>)>, name: Seq<char>)
    requires
        dirs_tidy(cs),
    ensures
        nested_tidy(cs),
        dir_safe(cs, name),
{
    lemma_find_entry_found(cs, (false, name));
    assert forall|i: int| 0 <= i < cs.len() implies inner_tidy((#[trigger] cs[i]).1) by {
    }
}

proof fn lemma_put_tidy<T: TreeValue>(cs: Seq<(bool, TreeV<T>)>, c: (bool, TreeV<T>))
    requires
        dirs_tidy(cs),
        !c.0 ==> c.1 is NonLeaf,
        inner_tidy(c.1),
    ensures
        dirs_tidy(put_entry(cs, c)),
{
    lemma_find_entry_found(cs, entry_key(c));
    let r = put_entry(cs, c);
    assert forall|i: int| 0 <= i < r.len() implies {
        &&& (!r[i].0 ==> r[i].1 is NonLeaf)
        &&& match r[i].1 {
            TreeV::NonLeaf(_, _, cc) => dirs_tidy(cc),
            TreeV::Leaf(_) => true,
        }
    } by {
        if i < cs.len() && r[i] == cs[i] {
        }
    }
}

proof fn lemma_dir_insert_tidy<T: TreeValue>(m: Option<u64>, cs: Seq<(bool, TreeV<T>)>, path: Seq<Seq<char>>, leaf: TreeV<T>)
    requires
        dirs_tidy(cs),
        inner_tidy(leaf),
    ensures
        dirs_tidy(dir_insert(m, cs, path, leaf).1),
    decreases path.len(),
{
    if path.len() > 0 {
        let (cm, cc) = dir_of(cs, path[0]);
        lemma_find_entry_found(cs, (false, path[0]));
        assert(dirs_tidy(cc)) by {
            match find_entry(cs, (false, path[0])) {
                Some(i) => {
                    assert(cs[i].1 is NonLeaf);
                },
                None => {},
            }
        }
        lemma_dir_insert_tidy(cm, cc, path.drop_first(), leaf);
        let (m2, c2, k2) = dir_insert(cm, cc, path.drop_first(), leaf);
        lemma_put_tidy(cs, (false, TreeV::NonLeaf(m2, path[0], c2)));
    } else {
        lemma_put_tidy(cs, (true, leaf));
    }
}

impl<T: TreeValue> NonLeafInner<T> {
    /// The directory's largest key, name and entries.
    pub closed spec fn inner_v(&self) -> (Option<u64>, Seq<char>, Seq<(bool, TreeV<T>)>) {
        (self.max_key, self.value@, tv_list(self.childs@))
    }

    /// Files `leaf` along the path parts from `start` on, creating the directories
    /// that are missing, and returns the key by which the largest key rose.
    pub fn insert(&mut self, path: &Vec<String>, start: usize, leaf: TreeNode<T>) -> (r: Option<u64>)
        requires
            start <= path@.len(),
            dirs_tidy(old(self).inner_v().2),
            inner_tidy(leaf.tv()),
        ensures
            ({
                let (m2, c2, k) = dir_insert(
                    old(self).inner_v().0,
                    old(self).inner_v().2,
                    path_from(path@, start as int),
                    leaf.tv(),
                );
                final(self).inner_v() == (m2, old(self).inner_v().1, c2) && r == k
            }),
            dirs_tidy(final(self).inner_v().2),
        decreases path@.len() - start, 1int,
    {
        let ghost p = path_from(path@, start as int);
        let ghost old_cs = tv_list(self.childs@);
        let ghost lv = leaf.tv();
        proof {
            lemma_dir_insert_tidy(self.max_key, old_cs, p, lv);
        }
        let rise: Option<u64>;
        if start < path.len() {
            proof {
                lemma_tidy_parts(old_cs, path@[start as int]@);
            }
            rise = TreeNode::descend(&mut self.childs, path, start, leaf);
        } else {
            proof {
                assert(p.len() == 0);
            }
            rise = TreeNode::file_here(&mut self.childs, leaf);
        }
        let mut need_change = false;
        match rise {
            Some(k) => {
                match self.max_key {
                    Some(m) => {
                        need_change = k > m;
                    },
                    None => {
                        need_change = true;
                    },
                }
            },
            None => {},
        }
        if need_change {
            self.max_key = rise;
            self.max_key
        } else {
            None
        }
    }
}

impl<T: TreeValue> TreeNode<T> {
    pub fn new_leaf(t: T) -> (r: Self)
        ensures
            r.tv() == TreeV::Leaf(t),
    {
        TreeNode::Leaf(t)
    }

    /// A directory named `value` holding `childs`, with no largest key yet.
    pub fn new_nonleaf(value: String, childs: Vec<(bool, TreeNode<T>)>) -> (r: Self)
        ensures
            r.tv() == TreeV::NonLeaf(None, value@, tv_list(childs@)),
    {
        TreeNode::NonLeaf(NonLeafInner { value, childs, max_key: None })
    }

    /// The name the node is shown with.
    pub fn display_key(&self) -> (r: String)
        ensures
            r@ == tv_display(self.tv()),
    {
        match self {
            TreeNode::Leaf(leaf) => leaf.display_key(),
            TreeNode::NonLeaf(t) => t.value.clone(),
        }
    }

    /// The key the node is ordered by.
    pub fn cmp_key(&self) -> (r: Option<u64>)
        ensures
            r == tv_cmp_key(self.tv()),
    {
        match self {
            TreeNode::Leaf(t) => Some(t.cmp_key()),
            TreeNode::NonLeaf(t) => t.max_key,
        }
    }

    fn find(map: &Vec<(bool, TreeNode<T>)>, is_leaf: bool, key: &str) -> (r: Option<usize>)
        ensures
            match r {
                Some(i) => find_entry(tv_list(map@), (is_leaf, key@)) == Some(i as int),
                None => find_entry(tv_list(map@), (is_leaf, key@)) is None,
            },
    {
        let ghost cs = tv_list(map@);
        proof {
            lemma_tv_list(map@);
        }
        let mut i: usize = 0;
        while i < map.len()
            invariant
                cs == tv_list(map@),
                cs.len() == map@.len(),
                forall|j: int| 0 <= j < map@.len() ==> #[trigger] cs[j] == (map@[j].0, map@[j].1.tv()),
                i <= map@.len(),
                forall|j: int| 0 <= j < i ==> entry_key(#[trigger] cs[j]) != (is_leaf, key@),
            decreases map@.len() - i,
        {
            let d = map[i].1.display_key();
            if map[i].0 == is_leaf && str_eq(d.as_str(), key) {
                proof {
                    lemma_find_entry(cs, (is_leaf, key@), i as int);
                }
                return Some(i);
            }
            i = i + 1;
        }
        proof {
            lemma_find_entry(cs, (is_leaf, key@), i as int);
        }
        None
    }

    /// Files `node` under its key, replacing the entry already filed there.
    pub(crate) fn put(map: &mut Vec<(bool, TreeNode<T>)>, is_leaf: bool, node: TreeNode<T>)
        ensures
            tv_list(final(map)@) == put_entry(tv_list(old(map)@), (is_leaf, node.tv())),
    {
        let key = node.display_key();
        let ghost c = (is_leaf, node.tv());
        match Self::find(map, is_leaf, key.as_str()) {
            Some(i) => {
                proof {
                    lemma_tv_list(old(map)@);
                    lemma_find_entry_found(tv_list(old(map)@), (is_leaf, key@));
                    lemma_tv_list_update(old(map)@, i as int, (is_leaf, node));
                }
                map.set(i, (is_leaf, node));
            },
            None => {
                proof {
                    lemma_tv_list_push(old(map)@, (is_leaf, node));
                }
                map.push((is_leaf, node));
            },
        }
    }

    /// Files `leaf` along the path parts from `start` on (there is one) among
    /// `map`, and gives the key by which the first directory's largest key rose.
    fn descend(map: &mut Vec<(bool, TreeNode<T>)>, path: &Vec<String>, start: usize, leaf: TreeNode<T>) -> (r: Option<u64>)
        requires
            start < path@.len(),
            dir_safe(tv_list(old(map)@), path@[start as int]@),
            nested_tidy(tv_list(old(map)@)),
            inner_tidy(leaf.tv()),
        ensures
            ({
                let p = path_from(path@, start as int);
                let (cm, cc) = dir_of(tv_list(old(map)@), p[0]);
                let (m2, c2, k2) = dir_insert(cm, cc, p.drop_first(), leaf.tv());
                tv_list(final(map)@) == put_entry(tv_list(old(map)@), (false, TreeV::NonLeaf(m2, p[0], c2)))
                    && r == k2 && dirs_tidy(c2)
            }),
        decreases path@.len() - start, 0int,
    {
        let ghost cs = tv_list(map@);
        let ghost p = path_from(path@, start as int);
        let ghost name = path@[start as int]@;
        proof {
            assert(p[0] == name);
            assert(p.drop_first() =~= path_from(path@, start + 1));
            lemma_tv_list(map@);
            lemma_find_entry_found(cs, (false, name));
        }
        let i = Self::next_nonleaf(map, path[start].as_str());
        let ghost mid = map@;
        let (flag, node) = map.remove(i);
        match node {
            TreeNode::NonLeaf(mut inner) => {
                proof {
                    lemma_tv_list(mid);
                    let (cm, cc) = dir_of(cs, name);
                    match find_entry(cs, (false, name)) {
                        Some(j) => {
                            assert(cs[j] == (mid[j].0, mid[j].1.tv()));
                            assert(inner.inner_v() == (cm, name, cc));
                        },
                        None => {
                            assert(inner.inner_v() == (cm, name, cc));
                        },
                    }
                    assert(dirs_tidy(cc));
                }
                let n = path.len();
                let rise = inner.insert(path, start + 1, leaf);
                let ghost new_node = TreeNode::<T>::NonLeaf(inner);
                map.insert(i, (flag, TreeNode::NonLeaf(inner)));
                proof {
                    let (cm, cc) = dir_of(cs, name);
                    let (m2, c2, k2) = dir_insert(cm, cc, p.drop_first(), leaf.tv());
                    assert(map@ =~= mid.update(i as int, (false, new_node)));
                    lemma_tv_list_update(mid, i as int, (false, new_node));
                    assert(new_node.tv() == TreeV::NonLeaf(m2, name, c2));
                    let x = (false, TreeV::NonLeaf(m2, name, c2));
                    assert(entry_key(x) == (false, name));
                    match find_entry(cs, (false, name)) {
                        Some(j) => {
                            assert(tv_list(mid) == cs);
                            assert(tv_list(map@) =~= cs.update(j, x));
                        },
                        None => {
                            lemma_tv_list_push(old(map)@, mid[i as int]);
                            assert(tv_list(map@) =~= cs.push(x));
                        },
                    }
                }
                rise
            },
            TreeNode::Leaf(x) => {
                proof {
                    lemma_tv_list(mid);
                    assert(false);
                }
                map.insert(i, (flag, TreeNode::Leaf(x)));
                None
            },
        }
    }

    /// Files `leaf` among `map` and gives its key.
    fn file_here(map: &mut Vec<(bool, TreeNode<T>)>, leaf: TreeNode<T>) -> (r: Option<u64>)
        ensures
            tv_list(final(map)@) == put_entry(tv_list(old(map)@), (true, leaf.tv())),
            r == tv_cmp_key(leaf.tv()),
    {
        let k = leaf.cmp_key();
        Self::put(map, true, leaf);
        k
    }

    /// The position of the directory called `key` among `map`, added empty when
    /// there is none.
    fn next_nonleaf(map: &mut Vec<(bool, TreeNode<T>)>, key: &str) -> (r: usize)
        requires
            dir_safe(tv_list(old(map)@), key@),
        ensures
            r < final(map)@.len(),
            final(map)@[r as int].0 == false,
            final(map)@[r as int].1 is NonLeaf,
            find_entry(tv_list(old(map)@), (false, key@)) matches Some(i) ==> (r == i && final(map)@ == old(map)@),
            find_entry(tv_list(old(map)@), (false, key@)) is None ==> (r == old(map)@.len() && final(map)@ == old(map)@.push(
                (false, final(map)@[r as int].1),
            ) && final(map)@[r as int].1.tv() == TreeV::<T>::NonLeaf(None, key@, Seq::empty())),
    {
        proof {
            lemma_tv_list(old(map)@);
        }
        match Self::find(map, false, key) {
            Some(i) => {
                proof {
                    lemma_find_entry_found(tv_list(old(map)@), (false, key@));
                }
                i
            },
            None => {
                let v: Vec<(bool, TreeNode<T>)> = Vec::new();
                let n = TreeNode::NonLeaf(NonLeafInner { value: key.to_owned(), max_key: None, childs: v });
                proof {
                    assert(tv_list(v@) =~= Seq::<(bool, TreeV<T>)>::empty());
                }
                map.push((false, n));
                map.len() - 1
            },
        }
    }

    /// Files `child` along the path parts from `start` on among `map`, creating
    /// the directories that are missing.
    pub fn insert_to_map(map: &mut Vec<(bool, TreeNode<T>)>, path: &Vec<String>, start: usize, child: Self)
        requires
            start <= path@.len(),
            start < path@.len() ==> dir_safe(tv_list(old(map)@), path@[start as int]@),
            nested_tidy(tv_list(old(map)@)),
            inner_tidy(child.tv()),
        ensures
            tv_list(final(map)@) == map_insert(tv_list(old(map)@), path_from(path@, start as int), child.tv()),
            nested_tidy(tv_list(final(map)@)),
    {
        let ghost cs = tv_list(map@);
        let ghost p = path_from(path@, start as int);
        if start < path.len() {
            let ghost pos = find_entry(cs, (false, path@[start as int]@));
            Self::descend(map, path, start, child);
            proof {
                lemma_find_entry_found(cs, (false, p[0]));
                let (cm, cc) = dir_of(cs, p[0]);
                let (m2, c2, k2) = dir_insert(cm, cc, p.drop_first(), child.tv());
                let x = (false, TreeV::NonLeaf(m2, p[0], c2));
                lemma_find_entry_found(cs, entry_key(x));
                let r = tv_list(map@);
                assert forall|k: int| 0 <= k < r.len() implies inner_tidy((#[trigger] r[k]).1) by {
                    if k < cs.len() && r[k] == cs[k] {
                    }
                }
            }
        } else {
            proof {
                lemma_find_entry_found(cs, entry_key((true, child.tv())));
            }
            Self::put(map, true, child);
            proof {
                let r = tv_list(map@);
                assert forall|k: int| 0 <= k < r.len() implies inner_tidy((#[trigger] r[k]).1) by {
                    if k < cs.len() && r[k] == cs[k] {
                    }
                }
            }
        }
    }
}

/// Entries are listed leaves first, then by key, an entry without a key first.
pub open spec fn entry_rank<T: TreeValue>(t: TreeV<T>) -> (int, int) {
    (if t is NonLeaf {
        1int
    } else {
        0int
    }, match tv_cmp_key(t) {
        Some(k) => k + 1,
        None => 0,
    })
}

/// Entry `a` is listed no later than entry `b`.
pub open spec fn entry_le<T: TreeValue>(a: TreeV<T>, b: TreeV<T>) -> bool {
    let (x1, y1) = entry_rank(a);
    let (x2, y2) = entry_rank(b);
    x1 < x2 || (x1 == x2 && y1 <= y2)
}

/// The positions `order` with `k` placed after the leading ones whose entries
/// come no later than entry `k`.
pub open spec fn insert_pos<T: TreeValue>(cs: Seq<(bool, TreeV<T>)>, order: Seq<int>, k: int) -> Seq<int>
    decreases order.len(),
{
    if order.len() == 0 {
        seq![k]
    } else if entry_le(cs[order[0]].1, cs[k].1) {
        seq![order[0]] + insert_pos(cs, order.drop_first(), k)
    } else {
        seq![k] + order
    }
}

/// The positions of the first `n` entries in listing order, equal entries
/// keeping their order.
pub open spec fn list_order<T: TreeValue>(cs: Seq<(bool, TreeV<T>)>, n: int) -> Seq<int>
    decreases n,
{
    if n <= 0 {
        Seq::empty()
    } else {
        insert_pos(cs, list_order(cs, n - 1), n - 1)
    }
}

proof fn lemma_insert_pos_range<T: TreeValue>(cs: Seq<(bool, TreeV<T>)>, order: Seq<int>, k: int, n: int)
    requires
        0 <= k < n,
        forall|i: int| 0 <= i < order.len() ==> 0 <= #[trigger] order[i] < n,
    ensures
        insert_pos(cs, order, k).len() == order.len() + 1,
        forall|i: int| 0 <= i < insert_pos(cs, order, k).len() ==> 0 <= #[trigger] insert_pos(cs, order, k)[i] < n,
    decreases order.len(),
{
    if order.len() > 0 {
        lemma_insert_pos_range(cs, order.drop_first(), k, n);
        let r = insert_pos(cs, order, k);
        assert forall|i: int| 0 <= i < r.len() implies 0 <= #[trigger] r[i] < n by {
            if entry_le(cs[order[0]].1, cs[k].1) {
                if i > 0 {
                    assert(r[i] == insert_pos(cs, order.drop_first(), k)[i - 1]);
                }
            } else {
                if i > 0 {
                    assert(r[i] == order[i - 1]);
                }
            }
        }
    }
}

proof fn lemma_list_order_range<T: TreeValue>(cs: Seq<(bool, TreeV<T>)>, n: int)
    requires
        n >= 0,
    ensures
        list_order(cs, n).len() == n,
        forall|i: int| 0 <= i < n ==> 0 <= #[trigger] list_order(cs, n)[i] < n,
    decreases n,
{
    if n > 0 {
        lemma_list_order_range(cs, n - 1);
        lemma_insert_pos_range(cs, list_order(cs, n - 1), n - 1, n);
    }
}

/// What a listed item shows: a leaf's value, or a directory's name.
pub open spec fn item_of<T>(t: TreeV<T>) -> (Option<T>, Seq<char>) {
    match t {
        TreeV::Leaf(x) => (Some(x), Seq::empty()),
        TreeV::NonLeaf(_, v, _) => (None, v),
    }
}

/// The flags of the directories above after listing an entry: the innermost is
/// done once its last entry is listed.
pub open spec fn done_after(done: Seq<bool>, end: bool) -> Seq<bool> {
    if end && done.len() > 0 {
        done.update(done.len() - 1, true)
    } else {
        done
    }
}

/// The lines listing node `t` and what lies beneath it, with `done` the flags of
/// the directories above and `end` whether `t` is the last of its directory.
pub open spec fn node_lines<T: TreeValue>(t: TreeV<T>, done: Seq<bool>, end: bool) -> Seq<
    (Option<(Seq<bool>, bool)>, (Option<T>, Seq<char>)),
>
    decreases t, 0int,
{
    let head = seq![(Some((done, end)), item_of(t))];
    match t {
        TreeV::Leaf(_) => head,
        TreeV::NonLeaf(_, _, cs) => head + list_lines(cs, list_order(cs, cs.len() as int), done_after(done, end).push(false)),
    }
}

/// The lines listing the entries at positions `order` of a directory.
pub open spec fn list_lines<T: TreeValue>(cs: Seq<(bool, TreeV<T>)>, order: Seq<int>, done: Seq<bool>) -> Seq<
    (Option<(Seq<bool>, bool)>, (Option<T>, Seq<char>)),
>
    decreases cs, order.len(),
{
    if order.len() == 0 {
        Seq::empty()
    } else {
        let k = order[0];
        let first = if 0 <= k < cs.len() {
            node_lines(cs[k].1, done, order.len() == 1)
        } else {
            Seq::empty()
        };
        first + list_lines(cs, order.drop_first(), done)
    }
}

/// The lines listing a whole tree: the root has no leading branches.
pub open spec fn tree_lines<T: TreeValue>(t: TreeV<T>) -> Seq<(Option<(Seq<bool>, bool)>, (Option<T>, Seq<char>))> {
    let head = seq![(None, item_of(t))];
    match t {
        TreeV::Leaf(_) => head,
        TreeV::NonLeaf(_, _, cs) => head + list_lines(cs, list_order(cs, cs.len() as int), seq![false]),
    }
}

/// Every directory, at every depth, has an entry.
pub open spec fn dirs_filled<T>(t: TreeV<T>) -> bool
    decreases t,
{
    match t {
        TreeV::Leaf(_) => true,
        TreeV::NonLeaf(_, _, cs) => cs.len() > 0 && forall|i: int| 0 <= i < cs.len() ==> dirs_filled(#[trigger] cs[i].1),
    }
}

/// One piece of the branch lines before an item.
#[derive(Debug, Clone, Copy, PartialEq, Eq, Structural)]
pub enum DisplayType {
    One,
    Two,
    Three,
    Four,
}

/// The text of a piece of branch lines.
pub open spec fn display_type_text(d: DisplayType) -> Seq<char> {
    match d {
        DisplayType::One => seq![' ', ' ', ' '],
        DisplayType::Two => seq!['│', ' ', ' '],
        DisplayType::Three => seq!['├', '─', '─', ' '],
        DisplayType::Four => seq!['└', '─', '─', ' '],
    }
}

impl DisplayType {
    pub fn as_str(&self) -> (r: &'static str)
        ensures
            r@ == display_type_text(*self),
    {
        proof {
            reveal_strlit("   ");
            reveal_strlit("│  ");
            reveal_strlit("├── ");
            reveal_strlit("└── ");
        }
        match self {
            DisplayType::One => "   ",
            DisplayType::Two => "│  ",
            DisplayType::Three => "├── ",
            DisplayType::Four => "└── ",
        }
    }
}

/// The pieces of branch lines before an item: for each directory above but the
/// innermost, a gap when it is done or a line going on; then a branch, the last
/// one of its directory bending.
pub open spec fn leading_pieces(done: Seq<bool>, end: bool) -> Seq<DisplayType> {
    done.take(done.len() - 1).map_values(|b: bool| if b {
        DisplayType::One
    } else {
        DisplayType::Two
    }).push(if end {
        DisplayType::Four
    } else {
        DisplayType::Three
    })
}

/// The text of pieces, one after the other.
pub open spec fn pieces_text(p: Seq<DisplayType>) -> Seq<char>
    decreases p.len(),
{
    if p.len() == 0 {
        Seq::empty()
    } else {
        pieces_text(p.drop_last()) + display_type_text(p.last())
    }
}

/// The displayed width of pieces, one after the other.
pub open spec fn pieces_width(p: Seq<DisplayType>) -> int
    decreases p.len(),
{
    if p.len() == 0 {
        0
    } else {
        pieces_width(p.drop_last()) + crate::table::display_width(display_type_text(p.last()))
    }
}

/// Which directories above an item are done, while a tree is listed.
#[derive(Debug)]
pub struct TreeFmtOption {
    is_done: Vec<bool>,
}

/// The branch lines before an item: the flags of the directories above and
/// whether the item is the last of its directory; none for the root.
#[derive(Debug)]
pub enum LeadingDisplay {
    Branch { is_done: Vec<bool>, self_is_end: bool },
    Root,
}

impl View for LeadingDisplay {
    type V = Option<(Seq<bool>, bool)>;

    open spec fn view(&self) -> Option<(Seq<bool>, bool)> {
        match self {
            LeadingDisplay::Branch { is_done, self_is_end } => Some((is_done@, *self_is_end)),
            LeadingDisplay::Root => None,
        }
    }
}

/// The pieces of branch lines of a leading view.
pub open spec fn leading_v_pieces(l: Option<(Seq<bool>, bool)>) -> Seq<DisplayType> {
    match l {
        Some((done, end)) => leading_pieces(done, end),
        None => Seq::empty(),
    }
}

/// The directories above are known (there is at least one) when there are
/// branch lines.
pub open spec fn leading_ok(l: Option<(Seq<bool>, bool)>) -> bool {
    l matches Some((done, _)) ==> done.len() > 0
}

impl LeadingDisplay {
    /// The pieces of branch lines, in order.
    pub fn visit(&self) -> (r: Vec<DisplayType>)
        requires
            leading_ok(self@),
        ensures
            r@ == leading_v_pieces(self@),
    {
        let mut r: Vec<DisplayType> = Vec::new();
        match self {
            LeadingDisplay::Branch { is_done, self_is_end } => {
                let n = is_done.len() - 1;
                let mut i: usize = 0;
                while i < n
                    invariant
                        n == is_done@.len() - 1,
                        i <= n,
                        r@ == is_done@.take(i as int).map_values(|b: bool| if b {
                            DisplayType::One
                        } else {
                            DisplayType::Two
                        }),
                    decreases n - i,
                {
                    if is_done[i] {
                        r.push(DisplayType::One);
                    } else {
                        r.push(DisplayType::Two);
                    }
                    i = i + 1;
                    assert(r@ =~= is_done@.take(i as int).map_values(|b: bool| if b {
                        DisplayType::One
                    } else {
                        DisplayType::Two
                    }));
                }
                if !*self_is_end {
                    r.push(DisplayType::Three);
                } else {
                    r.push(DisplayType::Four);
                }
            },
            LeadingDisplay::Root => {},
        }
        r
    }

    /// The branch lines as text.
    pub fn to_string(&self) -> (r: String)
        requires
            leading_ok(self@),
        ensures
            r@ == pieces_text(leading_v_pieces(self@)),
    {
        let p = self.visit();
        let mut v: Vec<char> = Vec::new();
        let mut i: usize = 0;
        while i < p.len()
            invariant
                i <= p@.len(),
                v@ == pieces_text(p@.take(i as int)),
            decreases p@.len() - i,
        {
            assert(p@.take(i + 1).drop_last() =~= p@.take(i as int));
            push_str(&mut v, p[i].as_str());
            i = i + 1;
        }
        assert(p@.take(p@.len() as int) =~= p@);
        from_chars(v.as_slice())
    }

    /// The displayed width of the branch lines, when it fits in a `usize`.
    pub fn checked_width(&self) -> (r: Option<usize>)
        requires
            leading_ok(self@),
        ensures
            match r {
                Some(w) => w == pieces_width(leading_v_pieces(self@)),
                None => pieces_width(leading_v_pieces(self@)) > usize::MAX,
            },
    {
        let p = self.visit();
        let mut w: usize = 0;
        let mut i: usize = 0;
        while i < p.len()
            invariant
                i <= p@.len(),
                w == pieces_width(p@.take(i as int)),
                p@ == leading_v_pieces(self@),
            decreases p@.len() - i,
        {
            assert(p@.take(i + 1).drop_last() =~= p@.take(i as int));
            assert(p@.take(i + 1).last() == p@[i as int]);
            let d = crate::table::str_width(p[i].as_str());
            assert(pieces_width(p@.take(i + 1)) == w + d);
            match w.checked_add(d) {
                Some(x) => {
                    w = x;
                },
                None => {
                    proof {
                        assert(w + d > usize::MAX);
                        lemma_pieces_width_mono(p@, i + 1);
                        assert(pieces_width(p@) > usize::MAX);
                    }
                    return None;
                },
            }
            i = i + 1;
        }
        assert(p@.take(p@.len() as int) =~= p@);
        Some(w)
    }

    /// The displayed width of the branch lines.
    pub fn width(&self) -> (r: usize)
        requires
            leading_ok(self@),
            pieces_width(leading_v_pieces(self@)) <= usize::MAX,
        ensures
            r == pieces_width(leading_v_pieces(self@)),
    {
        match self.checked_width() {
            Some(w) => w,
            None => 0,
        }
    }
}

proof fn lemma_pieces_width_mono(p: Seq<DisplayType>, i: int)
    requires
        0 <= i <= p.len(),
    ensures
        pieces_width(p.take(i)) <= pieces_width(p),
    decreases p.len() - i,
{
    if i < p.len() {
        lemma_pieces_width_mono(p, i + 1);
        assert(p.take(i + 1).drop_last() =~= p.take(i));
    } else {
        assert(p.take(i) =~= p);
    }
}

/// What a listed line shows: a leaf's value, or a directory's name.
#[derive(Debug)]
pub enum TreeItem<'a, T> {
    Leaf(&'a T),
    NonLeaf(String),
}

/// A line of a listed tree: the branch lines before the item, and the item.
#[derive(Debug)]
pub struct TreeLine<'a, T> {
    pub leading: LeadingDisplay,
    pub item: TreeItem<'a, T>,
}

impl<'a, T> View for TreeLine<'a, T> {
    type V = (Option<(Seq<bool>, bool)>, (Option<T>, Seq<char>));

    open spec fn view(&self) -> (Option<(Seq<bool>, bool)>, (Option<T>, Seq<char>)) {
        (self.leading@, match self.item {
            TreeItem::Leaf(t) => (Some(*t), Seq::empty()),
            TreeItem::NonLeaf(s) => (None, s@),
        })
    }
}

/// Views of listed lines.
pub open spec fn lines_v<'a, T>(s: Seq<TreeLine<'a, T>>) -> Seq<(Option<(Seq<bool>, bool)>, (Option<T>, Seq<char>))> {
    s.map_values(|l: TreeLine<'a, T>| l@)
}

/// `a` is listed no later than `b`.
fn listed_no_later<T: TreeValue>(a: &TreeNode<T>, b: &TreeNode<T>) -> (r: bool)
    ensures
        r == entry_le(a.tv(), b.tv()),
{
    let ka = a.cmp_key();
    let kb = b.cmp_key();
    let la = matches!(a, TreeNode::NonLeaf(_));
    let lb = matches!(b, TreeNode::NonLeaf(_));
    if la != lb {
        !la
    } else {
        match (ka, kb) {
            (None, _) => true,
            (Some(_), None) => false,
            (Some(x), Some(y)) => x <= y,
        }
    }
}

/// The positions of `childs` in listing order.
fn fmt_order<T: TreeValue>(childs: &Vec<(bool, TreeNode<T>)>) -> (r: Vec<usize>)
    ensures
        r@.len() == childs@.len(),
        forall|i: int| 0 <= i < r@.len() ==> r@[i] as int == list_order(tv_list(childs@), childs@.len() as int)[i],
{
    let ghost cs = tv_list(childs@);
    proof {
        lemma_tv_list(childs@);
    }
    let mut order: Vec<usize> = Vec::new();
    let mut k: usize = 0;
    while k < childs.len()
        invariant
            cs == tv_list(childs@),
            cs.len() == childs@.len(),
            forall|j: int| 0 <= j < childs@.len() ==> #[trigger] cs[j] == (childs@[j].0, childs@[j].1.tv()),
            k <= childs@.len(),
            order@.len() == k,
            forall|i: int| 0 <= i < k ==> order@[i] as int == #[trigger] list_order(cs, k as int)[i],
        decreases childs@.len() - k,
    {
        let ghost o = list_order(cs, k as int);
        proof {
            lemma_list_order_range(cs, k as int);
        }
        let mut p: usize = 0;
        assert(o.skip(0) =~= o);
        assert(o.take(0) + insert_pos(cs, o.skip(0), k as int) =~= insert_pos(cs, o, k as int));
        while p < order.len() && listed_no_later(&childs[order[p]].1, &childs[k].1)
            invariant
                cs == tv_list(childs@),
                cs.len() == childs@.len(),
                forall|j: int| 0 <= j < childs@.len() ==> #[trigger] cs[j] == (childs@[j].0, childs@[j].1.tv()),
                k < childs@.len(),
                o == list_order(cs, k as int),
                o.len() == k,
                forall|i: int| 0 <= i < k ==> 0 <= #[trigger] o[i] < k,
                order@.len() == k,
                forall|i: int| 0 <= i < k ==> order@[i] as int == #[trigger] o[i],
                p <= k,
                insert_pos(cs, o, k as int) == o.take(p as int) + insert_pos(cs, o.skip(p as int), k as int),
            decreases k - p,
        {
            assert(o.skip(p as int)[0] == o[p as int]);
            assert(o.skip(p as int).drop_first() =~= o.skip(p + 1));
            assert(o.take(p + 1) =~= o.take(p as int).push(o[p as int]));
            assert(o.take(p as int) + (seq![o[p as int]] + insert_pos(cs, o.skip(p + 1), k as int)) =~= o.take(p + 1)
                + insert_pos(cs, o.skip(p + 1), k as int));
            p = p + 1;
        }
        proof {
            if p < k {
                assert(o.skip(p as int)[0] == o[p as int]);
                assert(insert_pos(cs, o.skip(p as int), k as int) == seq![k as int] + o.skip(p as int));
            } else {
                assert(o.skip(p as int) =~= Seq::<int>::empty());
            }
        }
        let ghost before = order@;
        order.insert(p, k);
        proof {
            let goal = list_order(cs, k + 1);
            assert(goal == insert_pos(cs, o, k as int));
            assert forall|i: int| 0 <= i < k + 1 implies order@[i] as int == #[trigger] list_order(cs, k + 1)[i] by {
                if i < p {
                    assert(order@[i] == before[i]);
                } else if i > p {
                    assert(order@[i] == before[i - 1]);
                }
            }
        }
        k = k + 1;
    }
    order
}

impl<T: TreeValue> TreeNode<T> {
    /// How two entries are ordered for listing: leaves first, then by key, an
    /// entry without a key first.
    pub fn simple_cmp(&self, other: &Self) -> (r: core::cmp::Ordering)
        ensures
            r == core::cmp::Ordering::Less <==> entry_le(self.tv(), other.tv()) && !entry_le(other.tv(), self.tv()),
            r == core::cmp::Ordering::Equal <==> entry_le(self.tv(), other.tv()) && entry_le(other.tv(), self.tv()),
            r == core::cmp::Ordering::Greater <==> !entry_le(self.tv(), other.tv()),
    {
        let a = listed_no_later(self, other);
        let b = listed_no_later(other, self);
        if a && !b {
            core::cmp::Ordering::Less
        } else if a {
            core::cmp::Ordering::Equal
        } else {
            core::cmp::Ordering::Greater
        }
    }

    /// Lists the tree: the root without branch lines, then every entry of every
    /// directory in listing order, depth first.
    pub fn fmt<'a>(&'a self) -> (r: Vec<TreeLine<'a, T>>)
        requires
            dirs_filled(self.tv()),
        ensures
            lines_v(r@) == tree_lines(self.tv()),
    {
        let mut out: Vec<TreeLine<'a, T>> = Vec::new();
        match self {
            TreeNode::Leaf(leaf) => {
                out.push(TreeLine { leading: LeadingDisplay::Root, item: TreeItem::Leaf(leaf) });
                assert(lines_v(out@) =~= tree_lines(self.tv()));
            },
            TreeNode::NonLeaf(inner) => {
                out.push(TreeLine { leading: LeadingDisplay::Root, item: TreeItem::NonLeaf(inner.value.clone()) });
                let mut done: Vec<bool> = Vec::new();
                done.push(false);
                let ghost head = lines_v(out@);
                proof {
                    lemma_tv_list(inner.childs@);
                    assert(done@ =~= seq![false]);
                    let cs = tv_list(inner.childs@);
                    assert(self.tv() == TreeV::NonLeaf(inner.max_key, inner.value@, cs));
                    assert(forall|i: int| 0 <= i < cs.len() ==> dirs_filled(#[trigger] cs[i].1));
                    assert forall|i: int| 0 <= i < inner.childs@.len() implies dirs_filled(#[trigger] inner.childs@[i].1.tv()) by {
                        assert(cs[i] == (inner.childs@[i].0, inner.childs@[i].1.tv()));
                        assert(dirs_filled(cs[i].1));
                    }
                }
                Self::fmt_lists(&inner.childs, &mut done, &mut out);
                assert(lines_v(out@) =~= tree_lines(self.tv()));
            },
        }
        out
    }

    /// Lists the entries of a directory in listing order, the last one closing it.
    fn fmt_lists<'a>(childs: &'a Vec<(bool, TreeNode<T>)>, opt: &mut Vec<bool>, out: &mut Vec<TreeLine<'a, T>>)
        requires
            childs@.len() > 0,
            old(opt)@.len() > 0,
            forall|i: int| 0 <= i < childs@.len() ==> dirs_filled(#[trigger] childs@[i].1.tv()),
        ensures
            lines_v(final(out)@) == lines_v(old(out)@) + list_lines(
                tv_list(childs@),
                list_order(tv_list(childs@), childs@.len() as int),
                old(opt)@,
            ),
            final(opt)@ == done_after(old(opt)@, true),
        decreases childs@, 1int,
    {
        let ghost cs = tv_list(childs@);
        let ghost done0 = opt@;
        let ghost out0 = lines_v(out@);
        let order = fmt_order(childs);
        let ghost o = list_order(cs, childs@.len() as int);
        proof {
            lemma_tv_list(childs@);
            lemma_list_order_range(cs, childs@.len() as int);
            assert(o.skip(0) =~= o);
        }
        let n = order.len();
        let mut j: usize = 0;
        while j < n
            invariant
                n == order@.len(),
                n == childs@.len(),
                n > 0,
                cs == tv_list(childs@),
                cs.len() == childs@.len(),
                forall|i: int| 0 <= i < childs@.len() ==> #[trigger] cs[i] == (childs@[i].0, childs@[i].1.tv()),
                forall|i: int| 0 <= i < childs@.len() ==> dirs_filled(#[trigger] childs@[i].1.tv()),
                o == list_order(cs, n as int),
                o.len() == n,
                forall|i: int| 0 <= i < n ==> 0 <= #[trigger] o[i] < n,
                forall|i: int| 0 <= i < n ==> order@[i] as int == #[trigger] o[i],
                j <= n,
                done0.len() > 0,
                j < n ==> opt@ == done0,
                j == n ==> opt@ == done_after(done0, true),
                lines_v(out@) + list_lines(cs, o.skip(j as int), done0) == out0 + list_lines(cs, o, done0),
            decreases n - j,
        {
            let k = order[j];
            let end = j + 1 == n;
            let ghost before = lines_v(out@);
            proof {
                assert(o.skip(j as int)[0] == o[j as int]);
                assert(o.skip(j as int).drop_first() =~= o.skip(j + 1));
                assert(o.skip(j as int).len() == n - j);
            }
            Self::fmt_with(&childs[k].1, opt, end, out);
            proof {
                assert(lines_v(out@) + list_lines(cs, o.skip(j + 1), done0) =~= before + (node_lines(
                    cs[k as int].1,
                    done0,
                    end,
                ) + list_lines(cs, o.skip(j + 1), done0)));
            }
            j = j + 1;
        }
        proof {
            assert(o.skip(n as int) =~= Seq::<int>::empty());
        }
    }

    /// Lists a node and what lies beneath it.
    fn fmt_with<'a>(node: &'a TreeNode<T>, opt: &mut Vec<bool>, self_is_end: bool, out: &mut Vec<TreeLine<'a, T>>)
        requires
            old(opt)@.len() > 0,
            dirs_filled(node.tv()),
        ensures
            lines_v(final(out)@) == lines_v(old(out)@) + node_lines(node.tv(), old(opt)@, self_is_end),
            final(opt)@ == done_after(old(opt)@, self_is_end),
        decreases node, 0int,
    {
        let ghost out0 = lines_v(out@);
        let ghost done0 = opt@;
        let leading = LeadingDisplay::Branch { is_done: opt.clone(), self_is_end };
        match node {
            TreeNode::Leaf(leaf) => {
                out.push(TreeLine { leading, item: TreeItem::Leaf(leaf) });
                if self_is_end {
                    let last = opt.len() - 1;
                    opt.set(last, true);
                }
                assert(lines_v(out@) =~= out0 + node_lines(node.tv(), done0, self_is_end));
            },
            TreeNode::NonLeaf(inner) => {
                out.push(TreeLine { leading, item: TreeItem::NonLeaf(inner.value.clone()) });
                if self_is_end {
                    let last = opt.len() - 1;
                    opt.set(last, true);
                }
                let ghost mid = lines_v(out@);
                opt.push(false);
                proof {
                    lemma_tv_list(inner.childs@);
                    assert(opt@ == done_after(done0, self_is_end).push(false));
                    let cs = tv_list(inner.childs@);
                    assert(node.tv() == TreeV::NonLeaf(inner.max_key, inner.value@, cs));
                    assert(forall|i: int| 0 <= i < cs.len() ==> dirs_filled(#[trigger] cs[i].1));
                    assert forall|i: int| 0 <= i < inner.childs@.len() implies dirs_filled(#[trigger] inner.childs@[i].1.tv()) by {
                        assert(cs[i] == (inner.childs@[i].0, inner.childs@[i].1.tv()));
                        assert(dirs_filled(cs[i].1));
                    }
                }
                Self::fmt_lists(&inner.childs, opt, out);
                opt.pop();
                proof {
                    assert(opt@ =~= done_after(done0, self_is_end));
                    assert(lines_v(out@) =~= out0 + node_lines(node.tv(), done0, self_is_end));
                }
            },
        }
    }
}

} // verus!
