use hyper_scripter::color::Color;
use hyper_scripter::list::{build_forest, fmt_short_line, ident_string, DisplayIdentStyle, TrimmedScriptInfo};
use hyper_scripter::script::{string_into_script_name, ScriptInfo};
use hyper_scripter::script_type::ScriptType;
use hyper_scripter::tag::TagSet;
use hyper_scripter::tree_lib::{LeadingDisplay, TreeItem, TreeNode, TreeValue};

/// A script named `t`, ordered by the number `t` spells.
fn script(t: &str) -> ScriptInfo {
    let n: u64 = t.parse().unwrap();
    ScriptInfo {
        id: n as i64,
        hash: 0,
        name: string_into_script_name(t.to_owned(), true).unwrap(),
        ty: ScriptType::new_unchecked("sh".to_owned()),
        tags: TagSet::new(),
        created_time: 0,
        read_time: 0,
        write_time: 0,
        exec_time: Some(0),
        exec_done_time: None,
        neglect_time: None,
        humble_time: None,
        exec_count: n,
    }
}

fn l<'a>(s: &'a ScriptInfo) -> TreeNode<TrimmedScriptInfo<'a>> {
    TreeNode::new_leaf(TrimmedScriptInfo(s))
}

fn n<'a>(s: &str, childs: Vec<TreeNode<TrimmedScriptInfo<'a>>>) -> TreeNode<TrimmedScriptInfo<'a>> {
    let mut node = TreeNode::new_nonleaf(s.to_string(), vec![]);
    if let TreeNode::NonLeaf(inner) = &mut node {
        for child in childs.into_iter() {
            inner.insert(&vec![], 0, child);
        }
    }
    node
}

fn render(root: &TreeNode<TrimmedScriptInfo>) -> String {
    let mut counter = 0;
    let mut s = String::new();
    for line in root.fmt() {
        let lead = line.leading.to_string();
        match line.item {
            TreeItem::Leaf(v) => {
                counter += 1;
                s += &format!("{}{} {}\n", lead, v.display_key(), counter);
            }
            TreeItem::NonLeaf(name) => {
                counter += 2;
                s += &format!("{}{}_{}\n", lead, name, counter);
            }
        }
    }
    s
}

#[test]
fn test_display_tree() {
    let v: Vec<ScriptInfo> = ["0", "1", "2", "3", "4", "5", "6", "7", "8"].iter().map(|t| script(t)).collect();
    let root = n(
        "aaa",
        vec![
            n("xxx", vec![n("yyy", vec![l(&v[2]), n("zzz", vec![l(&v[7])])])]),
            l(&v[4]),
            n(
                "bbb",
                vec![n("eee", vec![l(&v[8])]), n("ccc", vec![l(&v[5]), l(&v[3]), n("ddd", vec![l(&v[6])])])],
            ),
            l(&v[1]),
        ],
    );
    let ans = "
aaa_2
├── 1 3
├── 4 4
├── xxx_6
│  └── yyy_8
│     ├── 2 9
│     └── zzz_11
│        └── 7 12
└── bbb_14
   ├── ccc_16
   │  ├── 3 17
   │  ├── 5 18
   │  └── ddd_20
   │     └── 6 21
   └── eee_23
      └── 8 24
"
    .trim_start();
    assert_eq!(render(&root), ans);
}

fn build(v: Vec<(&str, &str)>) -> Vec<ScriptInfo> {
    v.into_iter()
        .enumerate()
        .map(|(idx, (name, ty))| {
            let idx = idx as i64;
            ScriptInfo {
                id: idx,
                hash: 0,
                name: string_into_script_name(name.to_owned(), true).unwrap(),
                ty: ScriptType::new_unchecked(ty.to_owned()),
                tags: TagSet::new(),
                created_time: idx,
                read_time: idx,
                write_time: idx,
                exec_time: Some(idx),
                exec_done_time: None,
                neglect_time: None,
                humble_time: None,
                exec_count: idx as u64,
            }
        })
        .collect()
}

fn render_short(root: &TreeNode<TrimmedScriptInfo>, latest_script_id: i64) -> String {
    let mut s = String::new();
    for line in root.fmt() {
        let (ident, is_latest) = match &line.item {
            TreeItem::Leaf(t) => {
                let ty = t.0.ty.0.clone();
                (ident_string(DisplayIdentStyle::Normal, &ty, t, ""), t.0.id == latest_script_id)
            }
            TreeItem::NonLeaf(_) => (String::new(), false),
        };
        s += &fmt_short_line(&line, true, &ident, is_latest, Color::White);
    }
    s
}

#[test]
fn test_fmt_tree_short() {
    let scripts = build(vec![
        ("bbb/ccc/ggg/rrr", "tmux"),
        ("bbb/ccc/ddd", "tmux"),
        ("bbb/ccc/ggg/fff", "tmux"),
        ("aaa", "sh"),
        ("bbb/ccc/ddd/eee", "tmux"),
        (".2", "txt"),
        ("bbb/ccc/yyy", "js"),
        ("bbb/ccc/ddd/www", "rb"),
        ("bbb/ccc/ggg/xxx", "tmux"),
        ("bbb/ddd", "tmux"),
        ("aaa/bbb", "rb"),
    ]);
    let root = build_forest(scripts.iter().collect());
    let ans = "
.
├── aaa(sh)
├── .2(txt)
├── bbb
│  ├── ddd(tmux)
│  └── ccc
│     ├── ddd(tmux)
│     ├── yyy(js)
│     ├── ddd
│     │  ├── eee(tmux)
│     │  └── www(rb)
│     └── ggg
│        ├── rrr(tmux)
│        ├── fff(tmux)
│        └── xxx(tmux)
└── aaa
   └── bbb(rb)
"
    .trim();
    assert_eq!(render_short(&root, 1).trim(), ans);
}

#[test]
fn leading_lines_and_width() {
    let l = LeadingDisplay::Branch { is_done: vec![true, false, false], self_is_end: true };
    assert_eq!(l.to_string(), "   │  └── ");
    assert_eq!(l.checked_width(), Some(10));
    assert_eq!(l.width(), 10);
    let l = LeadingDisplay::Branch { is_done: vec![false], self_is_end: false };
    assert_eq!(l.to_string(), "├── ");
    assert_eq!(LeadingDisplay::Root.to_string(), "");
    assert_eq!(LeadingDisplay::Root.width(), 0);
}

#[test]
fn directory_keeps_its_largest_key() {
    let (s2, s3, s5, s9) = (script("2"), script("3"), script("5"), script("9"));
    let mut node = TreeNode::new_nonleaf("d".to_string(), vec![]);
    if let TreeNode::NonLeaf(inner) = &mut node {
        assert_eq!(inner.insert(&vec!["x".to_string()], 0, l(&s3)), Some(3));
        assert_eq!(inner.insert(&vec!["x".to_string()], 0, l(&s2)), None);
        assert_eq!(inner.insert(&vec![], 0, l(&s9)), Some(9));
    }
    assert_eq!(node.cmp_key(), Some(9));
    assert_eq!(node.display_key(), "d");
    assert_eq!(l(&s5).simple_cmp(&node), std::cmp::Ordering::Less);
    assert_eq!(node.simple_cmp(&l(&s5)), std::cmp::Ordering::Greater);
    assert_eq!(l(&s5).simple_cmp(&l(&s5)), std::cmp::Ordering::Equal);
}
