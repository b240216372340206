use hyper_scripter::color::Color;
use hyper_scripter::list::{
    gen_title, group_by_tags, limit_scripts, long_latest_txt, short_latest_txt, sort_scripts, style_name,
    DisplayIdentStyle, DisplayStyle, Grouping, TagsKey,
};
use hyper_scripter::script::{ConcreteScriptName, ScriptInfo, ScriptName};
use hyper_scripter::script_type::ScriptType;
use hyper_scripter::tag::{Tag, TagSet};

fn info(id: i64, tags: &[&str], time: i64, runs: Option<u64>) -> ScriptInfo {
    let mut set = TagSet::new();
    for t in tags {
        set.insert(Tag::new_unchecked(t.to_string()));
    }
    ScriptInfo {
        id,
        hash: 0,
        name: ScriptName::Named(ConcreteScriptName::new_unchecked(format!("s{}", id))),
        ty: ScriptType::new_unchecked("sh".to_string()),
        tags: set,
        created_time: 0,
        read_time: time,
        write_time: time,
        exec_time: runs.map(|_| time),
        exec_done_time: None,
        neglect_time: None,
        humble_time: None,
        exec_count: runs.unwrap_or(0),
    }
}

fn ids(v: &[&ScriptInfo]) -> Vec<i64> {
    v.iter().map(|s| s.id).collect()
}

#[test]
fn grouping_words() {
    assert_eq!(Grouping::from_str("tag").unwrap(), Grouping::Tag);
    assert_eq!(Grouping::from_str("tree").unwrap(), Grouping::Tree);
    assert_eq!(Grouping::from_str("none").unwrap(), Grouping::Flat);
    assert!(Grouping::default().is_none());
    assert!(!Grouping::Tag.is_none());
    let s: DisplayStyle<(), ()> = DisplayStyle::Long(());
    assert!(s.is_long());
    let s: DisplayStyle<(), ()> = DisplayStyle::Short(DisplayIdentStyle::Name, ());
    assert!(!s.is_long());
}

#[test]
fn tags_keys_are_sorted_and_shown() {
    let mut set = TagSet::new();
    for t in ["zeta", "alpha", "mid", "Alpha"] {
        set.insert(Tag::new_unchecked(t.to_string()));
    }
    let k = TagsKey::new(&set);
    assert_eq!(k.to_string(), "[#Alpha #alpha #mid #zeta]");
    assert!(!k.is_empty());
    let empty = TagsKey::new(&TagSet::new());
    assert!(empty.is_empty());
    assert_eq!(empty.to_string(), "(no tag)");
}

#[test]
fn scripts_sort_from_the_latest() {
    let a = info(1, &[], 10, None);
    let b = info(2, &[], 30, None);
    let c = info(3, &[], 10, None);
    let d = info(4, &[], 20, None);
    let mut v = vec![&a, &b, &c, &d];
    sort_scripts(&mut v);
    assert_eq!(ids(&v), vec![2, 4, 1, 3]);
    let (v, sorted) = limit_scripts(vec![&a, &b, &c, &d], Some(2));
    assert!(sorted);
    assert_eq!(ids(&v), vec![2, 4]);
    let (v, sorted) = limit_scripts(vec![&a, &b], None);
    assert!(!sorted);
    assert_eq!(ids(&v), vec![1, 2]);
    let (v, _) = limit_scripts(vec![&a, &b], Some(9));
    assert_eq!(ids(&v), vec![2, 1]);
}

#[test]
fn groups_by_tags_untagged_first_then_by_runs() {
    let a = info(1, &["x"], 0, Some(5));
    let b = info(2, &[], 0, Some(9));
    let c = info(3, &["y", "x"], 0, Some(1));
    let d = info(4, &["x"], 0, Some(7));
    let e = info(5, &["x", "y"], 0, None);
    let groups = group_by_tags(vec![&a, &b, &c, &d, &e]);
    let shown: Vec<(Option<u64>, String, Vec<i64>)> =
        groups.iter().map(|(k, t, v)| (*k, t.to_string(), ids(v))).collect();
    assert_eq!(
        shown,
        vec![
            (None, "(no tag)".to_string(), vec![2]),
            (Some(1), "[#x #y]".to_string(), vec![3, 5]),
            (Some(7), "[#x]".to_string(), vec![1, 4]),
        ]
    );
}

#[test]
fn names_with_latest_marks() {
    let (t, w) = style_name(true, true, short_latest_txt(), Color::Red, "name").unwrap();
    assert_eq!((t.as_str(), w), ("name", 4));
    let (t, w) = style_name(true, false, long_latest_txt(), Color::Red, "name").unwrap();
    assert_eq!((t.as_str(), w), ("  name", 6));
    let (t, w) = style_name(false, true, long_latest_txt(), Color::Red, "n").unwrap();
    assert_eq!(t, "\x1B[1;33m *\x1B[0m\x1B[1;4;31mn\x1B[0m");
    assert_eq!(w, 3);
    let (t, _) = style_name(false, false, short_latest_txt(), Color::Blue, "n").unwrap();
    assert_eq!(t, "\x1B[1;34mn\x1B[0m");
}

#[test]
fn long_listing_columns() {
    assert_eq!(gen_title().len(), 5);
}
